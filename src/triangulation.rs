//! Ghost points for seamless wrapping, Delaunay triangulation and the
//! renderer's vertex buffers.
use vstd::prelude::*;
use crate::fixed::{abs, div_trunc, UNIT};
use crate::point::{Point, MAX_DIMENSION, MAX_HEIGHT_INTENSITY};

verus! {

/// Particles closer to an edge than this fraction of the extent, in
/// thousandths, get ghost copies across it.
pub const GHOST_THRESHOLD: i64 = 150;

/// Largest magnitude of a vertex coordinate: particles, their ghosts and the
/// corner anchors.
pub const VERTEX_LIMIT: i64 = 1_200_000_000;

/// Values per triangle of the filled-triangle buffer: six per vertex.
pub const TRIANGLE_STRIDE: usize = 18;

/// A vertex handed to triangulation: position and static height.
pub type Vertex = (i64, i64, i64);

/// The Delaunay triangles of the points `(xs[i], ys[i])`: three point
/// indices per triangle.
pub uninterp spec fn delaunay_of(xs: Seq<i32>, ys: Seq<i32>) -> Seq<usize>;

/// Relies on `delaunator::triangulate`: its `triangles` field lists three
/// indices into the input per triangle, and depends on the input alone.
#[verifier::external_body]
fn delaunay_triangles(xs: &Vec<i32>, ys: &Vec<i32>) -> (r: Vec<usize>)
    requires
        xs@.len() == ys@.len(),
    ensures
        r@ == delaunay_of(xs@, ys@),
        r@.len() % 3 == 0,
        forall|k: int| 0 <= k < r@.len() ==> r@[k] < xs@.len(),
{
    let points: Vec<delaunator::Point> = xs.iter().zip(ys.iter()).map(
        |(x, y)| delaunator::Point { x: (*x).into(), y: (*y).into() },
    ).collect();
    delaunator::triangulate(&points).triangles
}

/// `v` as a one-element sequence when `c` holds, else nothing.
pub open spec fn when(c: bool, v: Vertex) -> Seq<Vertex> {
    if c {
        seq![v]
    } else {
        Seq::empty()
    }
}

/// Ghost copies of `p` in a `w` by `h` field: one across each edge it is
/// near, then one across each corner whose two edges it is near.
pub open spec fn ghosts_of(p: Point, w: int, h: int) -> Seq<Vertex> {
    let tx = w * GHOST_THRESHOLD / 1000;
    let ty = h * GHOST_THRESHOLD / 1000;
    let left = p.x < tx;
    let right = p.x > w - tx;
    let top = p.y < ty;
    let bottom = p.y > h - ty;
    let (x, y, z) = (p.x as int, p.y as int, p.z);
    when(left, ((x + w) as i64, y as i64, z)) + when(right, ((x - w) as i64, y as i64, z)) + when(
        top,
        (x as i64, (y + h) as i64, z),
    ) + when(bottom, (x as i64, (y - h) as i64, z)) + when(
        left && top,
        ((x + w) as i64, (y + h) as i64, z),
    ) + when(left && bottom, ((x + w) as i64, (y - h) as i64, z)) + when(
        right && top,
        ((x - w) as i64, (y + h) as i64, z),
    ) + when(right && bottom, ((x - w) as i64, (y - h) as i64, z))
}

/// Ghosts of all of `ps`, particle by particle.
pub open spec fn all_ghosts(ps: Seq<Point>, w: int, h: int) -> Seq<Vertex>
    decreases ps.len(),
{
    if ps.len() == 0 {
        Seq::empty()
    } else {
        all_ghosts(ps.drop_last(), w, h) + ghosts_of(ps.last(), w, h)
    }
}

/// The particles themselves as vertices.
pub open spec fn as_vertices(ps: Seq<Point>) -> Seq<Vertex> {
    ps.map_values(|p: Point| (p.x, p.y, p.z))
}

/// Four anchors one pixel outside the corners, at height zero.
pub open spec fn corners(w: int, h: int) -> Seq<Vertex> {
    seq![
        (-UNIT as i64, -UNIT as i64, 0i64),
        ((w + UNIT) as i64, -UNIT as i64, 0i64),
        ((w + UNIT) as i64, (h + UNIT) as i64, 0i64),
        (-UNIT as i64, (h + UNIT) as i64, 0i64),
    ]
}

/// Everything triangulated: particles, then ghosts, then corner anchors.
pub open spec fn mesh_vertices(ps: Seq<Point>, w: int, h: int) -> Seq<Vertex> {
    as_vertices(ps) + all_ghosts(ps, w, h) + corners(w, h)
}

/// The filled-mesh record of one triangle: for each corner its position,
/// the average height, then centroid y, centroid x, centroid y.
pub open spec fn triangle_record(a: Vertex, b: Vertex, c: Vertex) -> Seq<i64> {
    let cx = div_trunc(a.0 + b.0 + c.0, 3) as i64;
    let cy = div_trunc(a.1 + b.1 + c.1, 3) as i64;
    let hz = div_trunc(a.2 + b.2 + c.2, 3) as i64;
    seq![a.0, a.1, hz, cy, cx, cy, b.0, b.1, hz, cy, cx, cy, c.0, c.1, hz, cy, cx, cy]
}

/// The stroke record of one triangle: its three edges as position pairs.
pub open spec fn stroke_record(a: Vertex, b: Vertex, c: Vertex) -> Seq<i64> {
    seq![a.0, a.1, b.0, b.1, b.0, b.1, c.0, c.1, c.0, c.1, a.0, a.1]
}

/// Filled-mesh buffer of the first `n` triangles of `tris` over `vs`.
pub open spec fn triangle_buffer(vs: Seq<Vertex>, tris: Seq<usize>, n: int) -> Seq<i64>
    decreases n,
{
    if n <= 0 {
        Seq::empty()
    } else {
        triangle_buffer(vs, tris, n - 1) + triangle_record(
            vs[tris[3 * n - 3] as int],
            vs[tris[3 * n - 2] as int],
            vs[tris[3 * n - 1] as int],
        )
    }
}

/// Stroke buffer of the first `n` triangles of `tris` over `vs`.
pub open spec fn stroke_buffer(vs: Seq<Vertex>, tris: Seq<usize>, n: int) -> Seq<i64>
    decreases n,
{
    if n <= 0 {
        Seq::empty()
    } else {
        stroke_buffer(vs, tris, n - 1) + stroke_record(
            vs[tris[3 * n - 3] as int],
            vs[tris[3 * n - 2] as int],
            vs[tris[3 * n - 1] as int],
        )
    }
}

/// Point-marker buffer: the position of each of the first `n` particles.
pub open spec fn point_buffer(ps: Seq<Point>, n: int) -> Seq<i64>
    decreases n,
{
    if n <= 0 {
        Seq::empty()
    } else {
        point_buffer(ps, n - 1) + seq![ps[n - 1].x, ps[n - 1].y]
    }
}

/// A vertex the buffers can hold.
pub open spec fn vertex_ok(v: Vertex) -> bool {
    abs(v.0 as int) <= VERTEX_LIMIT && abs(v.1 as int) <= VERTEX_LIMIT && 0 <= v.2
        <= MAX_HEIGHT_INTENSITY
}

/// A triangle list over `n` vertices.
pub open spec fn triangles_ok(tris: Seq<usize>, n: int) -> bool {
    tris.len() % 3 == 0 && forall|k: int| 0 <= k < tris.len() ==> tris[k] < n
}

proof fn lemma_buffer_lengths(vs: Seq<Vertex>, tris: Seq<usize>, n: int)
    requires
        n >= 0,
    ensures
        triangle_buffer(vs, tris, n).len() == 18 * n,
        stroke_buffer(vs, tris, n).len() == 12 * n,
    decreases n,
{
    if n > 0 {
        lemma_buffer_lengths(vs, tris, n - 1);
    }
}

proof fn lemma_point_buffer_len(ps: Seq<Point>, n: int)
    requires
        n >= 0,
    ensures
        point_buffer(ps, n).len() == 2 * n,
    decreases n,
{
    if n > 0 {
        lemma_point_buffer_len(ps, n - 1);
    }
}

/// Ghost copies of every particle near an edge or a corner, particle by
/// particle, each carrying its particle's height.
pub fn generate_ghost_points(points: &Vec<Point>, width: i64, height: i64) -> (r: Vec<Vertex>)
    requires
        forall|i: int| 0 <= i < points@.len() ==> (#[trigger] points@[i]).bounded(),
        0 <= width <= MAX_DIMENSION,
        0 <= height <= MAX_DIMENSION,
    ensures
        r@ == all_ghosts(points@, width as int, height as int),
        forall|k: int| 0 <= k < r@.len() ==> vertex_ok(#[trigger] r@[k]),
{
    let mut out: Vec<Vertex> = Vec::new();
    let mut i: usize = 0;
    while i < points.len()
        invariant
            i <= points@.len(),
            forall|j: int| 0 <= j < points@.len() ==> (#[trigger] points@[j]).bounded(),
            0 <= width <= MAX_DIMENSION,
            0 <= height <= MAX_DIMENSION,
            out@ == all_ghosts(points@.subrange(0, i as int), width as int, height as int),
            forall|k: int| 0 <= k < out@.len() ==> vertex_ok(#[trigger] out@[k]),
        decreases points@.len() - i,
    {
        assert(points@[i as int].bounded());
        push_ghosts(&mut out, &points[i], width, height);
        assert(points@.subrange(0, i + 1).drop_last() =~= points@.subrange(0, i as int));
        i += 1;
    }
    assert(points@.subrange(0, i as int) =~= points@);
    out
}

fn push_when(out: &mut Vec<Vertex>, c: bool, v: Vertex)
    requires
        vertex_ok(v),
    ensures
        final(out)@ == old(out)@ + when(c, v),
{
    if c {
        out.push(v);
    }
    assert(final(out)@ =~= old(out)@ + when(c, v));
}

fn push_ghosts(out: &mut Vec<Vertex>, p: &Point, w: i64, h: i64)
    requires
        p.bounded(),
        forall|k: int| 0 <= k < old(out)@.len() ==> vertex_ok(#[trigger] old(out)@[k]),
        0 <= w <= MAX_DIMENSION,
        0 <= h <= MAX_DIMENSION,
    ensures
        final(out)@ == old(out)@ + ghosts_of(*p, w as int, h as int),
        forall|k: int| 0 <= k < final(out)@.len() ==> vertex_ok(#[trigger] final(out)@[k]),
{
    let tx = w * GHOST_THRESHOLD / 1000;
    let ty = h * GHOST_THRESHOLD / 1000;
    let left = p.x < tx;
    let right = p.x > w - tx;
    let top = p.y < ty;
    let bottom = p.y > h - ty;
    let (x, y, z) = (p.x, p.y, p.z);
    let ghost start = out@;
    push_when(out, left, (x + w, y, z));
    push_when(out, right, (x - w, y, z));
    push_when(out, top, (x, y + h, z));
    push_when(out, bottom, (x, y - h, z));
    push_when(out, left && top, (x + w, y + h, z));
    push_when(out, left && bottom, (x + w, y - h, z));
    push_when(out, right && top, (x - w, y + h, z));
    push_when(out, right && bottom, (x - w, y - h, z));
    assert(out@ =~= start + ghosts_of(*p, w as int, h as int));
}

/// Filled-triangle records, one per triangle of `tris` over `vertices`,
/// in order.
fn build_triangle_buffer(vertices: &Vec<Vertex>, tris: &Vec<usize>, buffer: &mut Vec<i64>)
    requires
        triangles_ok(tris@, vertices@.len() as int),
        forall|k: int| 0 <= k < vertices@.len() ==> vertex_ok(#[trigger] vertices@[k]),
    ensures
        final(buffer)@ == triangle_buffer(vertices@, tris@, (tris@.len() / 3) as int),
{
    buffer.clear();
    let len = tris.len();
    let n = len / 3;
    let mut t: usize = 0;
    while t < n
        invariant
            len == tris@.len(),
            n == tris@.len() / 3,
            t <= n,
            triangles_ok(tris@, vertices@.len() as int),
            forall|k: int| 0 <= k < vertices@.len() ==> vertex_ok(#[trigger] vertices@[k]),
            buffer@ == triangle_buffer(vertices@, tris@, t as int),
        decreases n - t,
    {
        proof {
            assert(3 * t + 2 < len) by (nonlinear_arith)
                requires
                    t < n,
                    n == len / 3,
            ;
        }
        let a = vertices[tris[3 * t]];
        let b = vertices[tris[3 * t + 1]];
        let c = vertices[tris[3 * t + 2]];
        assert(vertex_ok(vertices@[tris@[3 * t as int] as int]));
        assert(vertex_ok(vertices@[tris@[3 * t + 1] as int]));
        assert(vertex_ok(vertices@[tris@[3 * t + 2] as int]));
        let cx = third(a.0 + b.0 + c.0);
        let cy = third(a.1 + b.1 + c.1);
        let hz = third(a.2 + b.2 + c.2);
        let ghost before = buffer@;
        buffer.push(a.0);
        buffer.push(a.1);
        buffer.push(hz);
        buffer.push(cy);
        buffer.push(cx);
        buffer.push(cy);
        buffer.push(b.0);
        buffer.push(b.1);
        buffer.push(hz);
        buffer.push(cy);
        buffer.push(cx);
        buffer.push(cy);
        buffer.push(c.0);
        buffer.push(c.1);
        buffer.push(hz);
        buffer.push(cy);
        buffer.push(cx);
        buffer.push(cy);
        assert(buffer@ =~= before + triangle_record(a, b, c));
        t += 1;
    }
}

/// Stroke records, one per triangle of `tris` over `vertices`, in order.
fn build_stroke_buffer(vertices: &Vec<Vertex>, tris: &Vec<usize>, buffer: &mut Vec<i64>)
    requires
        triangles_ok(tris@, vertices@.len() as int),
    ensures
        final(buffer)@ == stroke_buffer(vertices@, tris@, (tris@.len() / 3) as int),
{
    buffer.clear();
    let len = tris.len();
    let n = len / 3;
    let mut t: usize = 0;
    while t < n
        invariant
            len == tris@.len(),
            n == tris@.len() / 3,
            t <= n,
            triangles_ok(tris@, vertices@.len() as int),
            buffer@ == stroke_buffer(vertices@, tris@, t as int),
        decreases n - t,
    {
        proof {
            assert(3 * t + 2 < len) by (nonlinear_arith)
                requires
                    t < n,
                    n == len / 3,
            ;
        }
        let a = vertices[tris[3 * t]];
        let b = vertices[tris[3 * t + 1]];
        let c = vertices[tris[3 * t + 2]];
        let ghost before = buffer@;
        buffer.push(a.0);
        buffer.push(a.1);
        buffer.push(b.0);
        buffer.push(b.1);
        buffer.push(b.0);
        buffer.push(b.1);
        buffer.push(c.0);
        buffer.push(c.1);
        buffer.push(c.0);
        buffer.push(c.1);
        buffer.push(a.0);
        buffer.push(a.1);
        assert(buffer@ =~= before + stroke_record(a, b, c));
        t += 1;
    }
}

/// The position of every particle, in order.
fn build_point_buffer(points: &Vec<Point>, buffer: &mut Vec<i64>)
    ensures
        final(buffer)@ == point_buffer(points@, points@.len() as int),
{
    buffer.clear();
    let mut i: usize = 0;
    while i < points.len()
        invariant
            i <= points@.len(),
            buffer@ == point_buffer(points@, i as int),
        decreases points@.len() - i,
    {
        let ghost before = buffer@;
        buffer.push(points[i].x);
        buffer.push(points[i].y);
        assert(buffer@ =~= before + seq![points@[i as int].x, points@[i as int].y]);
        i += 1;
    }
}

fn third(s: i64) -> (r: i64)
    requires
        abs(s as int) <= 3 * VERTEX_LIMIT,
    ensures
        r == div_trunc(s as int, 3),
{
    if s >= 0 {
        s / 3
    } else {
        -((-s) / 3)
    }
}

/// Output buffers of one triangulation, rebuilt in full by each call.
pub struct TriangulationBuffers {
    /// Per vertex: x, y, average height, centroid y, centroid x, centroid y.
    pub triangle_vertices: Vec<i64>,
    /// Per edge: x1, y1, x2, y2.
    pub stroke_vertices: Vec<i64>,
    /// Per particle: x, y.
    pub point_vertices: Vec<i64>,
}

impl TriangulationBuffers {
    pub fn new() -> (r: TriangulationBuffers)
        ensures
            r.triangle_vertices@.len() == 0,
            r.stroke_vertices@.len() == 0,
            r.point_vertices@.len() == 0,
    {
        TriangulationBuffers {
            triangle_vertices: Vec::new(),
            stroke_vertices: Vec::new(),
            point_vertices: Vec::new(),
        }
    }

    /// Number of triangles in the filled mesh.
    pub fn triangle_count(&self) -> (r: usize)
        ensures
            r == self.triangle_vertices@.len() / 18,
    {
        self.triangle_vertices.len() / TRIANGLE_STRIDE
    }

    /// Number of stroke endpoints.
    pub fn stroke_vertex_count(&self) -> (r: usize)
        ensures
            r == self.stroke_vertices@.len() / 2,
    {
        self.stroke_vertices.len() / 2
    }
}

/// Rebuilds all three buffers for the triangle list `tris` over `vertices`,
/// whose first `points.len()` entries are the particles.
pub fn build_buffers(
    points: &Vec<Point>,
    vertices: &Vec<Vertex>,
    tris: &Vec<usize>,
    buffers: &mut TriangulationBuffers,
)
    requires
        triangles_ok(tris@, vertices@.len() as int),
        forall|k: int| 0 <= k < vertices@.len() ==> vertex_ok(#[trigger] vertices@[k]),
    ensures
        final(buffers).triangle_vertices@ == triangle_buffer(vertices@, tris@, (tris@.len() / 3) as int),
        final(buffers).stroke_vertices@ == stroke_buffer(vertices@, tris@, (tris@.len() / 3) as int),
        final(buffers).point_vertices@ == point_buffer(points@, points@.len() as int),
        final(buffers).triangle_vertices@.len() == 18 * ((tris@.len() / 3) as int),
        final(buffers).stroke_vertices@.len() == 12 * ((tris@.len() / 3) as int),
        final(buffers).point_vertices@.len() == 2 * points@.len(),
{
    build_triangle_buffer(vertices, tris, &mut buffers.triangle_vertices);
    build_stroke_buffer(vertices, tris, &mut buffers.stroke_vertices);
    build_point_buffer(points, &mut buffers.point_vertices);
    proof {
        lemma_buffer_lengths(vertices@, tris@, (tris@.len() / 3) as int);
        lemma_point_buffer_len(points@, points@.len() as int);
    }
}

/// The particles, their ghosts and the corner anchors, in that order.
pub fn mesh_points(points: &Vec<Point>, width: i64, height: i64) -> (r: Vec<Vertex>)
    requires
        forall|i: int| 0 <= i < points@.len() ==> (#[trigger] points@[i]).bounded(),
        0 <= width <= MAX_DIMENSION,
        0 <= height <= MAX_DIMENSION,
    ensures
        r@ == mesh_vertices(points@, width as int, height as int),
        forall|k: int| 0 <= k < r@.len() ==> vertex_ok(#[trigger] r@[k]),
{
    let ghosts = generate_ghost_points(points, width, height);
    let mut all: Vec<Vertex> = Vec::new();
    let mut i: usize = 0;
    while i < points.len()
        invariant
            i <= points@.len(),
            forall|j: int| 0 <= j < points@.len() ==> (#[trigger] points@[j]).bounded(),
            all@ == as_vertices(points@.subrange(0, i as int)),
            forall|k: int| 0 <= k < all@.len() ==> vertex_ok(#[trigger] all@[k]),
        decreases points@.len() - i,
    {
        assert(points@[i as int].bounded());
        all.push((points[i].x, points[i].y, points[i].z));
        i += 1;
        assert(all@ =~= as_vertices(points@.subrange(0, i as int)));
    }
    assert(points@.subrange(0, i as int) =~= points@);
    let ghost base = all@;
    let mut g: usize = 0;
    while g < ghosts.len()
        invariant
            g <= ghosts@.len(),
            forall|k: int| 0 <= k < ghosts@.len() ==> vertex_ok(#[trigger] ghosts@[k]),
            all@ == base + ghosts@.subrange(0, g as int),
            forall|k: int| 0 <= k < all@.len() ==> vertex_ok(#[trigger] all@[k]),
        decreases ghosts@.len() - g,
    {
        assert(vertex_ok(ghosts@[g as int]));
        all.push(ghosts[g]);
        g += 1;
        assert(all@ =~= base + ghosts@.subrange(0, g as int));
    }
    assert(ghosts@.subrange(0, g as int) =~= ghosts@);
    let ghost mid = all@;
    all.push((-UNIT, -UNIT, 0));
    all.push((width + UNIT, -UNIT, 0));
    all.push((width + UNIT, height + UNIT, 0));
    all.push((-UNIT, height + UNIT, 0));
    assert(all@ =~= mid + corners(width as int, height as int));
    all
}

/// Vertex coordinates split into the two columns triangulation reads.
fn columns(vertices: &Vec<Vertex>) -> (r: (Vec<i32>, Vec<i32>))
    requires
        forall|k: int| 0 <= k < vertices@.len() ==> vertex_ok(#[trigger] vertices@[k]),
    ensures
        r.0@.len() == vertices@.len(),
        r.1@.len() == vertices@.len(),
        r.0@ == xs_of(vertices@),
        r.1@ == ys_of(vertices@),
{
    let mut xs: Vec<i32> = Vec::new();
    let mut ys: Vec<i32> = Vec::new();
    let mut i: usize = 0;
    while i < vertices.len()
        invariant
            i <= vertices@.len(),
            forall|k: int| 0 <= k < vertices@.len() ==> vertex_ok(#[trigger] vertices@[k]),
            xs@ == xs_of(vertices@.subrange(0, i as int)),
            ys@ == ys_of(vertices@.subrange(0, i as int)),
        decreases vertices@.len() - i,
    {
        assert(vertex_ok(vertices@[i as int]));
        xs.push(vertices[i].0 as i32);
        ys.push(vertices[i].1 as i32);
        i += 1;
        assert(xs@ =~= xs_of(vertices@.subrange(0, i as int)));
        assert(ys@ =~= ys_of(vertices@.subrange(0, i as int)));
    }
    assert(vertices@.subrange(0, i as int) =~= vertices@);
    (xs, ys)
}

/// The x coordinates of `vs`.
pub open spec fn xs_of(vs: Seq<Vertex>) -> Seq<i32> {
    vs.map_values(|v: Vertex| v.0 as i32)
}

/// The y coordinates of `vs`.
pub open spec fn ys_of(vs: Seq<Vertex>) -> Seq<i32> {
    vs.map_values(|v: Vertex| v.1 as i32)
}

/// The triangles of the mesh over `points` in a `width` by `height` field.
pub open spec fn mesh_triangles(ps: Seq<Point>, w: int, h: int) -> Seq<usize> {
    let vs = mesh_vertices(ps, w, h);
    delaunay_of(xs_of(vs), ys_of(vs))
}

/// Triangulates the particles, their ghosts and the corner anchors, rebuilds
/// the buffers from the triangles, and returns how many there are.
pub fn triangulate(
    points: &Vec<Point>,
    width: i64,
    height: i64,
    buffers: &mut TriangulationBuffers,
) -> (r: usize)
    requires
        forall|i: int| 0 <= i < points@.len() ==> (#[trigger] points@[i]).bounded(),
        0 <= width <= MAX_DIMENSION,
        0 <= height <= MAX_DIMENSION,
    ensures
        ({
            let vs = mesh_vertices(points@, width as int, height as int);
            let tris = mesh_triangles(points@, width as int, height as int);
            &&& triangles_ok(tris, vs.len() as int)
            &&& r == tris.len() / 3
            &&& final(buffers).triangle_vertices@ == triangle_buffer(vs, tris, r as int)
            &&& final(buffers).stroke_vertices@ == stroke_buffer(vs, tris, r as int)
            &&& final(buffers).point_vertices@ == point_buffer(points@, points@.len() as int)
        }),
        final(buffers).triangle_vertices@.len() == 18 * r,
        final(buffers).stroke_vertices@.len() == 12 * r,
        final(buffers).point_vertices@.len() == 2 * points@.len(),
{
    let vertices = mesh_points(points, width, height);
    let (xs, ys) = columns(&vertices);
    let tris = delaunay_triangles(&xs, &ys);
    build_buffers(points, &vertices, &tris, buffers);
    tris.len() / 3
}

} // verus!
