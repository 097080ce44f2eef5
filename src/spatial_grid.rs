//! A uniform bucket grid over the simulation rectangle, for radius queries.
use vstd::prelude::*;
use crate::fixed::{abs, clamp, floor_div, sq_dist, UNIT};

verus! {

/// Largest magnitude of a query centre or reach.
pub const QUERY_LIMIT: i64 = 0x100_0000_0000;

/// Cells along an axis of length `extent`: `ceil(extent / cell)`, at least one.
pub open spec fn axis_cells(extent: int, cell: int) -> int {
    let n = if extent <= 0 {
        0
    } else {
        (extent - 1) / cell + 1
    };
    if n < 1 {
        1
    } else {
        n
    }
}

/// Cell size actually used for a requested one: at least one pixel.
pub open spec fn floored_cell(cell_size: int) -> int {
    if cell_size < UNIT {
        UNIT as int
    } else {
        cell_size
    }
}

/// Column (or row) of coordinate `v`: `floor(v / cell)` clamped to `[0, n - 1]`.
pub open spec fn bucket(v: int, cell: int, n: int) -> int {
    clamp(v / cell, 0, n - 1)
}

/// First column (or row) a query over `[c - r, c + r]` scans.
pub open spec fn first_scanned(c: int, r: int, cell: int, n: int) -> int {
    clamp((c - r) / cell, 0, n - 1)
}

/// One past the last column (or row) a query over `[c - r, c + r]` scans.
pub open spec fn end_scanned(c: int, r: int, cell: int, n: int) -> int {
    clamp((c + r) / cell + 1, 1, n)
}

/// Items of the cells `c0 .. c1` of row `row`, in column order.
pub open spec fn row_items(cells: Seq<Seq<usize>>, cols: int, row: int, c0: int, c1: int) -> Seq<
    usize,
>
    decreases c1 - c0,
{
    if c1 <= c0 {
        Seq::empty()
    } else {
        row_items(cells, cols, row, c0, c1 - 1) + cells[row * cols + c1 - 1]
    }
}

/// Items of the cells in rows `r0 .. r1` and columns `c0 .. c1`, row by row.
pub open spec fn block_items(
    cells: Seq<Seq<usize>>,
    cols: int,
    r0: int,
    r1: int,
    c0: int,
    c1: int,
) -> Seq<usize>
    decreases r1 - r0,
{
    if r1 <= r0 {
        Seq::empty()
    } else {
        block_items(cells, cols, r0, r1 - 1, c0, c1) + row_items(cells, cols, r1 - 1, c0, c1)
    }
}

/// Uniform grid of `cols * rows` square cells, each holding particle indices.
pub struct SpatialGrid {
    cells: Vec<Vec<usize>>,
    cell_size: i64,
    cols: usize,
    rows: usize,
    width: i64,
    height: i64,
}

impl SpatialGrid {
    /// Contents of each cell, row-major.
    pub closed spec fn cells(&self) -> Seq<Seq<usize>> {
        self.cells@.map_values(|c: Vec<usize>| c@)
    }

    /// Side of a cell, in sub-pixel units.
    pub closed spec fn cell(&self) -> int {
        self.cell_size as int
    }

    pub closed spec fn extent_x(&self) -> int {
        self.width as int
    }

    pub closed spec fn extent_y(&self) -> int {
        self.height as int
    }

    pub fn cell_size(&self) -> (r: i64)
        ensures
            r == self.cell(),
    {
        self.cell_size
    }

    pub fn width(&self) -> (r: i64)
        ensures
            r == self.extent_x(),
    {
        self.width
    }

    pub fn height(&self) -> (r: i64)
        ensures
            r == self.extent_y(),
    {
        self.height
    }

    pub closed spec fn cols(&self) -> int {
        self.cols as int
    }

    pub closed spec fn rows(&self) -> int {
        self.rows as int
    }

    pub open spec fn wf(&self) -> bool {
        &&& self.cell() >= UNIT
        &&& 0 <= self.extent_x() <= QUERY_LIMIT
        &&& 0 <= self.extent_y() <= QUERY_LIMIT
        &&& self.cols() == axis_cells(self.extent_x(), self.cell())
        &&& self.rows() == axis_cells(self.extent_y(), self.cell())
        &&& self.cells().len() == self.cols() * self.rows()
        &&& self.cols() * self.rows() <= usize::MAX
    }

    /// Index of the cell that holds position `(x, y)`.
    pub open spec fn cell_of(&self, x: int, y: int) -> int {
        bucket(y, self.cell(), self.rows()) * self.cols() + bucket(
            x,
            self.cell(),
            self.cols(),
        )
    }

    /// Indices a query over the square `[cx - r, cx + r] x [cy - r, cy + r]`
    /// gathers: every cell that the square meets, points outside the grid
    /// counted in the border cells they were put in.
    pub open spec fn gathered(&self, cx: int, cy: int, r: int) -> Seq<usize> {
        let c = self.cell();
        block_items(
            self.cells(),
            self.cols(),
            first_scanned(cy, r, c, self.rows()),
            end_scanned(cy, r, c, self.rows()),
            first_scanned(cx, r, c, self.cols()),
            end_scanned(cx, r, c, self.cols()),
        )
    }

    /// The grid a `new` or `resize` with these arguments yields.
    pub open spec fn fresh(&self, width: i64, height: i64, cell_size: i64) -> bool {
        &&& self.wf()
        &&& self.extent_x() == width
        &&& self.extent_y() == height
        &&& self.cell() == floored_cell(cell_size as int)
        &&& forall|i: int| 0 <= i < self.cells().len() ==> (#[trigger] self.cells()[i]).len() == 0
    }

    /// An empty grid over a `width` by `height` rectangle with cells of side
    /// `cell_size`, at least one pixel.
    pub fn new(width: i64, height: i64, cell_size: i64) -> (r: SpatialGrid)
        requires
            0 <= width <= QUERY_LIMIT,
            0 <= height <= QUERY_LIMIT,
            axis_cells(width as int, floored_cell(cell_size as int)) * axis_cells(
                height as int,
                floored_cell(cell_size as int),
            ) <= usize::MAX,
        ensures
            r.fresh(width, height, cell_size),
    {
        let mut g = SpatialGrid {
            cells: Vec::new(),
            cell_size: UNIT,
            cols: 1,
            rows: 1,
            width: 0,
            height: 0,
        };
        g.resize(width, height, cell_size);
        g
    }

    /// Empties every cell, keeping the grid's shape.
    pub fn clear(&mut self)
        ensures
            final(self).cells().len() == old(self).cells().len(),
            forall|i: int|
                0 <= i < final(self).cells().len() ==> (#[trigger] final(self).cells()[i]).len()
                    == 0,
            final(self).cell() == old(self).cell(),
            final(self).cols() == old(self).cols(),
            final(self).rows() == old(self).rows(),
            final(self).extent_x() == old(self).extent_x(),
            final(self).extent_y() == old(self).extent_y(),
    {
        let n = self.cells.len();
        let mut i: usize = 0;
        while i < n
            invariant
                n == self.cells@.len(),
                i <= n,
                self.cell_size == old(self).cell_size,
                self.cols == old(self).cols,
                self.rows == old(self).rows,
                self.width == old(self).width,
                self.height == old(self).height,
                forall|j: int| 0 <= j < i ==> (#[trigger] self.cells@[j])@.len() == 0,
            decreases n - i,
        {
            self.cells[i].clear();
            i += 1;
        }
    }

    /// Reshapes the grid for a `width` by `height` rectangle and cells of
    /// side `cell_size` (at least one pixel), and empties it.
    pub fn resize(&mut self, width: i64, height: i64, cell_size: i64)
        requires
            0 <= width <= QUERY_LIMIT,
            0 <= height <= QUERY_LIMIT,
            axis_cells(width as int, floored_cell(cell_size as int)) * axis_cells(
                height as int,
                floored_cell(cell_size as int),
            ) <= usize::MAX,
        ensures
            final(self).fresh(width, height, cell_size),
    {
        let c = if cell_size < UNIT { UNIT } else { cell_size };
        proof {
            let a = axis_cells(width as int, c as int);
            let b = axis_cells(height as int, c as int);
            assert(a <= a * b && b <= a * b) by (nonlinear_arith)
                requires
                    a >= 1,
                    b >= 1,
            ;
        }
        let cols = axis_count(width, c);
        let rows = axis_count(height, c);
        self.width = width;
        self.height = height;
        self.cell_size = c;
        self.cols = cols;
        self.rows = rows;
        let n = cols * rows;
        self.cells.truncate(n);
        while self.cells.len() < n
            invariant
                self.cells@.len() <= n,
                self.width == width,
                self.height == height,
                self.cell_size == c,
                self.cols == cols,
                self.rows == rows,
            decreases n - self.cells@.len(),
        {
            self.cells.push(Vec::new());
        }
        self.clear();
        assert(self.cells().len() == n);
    }

    /// Index of the cell that holds `(x, y)`.
    fn cell_index(&self, x: i64, y: i64) -> (r: usize)
        requires
            self.wf(),
            abs(x as int) <= QUERY_LIMIT,
            abs(y as int) <= QUERY_LIMIT,
        ensures
            r == self.cell_of(x as int, y as int),
            r < self.cells().len(),
    {
        let col = clamp_index(floor_div(x, self.cell_size), self.cols);
        let row = clamp_index(floor_div(y, self.cell_size), self.rows);
        proof {
            assert(row * self.cols() + col < self.cols() * self.rows()) by (nonlinear_arith)
                requires
                    0 <= row < self.rows(),
                    0 <= col < self.cols(),
            ;
        }
        row * self.cols + col
    }

    /// Puts particle `point_index` in the cell that holds `(x, y)`.
    pub fn insert(&mut self, point_index: usize, x: i64, y: i64)
        requires
            old(self).wf(),
            abs(x as int) <= QUERY_LIMIT,
            abs(y as int) <= QUERY_LIMIT,
        ensures
            final(self).wf(),
            final(self).cell() == old(self).cell(),
            final(self).extent_x() == old(self).extent_x(),
            final(self).extent_y() == old(self).extent_y(),
            final(self).cols() == old(self).cols(),
            final(self).rows() == old(self).rows(),
            final(self).cells() == old(self).cells().update(
                old(self).cell_of(x as int, y as int),
                old(self).cells()[old(self).cell_of(x as int, y as int)].push(point_index),
            ),
    {
        let idx = self.cell_index(x, y);
        self.cells[idx].push(point_index);
        assert(self.cells() =~= old(self).cells().update(
            idx as int,
            old(self).cells()[idx as int].push(point_index),
        ));
    }

    /// Indices in every cell that the square `[cx - r, cx + r] x
    /// [cy - r, cy + r]` meets: a superset of the particles within `r` of
    /// `(cx, cy)`, to be filtered by exact distance.
    pub fn query_radius(&self, cx: i64, cy: i64, radius: i64) -> (out: Vec<usize>)
        requires
            self.wf(),
            abs(cx as int) <= QUERY_LIMIT,
            abs(cy as int) <= QUERY_LIMIT,
            0 <= radius <= QUERY_LIMIT,
        ensures
            out@ == self.gathered(cx as int, cy as int, radius as int),
    {
        let c = self.cell_size;
        let c0 = clamp_index(floor_div(cx - radius, c), self.cols);
        let c1 = clamp_end(floor_div(cx + radius, c), self.cols);
        let r0 = clamp_index(floor_div(cy - radius, c), self.rows);
        let r1 = clamp_end(floor_div(cy + radius, c), self.rows);
        proof {
            let a = (cx - radius) as int;
            let b = (cx + radius) as int;
            let ci = c as int;
            assert(a / ci <= b / ci) by (nonlinear_arith)
                requires
                    a <= b,
                    ci >= 1,
            ;
            let a2 = (cy - radius) as int;
            let b2 = (cy + radius) as int;
            assert(a2 / ci <= b2 / ci) by (nonlinear_arith)
                requires
                    a2 <= b2,
                    ci >= 1,
            ;
        }
        let ghost cells = self.cells();
        let ghost cols = self.cols();
        let mut out: Vec<usize> = Vec::new();
        let mut row = r0;
        while row < r1
            invariant
                self.wf(),
                cells == self.cells(),
                cols == self.cols(),
                r0 <= row <= r1 <= self.rows(),
                c0 < c1 <= self.cols(),
                out@ == block_items(cells, cols, r0 as int, row as int, c0 as int, c1 as int),
            decreases r1 - row,
        {
            let mut col = c0;
            while col < c1
                invariant
                    self.wf(),
                    cells == self.cells(),
                    cols == self.cols(),
                    r0 <= row < r1 <= self.rows(),
                    c0 <= col <= c1 <= self.cols(),
                    out@ == block_items(cells, cols, r0 as int, row as int, c0 as int, c1 as int)
                        + row_items(cells, cols, row as int, c0 as int, col as int),
                decreases c1 - col,
            {
                proof {
                    assert(row * cols + col < cols * self.rows()) by (nonlinear_arith)
                        requires
                            0 <= row < self.rows(),
                            0 <= col < cols,
                    ;
                }
                let idx = row * self.cols + col;
                let cell = &self.cells[idx];
                let ghost before = out@;
                let mut k: usize = 0;
                while k < cell.len()
                    invariant
                        k <= cell@.len(),
                        out@ == before + cell@.subrange(0, k as int),
                    decreases cell@.len() - k,
                {
                    out.push(cell[k]);
                    k += 1;
                    assert(out@ =~= before + cell@.subrange(0, k as int));
                }
                assert(cell@.subrange(0, k as int) =~= cell@);
                assert(cells[idx as int] == cell@);
                col += 1;
                assert(out@ =~= block_items(cells, cols, r0 as int, row as int, c0 as int, c1 as int)
                    + row_items(cells, cols, row as int, c0 as int, col as int));
            }
            row += 1;
        }
        out
    }
}

proof fn lemma_concat_contains(a: Seq<usize>, b: Seq<usize>, k: usize)
    requires
        a.contains(k) || b.contains(k),
    ensures
        (a + b).contains(k),
{
    if a.contains(k) {
        let j = choose|j: int| 0 <= j < a.len() && a[j] == k;
        assert((a + b)[j] == k);
    } else {
        let j = choose|j: int| 0 <= j < b.len() && b[j] == k;
        assert((a + b)[a.len() + j] == k);
    }
}

proof fn lemma_row_contains(
    cells: Seq<Seq<usize>>,
    cols: int,
    row: int,
    c0: int,
    c1: int,
    col: int,
    k: usize,
)
    requires
        c0 <= col < c1,
        cells[row * cols + col].contains(k),
    ensures
        row_items(cells, cols, row, c0, c1).contains(k),
    decreases c1 - c0,
{
    if col < c1 - 1 {
        lemma_row_contains(cells, cols, row, c0, c1 - 1, col, k);
    }
    lemma_concat_contains(row_items(cells, cols, row, c0, c1 - 1), cells[row * cols + c1 - 1], k);
}

proof fn lemma_block_contains(
    cells: Seq<Seq<usize>>,
    cols: int,
    r0: int,
    r1: int,
    c0: int,
    c1: int,
    row: int,
    col: int,
    k: usize,
)
    requires
        r0 <= row < r1,
        c0 <= col < c1,
        cells[row * cols + col].contains(k),
    ensures
        block_items(cells, cols, r0, r1, c0, c1).contains(k),
    decreases r1 - r0,
{
    if row < r1 - 1 {
        lemma_block_contains(cells, cols, r0, r1 - 1, c0, c1, row, col, k);
    } else {
        lemma_row_contains(cells, cols, row, c0, c1, col, k);
    }
    lemma_concat_contains(
        block_items(cells, cols, r0, r1 - 1, c0, c1),
        row_items(cells, cols, r1 - 1, c0, c1),
        k,
    );
}

proof fn lemma_bucket_scanned(v: int, c: int, r: int, cell: int, n: int)
    requires
        c - r <= v <= c + r,
        cell >= 1,
        n >= 1,
    ensures
        first_scanned(c, r, cell, n) <= bucket(v, cell, n) < end_scanned(c, r, cell, n),
{
    assert((c - r) / cell <= v / cell <= (c + r) / cell) by (nonlinear_arith)
        requires
            c - r <= v <= c + r,
            cell >= 1,
    ;
}

proof fn lemma_row_member(
    cells: Seq<Seq<usize>>,
    cols: int,
    row: int,
    c0: int,
    c1: int,
    k: usize,
) -> (col: int)
    requires
        row_items(cells, cols, row, c0, c1).contains(k),
    ensures
        c0 <= col < c1,
        cells[row * cols + col].contains(k),
    decreases c1 - c0,
{
    let a = row_items(cells, cols, row, c0, c1 - 1);
    let b = cells[row * cols + c1 - 1];
    let j = choose|j: int| 0 <= j < (a + b).len() && (a + b)[j] == k;
    if j < a.len() {
        assert(a[j] == k);
        lemma_row_member(cells, cols, row, c0, c1 - 1, k)
    } else {
        assert(b[j - a.len()] == k);
        c1 - 1
    }
}

proof fn lemma_block_member(
    cells: Seq<Seq<usize>>,
    cols: int,
    r0: int,
    r1: int,
    c0: int,
    c1: int,
    k: usize,
) -> (rc: (int, int))
    requires
        block_items(cells, cols, r0, r1, c0, c1).contains(k),
    ensures
        r0 <= rc.0 < r1,
        c0 <= rc.1 < c1,
        cells[rc.0 * cols + rc.1].contains(k),
    decreases r1 - r0,
{
    let a = block_items(cells, cols, r0, r1 - 1, c0, c1);
    let b = row_items(cells, cols, r1 - 1, c0, c1);
    let j = choose|j: int| 0 <= j < (a + b).len() && (a + b)[j] == k;
    if j < a.len() {
        assert(a[j] == k);
        lemma_block_member(cells, cols, r0, r1 - 1, c0, c1, k)
    } else {
        assert(b[j - a.len()] == k);
        (r1 - 1, lemma_row_member(cells, cols, r1 - 1, c0, c1, k))
    }
}

proof fn lemma_concat_distinct(a: Seq<usize>, b: Seq<usize>)
    requires
        a.no_duplicates(),
        b.no_duplicates(),
        forall|k: usize| a.contains(k) ==> !b.contains(k),
    ensures
        (a + b).no_duplicates(),
{
    let c = a + b;
    assert forall|i: int, j: int| 0 <= i < c.len() && 0 <= j < c.len() && i != j implies c[i]
        != c[j] by {
        if i < a.len() && j >= a.len() {
            assert(a.contains(c[i]));
            assert(b[j - a.len()] == c[j]);
        } else if j < a.len() && i >= a.len() {
            assert(a.contains(c[j]));
            assert(b[i - a.len()] == c[i]);
        } else if i >= a.len() && j >= a.len() {
            assert(c[i] == b[i - a.len()] && c[j] == b[j - a.len()]);
        }
    }
}

proof fn lemma_row_distinct(
    cells: Seq<Seq<usize>>,
    cols: int,
    row: int,
    c0: int,
    c1: int,
    owner: spec_fn(usize) -> int,
)
    requires
        forall|c: int| 0 <= c < cells.len() ==> (#[trigger] cells[c]).no_duplicates(),
        forall|c: int, j: int|
            0 <= c < cells.len() && 0 <= j < cells[c].len() ==> owner(#[trigger] cells[c][j]) == c,
        0 <= c0,
        c1 <= cols,
        0 <= row,
        (row + 1) * cols <= cells.len(),
    ensures
        row_items(cells, cols, row, c0, c1).no_duplicates(),
    decreases c1 - c0,
{
    if c1 > c0 {
        lemma_row_distinct(cells, cols, row, c0, c1 - 1, owner);
        let a = row_items(cells, cols, row, c0, c1 - 1);
        let last = row * cols + c1 - 1;
        assert(0 <= last < cells.len()) by (nonlinear_arith)
            requires
                0 <= row,
                c0 < c1 <= cols,
                0 <= c0,
                (row + 1) * cols <= cells.len(),
                last == row * cols + c1 - 1,
        ;
        let b = cells[last];
        assert forall|k: usize| a.contains(k) implies !b.contains(k) by {
            let col = lemma_row_member(cells, cols, row, c0, c1 - 1, k);
            let here = row * cols + col;
            assert(0 <= here < last);
            let j = choose|j: int| 0 <= j < cells[here].len() && cells[here][j] == k;
            assert(owner(cells[here][j]) == here);
            if b.contains(k) {
                let j2 = choose|j: int| 0 <= j < b.len() && b[j] == k;
                assert(owner(cells[last][j2]) == last);
            }
        }
        lemma_concat_distinct(a, b);
    }
}

proof fn lemma_block_distinct(
    cells: Seq<Seq<usize>>,
    cols: int,
    r0: int,
    r1: int,
    c0: int,
    c1: int,
    owner: spec_fn(usize) -> int,
)
    requires
        forall|c: int| 0 <= c < cells.len() ==> (#[trigger] cells[c]).no_duplicates(),
        forall|c: int, j: int|
            0 <= c < cells.len() && 0 <= j < cells[c].len() ==> owner(#[trigger] cells[c][j]) == c,
        0 <= c0,
        c1 <= cols,
        cols >= 1,
        0 <= r0,
        r1 * cols <= cells.len(),
    ensures
        block_items(cells, cols, r0, r1, c0, c1).no_duplicates(),
    decreases r1 - r0,
{
    if r1 > r0 {
        assert((r1 - 1) * cols <= r1 * cols) by (nonlinear_arith)
            requires
                cols >= 0,
        ;
        lemma_block_distinct(cells, cols, r0, r1 - 1, c0, c1, owner);
        lemma_row_distinct(cells, cols, r1 - 1, c0, c1, owner);
        let a = block_items(cells, cols, r0, r1 - 1, c0, c1);
        let b = row_items(cells, cols, r1 - 1, c0, c1);
        assert forall|k: usize| a.contains(k) implies !b.contains(k) by {
            let (row, col) = lemma_block_member(cells, cols, r0, r1 - 1, c0, c1, k);
            let here = row * cols + col;
            assert(0 <= here < (r1 - 1) * cols) by (nonlinear_arith)
                requires
                    r0 <= row < r1 - 1,
                    0 <= r0,
                    0 <= c0 <= col < c1 <= cols,
                    here == row * cols + col,
            ;
            let j = choose|j: int| 0 <= j < cells[here].len() && cells[here][j] == k;
            assert(owner(cells[here][j]) == here);
            if b.contains(k) {
                let col2 = lemma_row_member(cells, cols, r1 - 1, c0, c1, k);
                let there = (r1 - 1) * cols + col2;
                assert((r1 - 1) * cols <= there < r1 * cols) by (nonlinear_arith)
                    requires
                        0 <= c0 <= col2 < c1 <= cols,
                        there == (r1 - 1) * cols + col2,
                ;
                let j2 = choose|j: int| 0 <= j < cells[there].len() && cells[there][j] == k;
                assert(owner(cells[there][j2]) == there);
            }
        }
        lemma_concat_distinct(a, b);
    }
}

/// A query never gathers an index twice when every cell is free of repeats
/// and each index is held by one cell only (`owner` names that cell).
pub proof fn lemma_gathered_distinct(
    g: SpatialGrid,
    cx: int,
    cy: int,
    r: int,
    owner: spec_fn(usize) -> int,
)
    requires
        g.wf(),
        forall|c: int| 0 <= c < g.cells().len() ==> (#[trigger] g.cells()[c]).no_duplicates(),
        forall|c: int, j: int|
            0 <= c < g.cells().len() && 0 <= j < g.cells()[c].len() ==> owner(
                #[trigger] g.cells()[c][j],
            ) == c,
    ensures
        g.gathered(cx, cy, r).no_duplicates(),
{
    let c = g.cell();
    let r1 = end_scanned(cy, r, c, g.rows());
    assert(r1 * g.cols() <= g.cells().len()) by (nonlinear_arith)
        requires
            r1 <= g.rows(),
            g.cols() >= 0,
            g.cells().len() == g.cols() * g.rows(),
    ;
    lemma_block_distinct(
        g.cells(),
        g.cols(),
        first_scanned(cy, r, c, g.rows()),
        r1,
        first_scanned(cx, r, c, g.cols()),
        end_scanned(cx, r, c, g.cols()),
        owner,
    );
}

/// What a query gathers comes from the grid's cells: each index it returns
/// is held by some cell.
pub proof fn lemma_gathered_from_cells(g: SpatialGrid, cx: int, cy: int, r: int, k: usize)
    requires
        g.wf(),
        g.gathered(cx, cy, r).contains(k),
    ensures
        exists|c: int| 0 <= c < g.cells().len() && (#[trigger] g.cells()[c]).contains(k),
{
    let c = g.cell();
    let (row, col) = lemma_block_member(
        g.cells(),
        g.cols(),
        first_scanned(cy, r, c, g.rows()),
        end_scanned(cy, r, c, g.rows()),
        first_scanned(cx, r, c, g.cols()),
        end_scanned(cx, r, c, g.cols()),
        k,
    );
    assert(0 <= row * g.cols() + col < g.cols() * g.rows()) by (nonlinear_arith)
        requires
            0 <= row < g.rows(),
            0 <= col < g.cols(),
    ;
    assert(g.cells()[row * g.cols() + col].contains(k));
}

/// No false negatives: an index put in the grid at `(x, y)`, within `r` of
/// `(cx, cy)`, is among the indices that a query there gathers.
pub proof fn lemma_query_finds_near(
    g: &SpatialGrid,
    i: usize,
    x: int,
    y: int,
    cx: int,
    cy: int,
    r: int,
)
    requires
        g.wf(),
        g.cells()[g.cell_of(x, y)].contains(i),
        0 <= r,
        sq_dist(x, y, cx, cy) <= r * r,
    ensures
        g.gathered(cx, cy, r).contains(i),
{
    assert(cx - r <= x <= cx + r && cy - r <= y <= cy + r) by (nonlinear_arith)
        requires
            (x - cx) * (x - cx) + (y - cy) * (y - cy) <= r * r,
            0 <= r,
    ;
    lemma_bucket_scanned(x, cx, r, g.cell(), g.cols());
    lemma_bucket_scanned(y, cy, r, g.cell(), g.rows());
    lemma_block_contains(
        g.cells(),
        g.cols(),
        first_scanned(cy, r, g.cell(), g.rows()),
        end_scanned(cy, r, g.cell(), g.rows()),
        first_scanned(cx, r, g.cell(), g.cols()),
        end_scanned(cx, r, g.cell(), g.cols()),
        bucket(y, g.cell(), g.rows()),
        bucket(x, g.cell(), g.cols()),
        i,
    );
}

fn axis_count(extent: i64, cell: i64) -> (r: usize)
    requires
        0 <= extent <= QUERY_LIMIT,
        cell >= UNIT,
        axis_cells(extent as int, cell as int) <= usize::MAX,
    ensures
        r == axis_cells(extent as int, cell as int),
{
    let n = if extent <= 0 { 0 } else { (extent - 1) / cell + 1 };
    proof {
        if extent > 0 {
            let e = extent as int;
            let c = cell as int;
            assert(0 <= (e - 1) / c <= e) by (nonlinear_arith)
                requires
                    e >= 1,
                    c >= 1000,
            ;
        }
    }
    if n < 1 {
        1
    } else {
        n as usize
    }
}

fn clamp_index(v: i64, n: usize) -> (r: usize)
    requires
        n >= 1,
    ensures
        r == clamp(v as int, 0, n - 1),
{
    if v < 0 {
        0
    } else if v as u64 >= n as u64 {
        n - 1
    } else {
        v as usize
    }
}

fn clamp_end(v: i64, n: usize) -> (r: usize)
    requires
        n >= 1,
        v < i64::MAX,
    ensures
        r == clamp(v + 1, 1, n as int),
{
    if v < 0 {
        1
    } else if v as u64 >= n as u64 {
        n
    } else {
        (v + 1) as usize
    }
}

} // verus!
