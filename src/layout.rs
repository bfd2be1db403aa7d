use vstd::arithmetic::div_mod::lemma_fundamental_div_mod;
use vstd::prelude::*;

verus! {

/// An axis-aligned rectangle of terminal cells.
#[derive(Clone, Copy, PartialEq, Eq, Structural, Debug)]
pub struct Rect {
    pub x: u16,
    pub y: u16,
    pub width: u16,
    pub height: u16,
}

impl Rect {
    pub fn new(x: u16, y: u16, width: u16, height: u16) -> (r: Rect)
        ensures
            r == (Rect { x, y, width, height }),
    {
        Rect { x, y, width, height }
    }
}

/// The column just past the right edge.
pub open spec fn right_edge(r: Rect) -> int {
    r.x + r.width
}

/// The row just past the bottom edge.
pub open spec fn bottom_edge(r: Rect) -> int {
    r.y + r.height
}

/// The rectangle fits in the coordinate space of a terminal.
pub open spec fn fits(r: Rect) -> bool {
    right_edge(r) <= u16::MAX && bottom_edge(r) <= u16::MAX
}

/// `inner` lies inside `outer`.
pub open spec fn within(inner: Rect, outer: Rect) -> bool {
    &&& outer.x <= inner.x
    &&& right_edge(inner) <= right_edge(outer)
    &&& outer.y <= inner.y
    &&& bottom_edge(inner) <= bottom_edge(outer)
}

/// `a` and `b` share no cell.
pub open spec fn disjoint(a: Rect, b: Rect) -> bool {
    ||| right_edge(a) <= b.x
    ||| right_edge(b) <= a.x
    ||| bottom_edge(a) <= b.y
    ||| bottom_edge(b) <= a.y
}

/// The cell (`px`, `py`) lies in `r`.
pub open spec fn contains_cell(r: Rect, px: int, py: int) -> bool {
    r.x <= px < right_edge(r) && r.y <= py < bottom_edge(r)
}

/// The grid shape (rows, columns) used for `count` panes.
pub open spec fn grid_shape(count: int) -> (int, int) {
    if count <= 1 {
        (1, 1)
    } else if count == 2 {
        (1, 2)
    } else if count <= 4 {
        (2, 2)
    } else if count <= 6 {
        (2, 3)
    } else {
        (3, 3)
    }
}

/// The grid row that holds pane `i` out of `count`: the last row takes
/// whatever the rows above it leave over.
pub open spec fn row_of(count: int, i: int) -> int {
    let (rows, cols) = grid_shape(count);
    if i / cols < rows - 1 {
        i / cols
    } else {
        rows - 1
    }
}

/// Row and column count of the grid for `count` panes.
pub fn grid_dimensions(count: usize) -> (r: (usize, usize))
    ensures
        r.0 == grid_shape(count as int).0,
        r.1 == grid_shape(count as int).1,
{
    if count <= 1 {
        (1, 1)
    } else if count == 2 {
        (1, 2)
    } else if count <= 4 {
        (2, 2)
    } else if count <= 6 {
        (2, 3)
    } else {
        (3, 3)
    }
}

/// The direction in which a split lays out its parts.
pub enum Axis {
    /// Parts stacked top to bottom.
    Vertical,
    /// Parts side by side, left to right.
    Horizontal,
}

/// Where `r` starts along `axis`.
pub open spec fn start_on(r: Rect, axis: Axis) -> int {
    match axis {
        Axis::Vertical => r.y as int,
        Axis::Horizontal => r.x as int,
    }
}

/// Where `r` ends along `axis`.
pub open spec fn end_on(r: Rect, axis: Axis) -> int {
    match axis {
        Axis::Vertical => bottom_edge(r),
        Axis::Horizontal => right_edge(r),
    }
}

/// The extent of `r` along `axis`.
pub open spec fn extent_on(r: Rect, axis: Axis) -> int {
    match axis {
        Axis::Vertical => r.height as int,
        Axis::Horizontal => r.width as int,
    }
}

/// What ratatui's `Layout::split` returns for `area` cut into `n` equal
/// ratios, stacked when `vertical`, side by side otherwise. The solver's
/// pivot order varies from call to call, so only where rounding cannot
/// depend on it, with at most three parts, is the result a function of these
/// values alone; `split_evenly` applies the name there only.
pub uninterp spec fn ratio_split(area: Rect, n: nat, vertical: bool) -> Seq<Rect>;

/// `parts` cover `lo` to `hi` along `axis` in order, each starting where
/// the one before it ends.
pub open spec fn tiles(parts: Seq<Rect>, lo: int, hi: int, axis: Axis) -> bool {
    &&& parts.len() > 0
    &&& start_on(parts[0], axis) == lo
    &&& end_on(parts.last(), axis) == hi
    &&& forall|i: int|
        0 <= i < parts.len() - 1 ==> #[trigger] end_on(parts[i], axis) == start_on(parts[i + 1], axis)
}

/// Relies on ratatui's `Layout::split` with `n` parts `Constraint::Ratio(1, n)`.
/// Its solver requires every boundary to lie inside the area, each part to
/// keep the area's extent across the split axis, and one part per
/// constraint. The spacer before the first part is held empty at strength
/// REQUIRED - 1 and those between parts at REQUIRED / 10, above the ratio
/// constraints (STRONG / 10), which all hold together at sizes of 1/n; so
/// the parts abut and run from one edge to the other, part `k` ending at
/// `k / n` of the extent. With at most three parts the boundaries fall on
/// whole, half or third cells and round apart; where `n` divides the extent
/// they fall on whole cells, so every part gets the extent over `n`. With
/// more parts a boundary can land on half a hundredth of a cell, where the
/// solver's floating-point path decides the rounding, so the result is
/// named only for up to three parts.
#[verifier::external_body]
fn split_evenly(area: Rect, n: usize, axis: Axis) -> (r: Vec<Rect>)
    requires
        0 < n <= u32::MAX,
        fits(area),
    ensures
        r.len() == n,
        forall|i: int| 0 <= i < n ==> #[trigger] within(r[i], area),
        axis is Vertical ==> forall|i: int|
            0 <= i < n ==> (#[trigger] r[i]).x == area.x && r[i].width == area.width,
        axis is Horizontal ==> forall|i: int|
            0 <= i < n ==> (#[trigger] r[i]).y == area.y && r[i].height == area.height,
        n <= 3 ==> tiles(r@, start_on(area, axis), end_on(area, axis), axis),
        extent_on(area, axis) % (n as int) == 0 ==> forall|i: int|
            0 <= i < n ==> #[trigger] extent_on(r[i], axis) == extent_on(area, axis) / (n as int),
        n <= 3 ==> r@ == ratio_split(area, n as nat, axis is Vertical),
{
    let direction = match axis {
        Axis::Vertical => ratatui::layout::Direction::Vertical,
        Axis::Horizontal => ratatui::layout::Direction::Horizontal,
    };
    let constraints = std::iter::repeat(ratatui::layout::Constraint::Ratio(1, n as u32)).take(n);
    let outer = ratatui::layout::Rect { x: area.x, y: area.y, width: area.width, height: area.height };
    let parts = ratatui::layout::Layout::default().direction(direction).constraints(constraints).split(outer);
    parts.iter().map(|p| Rect { x: p.x, y: p.y, width: p.width, height: p.height }).collect()
}

proof fn lemma_tiles_ordered(parts: Seq<Rect>, lo: int, hi: int, axis: Axis, i: int, j: int)
    requires
        tiles(parts, lo, hi, axis),
        0 <= i < j < parts.len(),
    ensures
        end_on(parts[i], axis) <= start_on(parts[j], axis),
    decreases j - i,
{
    assert(end_on(parts[j - 1], axis) == start_on(parts[j], axis));
    if j > i + 1 {
        lemma_tiles_ordered(parts, lo, hi, axis, i, j - 1);
    }
}

proof fn lemma_tiles_cover_from(parts: Seq<Rect>, lo: int, hi: int, axis: Axis, c: int, k: int)
    requires
        tiles(parts, lo, hi, axis),
        0 <= k < parts.len(),
        start_on(parts[k], axis) <= c < hi,
    ensures
        exists|i: int| 0 <= i < parts.len() && start_on(parts[i], axis) <= c < #[trigger] end_on(parts[i], axis),
    decreases parts.len() - k,
{
    if c < end_on(parts[k], axis) {
        assert(start_on(parts[k], axis) <= c < end_on(parts[k], axis));
    } else {
        assert(end_on(parts[k], axis) == start_on(parts[k + 1], axis));
        lemma_tiles_cover_from(parts, lo, hi, axis, c, k + 1);
    }
}

proof fn lemma_tiles_cover(parts: Seq<Rect>, lo: int, hi: int, axis: Axis, c: int)
    requires
        tiles(parts, lo, hi, axis),
        lo <= c < hi,
    ensures
        exists|i: int| 0 <= i < parts.len() && start_on(parts[i], axis) <= c < #[trigger] end_on(parts[i], axis),
{
    lemma_tiles_cover_from(parts, lo, hi, axis, c, 0);
}

/// Panes that the largest grid, 3 by 3, holds one to a cell.
pub const GRID_CELLS: usize = 9;

/// The number of panes in grid row `r`: a full row, except the last row,
/// which takes the panes left over.
pub open spec fn row_items(count: int, r: int) -> int {
    let (rows, cols) = grid_shape(count);
    if r == rows - 1 {
        count - r * cols
    } else {
        cols
    }
}

/// The cells of the first `r` grid rows, in pane order: `area` split into
/// equal bands, one per row, each band split into equal cells, one per pane
/// of its row.
pub open spec fn layout_rows(area: Rect, count: int, r: nat) -> Seq<Rect>
    decreases r,
{
    if r == 0 {
        seq![]
    } else {
        let bands = ratio_split(area, grid_shape(count).0 as nat, true);
        layout_rows(area, count, (r - 1) as nat) + ratio_split(
            bands[r - 1],
            row_items(count, r - 1) as nat,
            false,
        )
    }
}

/// The cells of `count` panes laid out in `area`.
pub open spec fn pane_areas_spec(area: Rect, count: int) -> Seq<Rect> {
    if count <= 0 {
        seq![]
    } else {
        layout_rows(area, count, grid_shape(count).0 as nat)
    }
}

proof fn lemma_grid_fits(count: int, r: int)
    requires
        count >= 1,
        0 <= r < grid_shape(count).0,
    ensures
        grid_shape(count).0 <= 3,
        grid_shape(count).1 <= 3,
        r * grid_shape(count).1 < count,
        r < grid_shape(count).0 - 1 ==> (r + 1) * grid_shape(count).1 < count,
        r < grid_shape(count).0 - 1 ==> (r + 1) * grid_shape(count).1 == r * grid_shape(count).1
            + grid_shape(count).1,
        count <= GRID_CELLS && r == grid_shape(count).0 - 1 ==> count - r * grid_shape(count).1 <= 3,
{
    let (rows, cols) = grid_shape(count);
    if cols == 1 {
    } else if cols == 2 {
        assert(r * 2 == r + r);
        assert((r + 1) * 2 == r + r + 2);
    } else {
        assert(r * 3 == r + r + r);
        assert((r + 1) * 3 == r + r + r + 3);
    }
}

proof fn lemma_row_of(count: int, r: int, k: int)
    requires
        count >= 1,
        0 <= r < grid_shape(count).0,
        r * grid_shape(count).1 <= k < count,
        r < grid_shape(count).0 - 1 ==> k < (r + 1) * grid_shape(count).1,
    ensures
        row_of(count, k) == r,
{
    let (rows, cols) = grid_shape(count);
    if cols == 1 {
        assert(k / cols == k);
    } else if cols == 2 {
        assert(r * 2 <= k ==> k / 2 >= r) by (nonlinear_arith);
        assert(k < (r + 1) * 2 ==> k / 2 <= r) by (nonlinear_arith);
    } else {
        assert(r * 3 <= k ==> k / 3 >= r) by (nonlinear_arith);
        assert(k < (r + 1) * 3 ==> k / 3 <= r) by (nonlinear_arith);
    }
}

/// Appending the cells of grid row `r`, which tile their band from edge to
/// edge, keeps each row of `areas` abutting from the area's left edge to
/// its right edge.
proof fn lemma_row_abuts(
    area: Rect,
    c: int,
    r: int,
    base: int,
    prefix: Seq<Rect>,
    cells: Seq<Rect>,
    band: Rect,
    areas: Seq<Rect>,
)
    requires
        tiles(cells, band.x as int, right_edge(band), Axis::Horizontal),
        band.x == area.x,
        band.width == area.width,
        prefix.len() == base,
        areas == prefix + cells,
        forall|q: int| 0 <= q < base ==> #[trigger] row_of(c, q) < r,
        forall|q: int| base <= q < base + cells.len() ==> #[trigger] row_of(c, q) == r,
        forall|k: int| 0 <= k < base && (k == 0 || row_of(c, k - 1) < row_of(c, k))
            ==> (#[trigger] prefix[k]).x == area.x,
        forall|k: int| 0 <= k < base - 1 && row_of(c, k) == row_of(c, k + 1)
            ==> #[trigger] right_edge(prefix[k]) == prefix[k + 1].x,
        forall|k: int| 0 <= k < base && (k == base - 1 || row_of(c, k) < row_of(c, k + 1))
            ==> #[trigger] right_edge(prefix[k]) == right_edge(area),
    ensures
        forall|k: int| 0 <= k < areas.len() && (k == 0 || row_of(c, k - 1) < row_of(c, k))
            ==> (#[trigger] areas[k]).x == area.x,
        forall|k: int| 0 <= k < areas.len() - 1 && row_of(c, k) == row_of(c, k + 1)
            ==> #[trigger] right_edge(areas[k]) == areas[k + 1].x,
        forall|k: int| 0 <= k < areas.len() && (k == areas.len() - 1 || row_of(c, k) < row_of(c, k + 1))
            ==> #[trigger] right_edge(areas[k]) == right_edge(area),
{
    let idx = areas.len() as int;
    assert forall|k: int| 0 <= k < idx && (k == 0 || row_of(c, k - 1) < row_of(c, k))
        implies (#[trigger] areas[k]).x == area.x by {
        if k > base {
            assert(row_of(c, k - 1) == r && row_of(c, k) == r);
        } else if k == base {
            assert(areas[k] == cells[0]);
            assert(start_on(cells[0], Axis::Horizontal) == band.x);
        } else {
            assert(areas[k] == prefix[k]);
        }
    }
    assert forall|k: int| 0 <= k < idx - 1 && row_of(c, k) == row_of(c, k + 1)
        implies #[trigger] right_edge(areas[k]) == areas[k + 1].x by {
        if k >= base {
            assert(areas[k] == cells[k - base]);
            assert(areas[k + 1] == cells[k + 1 - base]);
            assert(end_on(cells[k - base], Axis::Horizontal) == start_on(cells[k - base + 1], Axis::Horizontal));
        } else if k == base - 1 {
            assert(row_of(c, k) < r && row_of(c, k + 1) == r);
        } else {
            assert(areas[k] == prefix[k]);
            assert(areas[k + 1] == prefix[k + 1]);
        }
    }
    assert forall|k: int| 0 <= k < idx && (k == idx - 1 || row_of(c, k) < row_of(c, k + 1))
        implies #[trigger] right_edge(areas[k]) == right_edge(area) by {
        if k >= base {
            if k < idx - 1 {
                assert(row_of(c, k) == r && row_of(c, k + 1) == r);
            }
            assert(areas[k] == cells[k - base]);
            assert(cells.last() == cells[cells.len() - 1]);
        } else {
            assert(areas[k] == prefix[k]);
            if k == base - 1 {
                assert(row_of(c, k + 1) == r);
            }
        }
    }
}

/// Appending the cells of grid row `r`, left to right, keeps the cells of
/// each row of `areas` in order.
proof fn lemma_row_ordered(c: int, r: int, base: int, prefix: Seq<Rect>, cells: Seq<Rect>, band: Rect, areas: Seq<Rect>)
    requires
        tiles(cells, band.x as int, right_edge(band), Axis::Horizontal),
        prefix.len() == base,
        areas == prefix + cells,
        forall|q: int| 0 <= q < base ==> #[trigger] row_of(c, q) < r,
        forall|q: int| base <= q < base + cells.len() ==> #[trigger] row_of(c, q) == r,
        forall|q: int, l: int| 0 <= q < l < base && row_of(c, q) == row_of(c, l)
            ==> #[trigger] right_edge(prefix[q]) <= #[trigger] prefix[l].x,
    ensures
        forall|q: int, l: int| 0 <= q < l < areas.len() && row_of(c, q) == row_of(c, l)
            ==> #[trigger] right_edge(areas[q]) <= #[trigger] areas[l].x,
{
    assert forall|q: int, l: int| 0 <= q < l < areas.len() && row_of(c, q) == row_of(c, l)
        implies #[trigger] right_edge(areas[q]) <= #[trigger] areas[l].x by {
        if l >= base && q >= base {
            assert(areas[q] == cells[q - base]);
            assert(areas[l] == cells[l - base]);
            lemma_tiles_ordered(cells, band.x as int, right_edge(band), Axis::Horizontal, q - base, l - base);
        } else if l >= base {
            assert(row_of(c, l) == r);
        } else {
            assert(areas[q] == prefix[q]);
            assert(areas[l] == prefix[l]);
        }
    }
}

/// Once the cells of a band, which tile it from edge to edge, are appended,
/// every cell of the area above the band's bottom lies in some rectangle.
proof fn lemma_row_covers(
    area: Rect,
    base: int,
    prefix: Seq<Rect>,
    cells: Seq<Rect>,
    band: Rect,
    areas: Seq<Rect>,
    reached: int,
)
    requires
        tiles(cells, band.x as int, right_edge(band), Axis::Horizontal),
        band.x == area.x,
        band.width == area.width,
        band.y == reached,
        forall|i: int| 0 <= i < cells.len() ==> (#[trigger] cells[i]).y == band.y && cells[i].height == band.height,
        prefix.len() == base,
        areas == prefix + cells,
        forall|px: int, py: int| contains_cell(area, px, py) && py < reached
            ==> exists|q: int| 0 <= q < base && #[trigger] contains_cell(prefix[q], px, py),
    ensures
        forall|px: int, py: int| contains_cell(area, px, py) && py < bottom_edge(band)
            ==> exists|q: int| 0 <= q < areas.len() && #[trigger] contains_cell(areas[q], px, py),
{
    assert forall|px: int, py: int| contains_cell(area, px, py) && py < bottom_edge(band)
        implies exists|q: int| 0 <= q < areas.len() && #[trigger] contains_cell(areas[q], px, py) by {
        if py < reached {
            let q = choose|q: int| 0 <= q < base && #[trigger] contains_cell(prefix[q], px, py);
            assert(areas[q] == prefix[q]);
            assert(contains_cell(areas[q], px, py));
        } else {
            lemma_tiles_cover(cells, band.x as int, right_edge(band), Axis::Horizontal, px);
            let i = choose|i: int| 0 <= i < cells.len() && start_on(cells[i], Axis::Horizontal) <= px
                < #[trigger] end_on(cells[i], Axis::Horizontal);
            assert(areas[base + i] == cells[i]);
            assert(contains_cell(areas[base + i], px, py));
        }
    }
}

/// Cells that share the y extent of their row's band, with bands that tile
/// the area top to bottom, stack row on row from the area's top edge to its
/// bottom edge.
proof fn lemma_rows_stack(area: Rect, c: int, rows: int, bands: Seq<Rect>, areas: Seq<Rect>)
    requires
        bands.len() == rows,
        tiles(bands, area.y as int, bottom_edge(area), Axis::Vertical),
        forall|i: int, j: int| 0 <= i < j < rows ==> #[trigger] bottom_edge(bands[i]) <= #[trigger] bands[j].y,
        forall|k: int| 0 <= k < areas.len() ==> 0 <= #[trigger] row_of(c, k) < rows,
        forall|k: int|
            0 <= k < areas.len() ==> (#[trigger] areas[k]).y == bands[row_of(c, k)].y && areas[k].height
                == bands[row_of(c, k)].height,
    ensures
        forall|i: int, j: int|
            0 <= i < areas.len() && 0 <= j < areas.len() && row_of(c, i) < row_of(c, j)
                ==> #[trigger] bottom_edge(areas[i]) <= #[trigger] areas[j].y,
        forall|i: int| 0 <= i < areas.len() && row_of(c, i) == 0 ==> (#[trigger] areas[i]).y == area.y,
        forall|i: int|
            0 <= i < areas.len() && row_of(c, i) == rows - 1 ==> #[trigger] bottom_edge(areas[i]) == bottom_edge(area),
        forall|i: int, j: int|
            0 <= i < areas.len() && 0 <= j < areas.len() && row_of(c, j) == row_of(c, i) + 1
                ==> #[trigger] bottom_edge(areas[i]) == #[trigger] areas[j].y,
{
    assert forall|i: int, j: int|
        0 <= i < areas.len() && 0 <= j < areas.len() && row_of(c, i) < row_of(c, j)
            implies #[trigger] bottom_edge(areas[i]) <= #[trigger] areas[j].y by {
        assert(0 <= row_of(c, i) < rows && 0 <= row_of(c, j) < rows);
        assert(areas[i].y == bands[row_of(c, i)].y && areas[i].height == bands[row_of(c, i)].height);
        assert(areas[j].y == bands[row_of(c, j)].y);
        assert(bottom_edge(bands[row_of(c, i)]) <= bands[row_of(c, j)].y);
    }
    assert forall|i: int| 0 <= i < areas.len() && row_of(c, i) == 0 implies (#[trigger] areas[i]).y == area.y by {
        assert(areas[i].y == bands[row_of(c, i)].y);
        assert(start_on(bands[0], Axis::Vertical) == area.y);
    }
    assert forall|i: int| 0 <= i < areas.len() && row_of(c, i) == rows - 1
        implies #[trigger] bottom_edge(areas[i]) == bottom_edge(area) by {
        assert(areas[i].y == bands[row_of(c, i)].y && areas[i].height == bands[row_of(c, i)].height);
        assert(bands.last() == bands[rows - 1]);
    }
    assert forall|i: int, j: int|
        0 <= i < areas.len() && 0 <= j < areas.len() && row_of(c, j) == row_of(c, i) + 1
            implies #[trigger] bottom_edge(areas[i]) == #[trigger] areas[j].y by {
        assert(0 <= row_of(c, i) < rows && 0 <= row_of(c, j) < rows);
        assert(areas[i].y == bands[row_of(c, i)].y && areas[i].height == bands[row_of(c, i)].height);
        assert(areas[j].y == bands[row_of(c, j)].y);
        assert(end_on(bands[row_of(c, i)], Axis::Vertical) == start_on(bands[row_of(c, i) + 1], Axis::Vertical));
    }
}

/// Appends every rectangle of `more` to `out`, in order.
fn append_rects(out: &mut Vec<Rect>, more: &Vec<Rect>)
    ensures
        final(out)@ == old(out)@ + more@,
{
    let mut k: usize = 0;
    while k < more.len()
        invariant
            k <= more.len(),
            out@ == old(out)@ + more@.subrange(0, k as int),
        decreases more.len() - k,
    {
        out.push(more[k]);
        k = k + 1;
        proof {
            assert(out@ =~= old(out)@ + more@.subrange(0, k as int));
        }
    }
    assert(more@.subrange(0, more.len() as int) =~= more@);
}

/// Splits `area` among `count` panes: equal-height bands, one per grid row,
/// each band cut into equal-width cells for the panes of that row, so that a
/// short last row gets wider cells rather than empty slots. Up to a full
/// grid the cells do not overlap and together cover the area.
#[verifier::rlimit(40)]
pub fn compute_pane_areas(area: Rect, count: usize) -> (r: Vec<Rect>)
    requires
        count <= u32::MAX,
        fits(area),
    ensures
        count <= GRID_CELLS ==> r@ == pane_areas_spec(area, count as int),
        r.len() == count,
        forall|i: int| 0 <= i < count ==> #[trigger] within(r[i], area),
        forall|i: int|
            0 <= i < count && (area.width as int) % row_items(count as int, row_of(count as int, i)) == 0
                ==> (#[trigger] r[i]).width == (area.width as int) / row_items(count as int, row_of(count as int, i)),
        forall|i: int|
            0 <= i < count && (area.height as int) % grid_shape(count as int).0 == 0
                ==> (#[trigger] r[i]).height == (area.height as int) / grid_shape(count as int).0,
        count <= GRID_CELLS ==> forall|i: int, j: int| 0 <= i < j < count ==> #[trigger] disjoint(r[i], r[j]),
        0 < count <= GRID_CELLS ==> forall|px: int, py: int|
            contains_cell(area, px, py) ==> exists|i: int| 0 <= i < count && #[trigger] contains_cell(r[i], px, py),
        forall|i: int, j: int|
            0 <= i < count && 0 <= j < count && row_of(count as int, i) == row_of(count as int, j)
                ==> (#[trigger] r[i]).y == (#[trigger] r[j]).y && r[i].height == r[j].height,
        count <= GRID_CELLS ==> forall|i: int, j: int|
            0 <= i < j < count && row_of(count as int, i) == row_of(count as int, j)
                ==> #[trigger] right_edge(r[i]) <= #[trigger] r[j].x,
        forall|i: int, j: int|
            0 <= i < count && 0 <= j < count && row_of(count as int, i) < row_of(count as int, j)
                ==> #[trigger] bottom_edge(r[i]) <= #[trigger] r[j].y,
        count <= GRID_CELLS ==> {
            &&& forall|i: int|
                0 <= i < count && (i == 0 || row_of(count as int, i - 1) < row_of(count as int, i))
                    ==> (#[trigger] r[i]).x == area.x
            &&& forall|i: int|
                0 <= i < count - 1 && row_of(count as int, i) == row_of(count as int, i + 1)
                    ==> #[trigger] right_edge(r[i]) == r[i + 1].x
            &&& forall|i: int|
                0 <= i < count && (i == count - 1 || row_of(count as int, i) < row_of(count as int, i + 1))
                    ==> #[trigger] right_edge(r[i]) == right_edge(area)
        },
        forall|i: int| 0 <= i < count && row_of(count as int, i) == 0 ==> (#[trigger] r[i]).y == area.y,
        forall|i: int|
            0 <= i < count && row_of(count as int, i) == grid_shape(count as int).0 - 1
                ==> #[trigger] bottom_edge(r[i]) == bottom_edge(area),
        forall|i: int, j: int|
            0 <= i < count && 0 <= j < count && row_of(count as int, j) == row_of(count as int, i) + 1
                ==> #[trigger] bottom_edge(r[i]) == #[trigger] r[j].y,
{
    let mut areas: Vec<Rect> = Vec::new();
    if count == 0 {
        return areas;
    }
    let (rows, cols) = grid_dimensions(count);
    let row_areas = split_evenly(area, rows, Axis::Vertical);
    let ghost c = count as int;
    let ghost small = count <= GRID_CELLS;
    proof {
        lemma_grid_fits(c, 0);
        assert forall|i: int, j: int| 0 <= i < j < rows implies #[trigger] bottom_edge(row_areas[i])
            <= #[trigger] row_areas[j].y by {
            lemma_tiles_ordered(row_areas@, area.y as int, bottom_edge(area), Axis::Vertical, i, j);
        }
        if (area.height as int) % (rows as int) == 0 {
            assert forall|i: int| 0 <= i < rows implies (#[trigger] row_areas[i]).height == (area.height as int)
                / (rows as int) by {
                assert(extent_on(row_areas@[i], Axis::Vertical) == extent_on(area, Axis::Vertical) / (rows as int));
            }
        }
    }
    let mut idx: usize = 0;
    let mut r: usize = 0;
    while r < rows
        invariant
            c == count,
            1 <= count <= u32::MAX,
            small == (count <= GRID_CELLS),
            fits(area),
            rows == grid_shape(c).0,
            cols == grid_shape(c).1,
            row_areas.len() == rows,
            row_areas@ == ratio_split(area, rows as nat, true),
            (area.height as int) % (rows as int) == 0 ==> forall|i: int|
                0 <= i < rows ==> (#[trigger] row_areas[i]).height == (area.height as int) / (rows as int),
            small ==> areas@ == layout_rows(area, c, r as nat),
            forall|k: int| 0 <= k < idx && (area.width as int) % row_items(c, row_of(c, k)) == 0
                ==> #[trigger] areas[k].width == (area.width as int) / row_items(c, row_of(c, k)),
            forall|i: int| 0 <= i < rows ==> #[trigger] within(row_areas[i], area),
            forall|i: int| 0 <= i < rows ==> (#[trigger] row_areas[i]).x == area.x && row_areas[i].width == area.width,
            tiles(row_areas@, area.y as int, bottom_edge(area), Axis::Vertical),
            forall|i: int, j: int| 0 <= i < j < rows ==> #[trigger] bottom_edge(row_areas[i]) <= #[trigger] row_areas[j].y,
            r <= rows,
            r < rows ==> idx == r * cols,
            r == rows ==> idx == count,
            idx <= count,
            areas.len() == idx,
            forall|k: int| 0 <= k < idx ==> 0 <= #[trigger] row_of(c, k) < r,
            forall|k: int| 0 <= k < idx ==> #[trigger] within(areas[k], row_areas[row_of(c, k)]),
            forall|k: int| 0 <= k < idx ==> #[trigger] areas[k].y == row_areas[row_of(c, k)].y
                && areas[k].height == row_areas[row_of(c, k)].height,
            small ==> forall|k: int, l: int| 0 <= k < l < idx && row_of(c, k) == row_of(c, l)
                ==> #[trigger] right_edge(areas[k]) <= #[trigger] areas[l].x,
            small ==> forall|k: int| 0 <= k < idx && (k == 0 || row_of(c, k - 1) < row_of(c, k))
                ==> (#[trigger] areas[k]).x == area.x,
            small ==> forall|k: int| 0 <= k < idx - 1 && row_of(c, k) == row_of(c, k + 1)
                ==> #[trigger] right_edge(areas[k]) == areas[k + 1].x,
            small ==> forall|k: int| 0 <= k < idx && (k == idx - 1 || row_of(c, k) < row_of(c, k + 1))
                ==> #[trigger] right_edge(areas[k]) == right_edge(area),
            small ==> forall|px: int, py: int|
                contains_cell(area, px, py) && py < (if r == 0 { area.y as int } else { bottom_edge(row_areas[r - 1]) })
                    ==> exists|q: int| 0 <= q < idx && #[trigger] contains_cell(areas[q], px, py),
        decreases rows - r,
    {
        let remaining = count - idx;
        let items_this_row = if r == rows - 1 {
            remaining
        } else if cols < remaining {
            cols
        } else {
            remaining
        };
        proof {
            lemma_grid_fits(c, r as int);
            if r < rows - 1 {
                assert(items_this_row == cols);
            }
            assert(items_this_row == row_items(c, r as int));
        }
        assert(0 < items_this_row <= count);
        let band = row_areas[r];
        let col_areas = split_evenly(band, items_this_row, Axis::Horizontal);
        let ghost base = idx as int;
        let ghost prefix = areas@;
        let ghost reached = if r == 0 { area.y as int } else { bottom_edge(row_areas[r - 1]) };
        assert(forall|q: int| 0 <= q < base ==> 0 <= #[trigger] row_of(c, q) < r && within(prefix[q], row_areas[row_of(c, q)])
            && prefix[q].y == row_areas[row_of(c, q)].y && prefix[q].height == row_areas[row_of(c, q)].height);
        assert(forall|q: int| 0 <= q < base && (area.width as int) % row_items(c, row_of(c, q)) == 0
            ==> #[trigger] prefix[q].width == (area.width as int) / row_items(c, row_of(c, q)));
        assert(small ==> forall|k: int| 0 <= k < base && (k == 0 || row_of(c, k - 1) < row_of(c, k))
            ==> (#[trigger] prefix[k]).x == area.x);
        assert(small ==> forall|k: int| 0 <= k < base - 1 && row_of(c, k) == row_of(c, k + 1)
            ==> #[trigger] right_edge(prefix[k]) == prefix[k + 1].x);
        assert(small ==> forall|k: int| 0 <= k < base && (k == base - 1 || row_of(c, k) < row_of(c, k + 1))
            ==> #[trigger] right_edge(prefix[k]) == right_edge(area));
        assert(small ==> forall|q: int, l: int| 0 <= q < l < base && row_of(c, q) == row_of(c, l)
            ==> #[trigger] right_edge(prefix[q]) <= #[trigger] prefix[l].x);
        assert(small ==> forall|px: int, py: int| contains_cell(area, px, py) && py < reached
            ==> exists|q: int| 0 <= q < base && #[trigger] contains_cell(prefix[q], px, py));
        proof {
            assert forall|q: int| base <= q < base + items_this_row implies #[trigger] row_of(c, q) == r by {
                lemma_row_of(c, r as int, q);
            }
            if small {
                assert(items_this_row <= 3);
            }
            if r > 0 {
                assert(end_on(row_areas@[r - 1], Axis::Vertical) == start_on(row_areas@[r as int], Axis::Vertical));
            }
            assert(reached == band.y);
        }
        append_rects(&mut areas, &col_areas);
        idx = idx + items_this_row;
        proof {
            assert(areas@ == prefix + col_areas@);
            assert forall|q: int| 0 <= q < base implies #[trigger] areas[q] == prefix[q] by {}
            assert forall|q: int| base <= q < idx implies #[trigger] areas[q] == col_areas[q - base] by {}
        }
        proof {
            assert forall|q: int| 0 <= q < idx implies 0 <= #[trigger] row_of(c, q) < r + 1 by {
                if q < base {
                    assert(areas[q] == prefix[q]);
                }
            }
            assert forall|q: int| 0 <= q < idx implies #[trigger] within(areas[q], row_areas[row_of(c, q)])
                && areas[q].y == row_areas[row_of(c, q)].y && areas[q].height == row_areas[row_of(c, q)].height by {
                if q >= base {
                    assert(row_of(c, q) == r);
                    assert(areas[q] == col_areas[q - base]);
                } else {
                    assert(areas[q] == prefix[q]);
                }
            }
            assert(areas@ =~= prefix + col_areas@);
            assert(layout_rows(area, c, (r + 1) as nat) == layout_rows(area, c, r as nat) + ratio_split(
                row_areas@[r as int],
                row_items(c, r as int) as nat,
                false,
            ));
            assert(band.width == area.width);
            assert forall|q: int| 0 <= q < idx && (area.width as int) % row_items(c, row_of(c, q)) == 0
                implies (#[trigger] areas[q]).width == (area.width as int) / row_items(c, row_of(c, q)) by {
                if q >= base {
                    assert(row_of(c, q) == r);
                    assert(areas[q] == col_areas[q - base]);
                    assert(extent_on(col_areas[q - base], Axis::Horizontal) == extent_on(band, Axis::Horizontal)
                        / (items_this_row as int));
                } else {
                    assert(areas[q] == prefix[q]);
                }
            }
            if small {
                lemma_row_abuts(area, c, r as int, base, prefix, col_areas@, band, areas@);
                lemma_row_ordered(c, r as int, base, prefix, col_areas@, band, areas@);
                lemma_row_covers(area, base, prefix, col_areas@, band, areas@, reached);
            }
        }
        r = r + 1;
    }
    proof {
        assert(end_on(row_areas@.last(), Axis::Vertical) == bottom_edge(area));
        assert(row_areas@.last() == row_areas@[rows - 1]);
    }
    assert forall|i: int| 0 <= i < count implies #[trigger] within(areas[i], area) by {
        assert(0 <= row_of(c, i) < rows);
        let b = row_areas[row_of(c, i)];
        assert(within(areas[i], b));
        assert(within(b, area));
    }
    assert forall|i: int| 0 <= i < count && (area.height as int) % grid_shape(c).0 == 0
        implies (#[trigger] areas[i]).height == (area.height as int) / grid_shape(c).0 by {
        assert(0 <= row_of(c, i) < rows);
        assert(areas[i].y == row_areas[row_of(c, i)].y && areas[i].height == row_areas[row_of(c, i)].height);
        assert(row_areas[row_of(c, i)].height == (area.height as int) / (rows as int));
    }
    proof {
        lemma_rows_stack(area, c, rows as int, row_areas@, areas@);
    }
    if count <= GRID_CELLS {
        assert forall|i: int, j: int| 0 <= i < j < count implies #[trigger] disjoint(areas[i], areas[j]) by {
            if row_of(c, i) < row_of(c, j) {
                assert(bottom_edge(row_areas[row_of(c, i)]) <= row_areas[row_of(c, j)].y);
            } else if row_of(c, j) < row_of(c, i) {
                assert(bottom_edge(row_areas[row_of(c, j)]) <= row_areas[row_of(c, i)].y);
            }
        }
    }
    areas
}

/// The interior of a bordered box: one cell in from each edge, saturating.
pub fn pane_inner_area(area: Rect) -> (r: Rect)
    ensures
        r.x == (if area.x < u16::MAX { area.x + 1 } else { u16::MAX as int }),
        r.y == (if area.y < u16::MAX { area.y + 1 } else { u16::MAX as int }),
        r.width == (if area.width >= 2 { area.width - 2 } else { 0 }),
        r.height == (if area.height >= 2 { area.height - 2 } else { 0 }),
{
    Rect {
        x: if area.x < u16::MAX { area.x + 1 } else { u16::MAX },
        y: if area.y < u16::MAX { area.y + 1 } else { u16::MAX },
        width: if area.width >= 2 { area.width - 2 } else { 0 },
        height: if area.height >= 2 { area.height - 2 } else { 0 },
    }
}

/// Where the cursor of a full-screen pane is drawn: inside the interior of
/// `area`, clamped to its last row and column, or nowhere when the session
/// hides its cursor or the interior is empty.
pub open spec fn cursor_cell_spec(area: Rect, row: u16, col: u16, hidden: bool) -> Option<(u16, u16)> {
    let inner = Rect {
        x: if area.x < u16::MAX { (area.x + 1) as u16 } else { u16::MAX },
        y: if area.y < u16::MAX { (area.y + 1) as u16 } else { u16::MAX },
        width: if area.width >= 2 { (area.width - 2) as u16 } else { 0 },
        height: if area.height >= 2 { (area.height - 2) as u16 } else { 0 },
    };
    if hidden || inner.width == 0 || inner.height == 0 {
        None
    } else {
        let dx = if col < inner.width - 1 { col as int } else { inner.width - 1 };
        let dy = if row < inner.height - 1 { row as int } else { inner.height - 1 };
        Some((
            (if inner.x + dx > u16::MAX { u16::MAX as int } else { inner.x + dx }) as u16,
            (if inner.y + dy > u16::MAX { u16::MAX as int } else { inner.y + dy }) as u16,
        ))
    }
}

pub fn cursor_cell(area: Rect, row: u16, col: u16, hidden: bool) -> (r: Option<(u16, u16)>)
    ensures
        r == cursor_cell_spec(area, row, col, hidden),
{
    let inner = pane_inner_area(area);
    if hidden || inner.width == 0 || inner.height == 0 {
        return None;
    }
    let dx = if col < inner.width - 1 { col } else { inner.width - 1 };
    let dy = if row < inner.height - 1 { row } else { inner.height - 1 };
    Some((inner.x.saturating_add(dx), inner.y.saturating_add(dy)))
}

/// A direction of movement between panes of the grid.
#[derive(Clone, Copy, PartialEq, Eq, Structural, Debug)]
pub enum Direction {
    Up,
    Down,
    Left,
    Right,
}

/// The pane selected after one step in `direction` from `selected`, among
/// `count` panes laid out in the grid: the step is taken on (row, column)
/// with Up and Left saturating at zero; a target past the end of an
/// existing row clamps to the last pane; a target outside the grid leaves
/// the selection as it is.
pub open spec fn navigate_target(selected: int, count: int, direction: Direction) -> int {
    let cols = grid_shape(count).1;
    let row = selected / cols;
    let col = selected % cols;
    let (new_row, new_col) = match direction {
        Direction::Up => (if row > 0 { row - 1 } else { 0 }, col),
        Direction::Down => (row + 1, col),
        Direction::Left => (row, if col > 0 { col - 1 } else { 0 }),
        Direction::Right => (row, col + 1),
    };
    let idx = new_row * cols + new_col;
    if idx >= count && new_row * cols < count {
        count - 1
    } else if idx < count {
        idx
    } else {
        selected
    }
}

/// The selection after `n` steps in the same direction.
pub open spec fn navigate_repeat(selected: int, count: int, direction: Direction, n: nat) -> int
    decreases n,
{
    if n == 0 {
        selected
    } else {
        navigate_repeat(navigate_target(selected, count, direction), count, direction, (n - 1) as nat)
    }
}

/// One navigation step from pane `selected` of `count`.
pub fn navigate_index(selected: usize, count: usize, direction: Direction) -> (r: usize)
    requires
        selected < count,
    ensures
        r == navigate_target(selected as int, count as int, direction),
        r < count,
{
    let (_rows, cols) = grid_dimensions(count);
    let row = selected / cols;
    let col = selected % cols;
    proof {
        lemma_fundamental_div_mod(selected as int, cols as int);
        assert(row * cols == cols * row) by (nonlinear_arith);
    }
    let base = row * cols;
    match direction {
        Direction::Up => {
            if row > 0 {
                assert((row - 1) * cols == base - cols) by (nonlinear_arith)
                    requires base == row * cols;
                selected - cols
            } else {
                selected
            }
        },
        Direction::Down => {
            assert((row + 1) * cols == base + cols) by (nonlinear_arith)
                requires base == row * cols;
            if count - base <= cols {
                selected
            } else if col < count - (base + cols) {
                base + cols + col
            } else {
                count - 1
            }
        },
        Direction::Left => {
            if col > 0 {
                selected - 1
            } else {
                selected
            }
        },
        Direction::Right => {
            if selected < count - 1 {
                selected + 1
            } else {
                count - 1
            }
        },
    }
}

/// Navigating up from the top row, or left from the first column, any
/// number of times, never changes the selection.
pub proof fn lemma_edge_navigation_is_fixed(selected: int, count: int, direction: Direction, n: nat)
    requires
        0 <= selected < count,
        (direction is Up && selected / grid_shape(count).1 == 0) || (direction is Left
            && selected % grid_shape(count).1 == 0),
    ensures
        navigate_repeat(selected, count, direction, n) == selected,
    decreases n,
{
    let cols = grid_shape(count).1;
    lemma_fundamental_div_mod(selected, cols);
    assert(cols * (selected / cols) == (selected / cols) * cols) by (nonlinear_arith);
    if direction is Up {
        assert(0 * cols == 0);
    }
    assert(navigate_target(selected, count, direction) == selected);
    if n > 0 {
        lemma_edge_navigation_is_fixed(selected, count, direction, (n - 1) as nat);
    }
}

} // verus!
