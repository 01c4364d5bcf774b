use crate::cell::{strip_cell, Cell};
use vstd::prelude::*;

verus! {

/// Playfield width in cells.
pub const GRID_WIDTH: usize = 10;

/// Playfield height in cells; row 0 is the spawn row at the top, row
/// GRID_HEIGHT - 1 rests on the floor.
pub const GRID_HEIGHT: usize = 20;

/// True when (x, y) is a playfield coordinate.
pub open spec fn pos_in_grid(x: int, y: int) -> bool {
    0 <= x < GRID_WIDTH && 0 <= y < GRID_HEIGHT
}

/// A full playfield row: every one of its cells is occupied.
pub open spec fn row_is_full(row: Seq<Cell>) -> bool {
    forall|x: int| 0 <= x < row.len() ==> (#[trigger] row[x]) is Occupied
}

/// A row of empty cells.
pub open spec fn empty_row() -> Seq<Cell> {
    Seq::new(GRID_WIDTH as nat, |x: int| Cell::Empty)
}

/// The rows after compaction: every full row is removed, the surviving rows
/// keep their order and slide to the bottom, and one empty row enters at
/// the top for each removed one.
pub open spec fn compacted(rows: Seq<Seq<Cell>>) -> Seq<Seq<Cell>>
    decreases rows.len(),
{
    if rows.len() == 0 {
        Seq::empty()
    } else {
        let rest = compacted(rows.drop_last());
        if row_is_full(rows.last()) {
            seq![empty_row()] + rest
        } else {
            rest.push(rows.last())
        }
    }
}

/// How many of the given rows are full.
pub open spec fn full_row_count(rows: Seq<Seq<Cell>>) -> int
    decreases rows.len(),
{
    if rows.len() == 0 {
        0
    } else {
        full_row_count(rows.drop_last()) + if row_is_full(rows.last()) {
            1int
        } else {
            0int
        }
    }
}

/// Compaction keeps the number of rows.
pub proof fn lemma_compacted_len(rows: Seq<Seq<Cell>>)
    ensures
        compacted(rows).len() == rows.len(),
    decreases rows.len(),
{
    if rows.len() > 0 {
        lemma_compacted_len(rows.drop_last());
    }
}

/// No cell of any of the rows is a shadow cell.
pub open spec fn rows_shadow_free(rows: Seq<Seq<Cell>>) -> bool {
    forall|y: int, x: int|
        0 <= y < rows.len() && 0 <= x < rows[y].len() ==> !((#[trigger] rows[y][x]) is Shadow)
}

/// Compaction introduces no shadow cells: the result consists of surviving
/// rows and fresh empty rows only.
pub proof fn lemma_compacted_shadow_free(rows: Seq<Seq<Cell>>)
    requires
        rows_shadow_free(rows),
    ensures
        rows_shadow_free(compacted(rows)),
    decreases rows.len(),
{
    if rows.len() > 0 {
        assert(rows_shadow_free(rows.drop_last()));
        lemma_compacted_shadow_free(rows.drop_last());
        lemma_compacted_len(rows.drop_last());
        let rest = compacted(rows.drop_last());
        if row_is_full(rows.last()) {
            let whole = seq![empty_row()] + rest;
            assert forall|y: int, x: int|
                0 <= y < whole.len() && 0 <= x < whole[y].len() implies !((#[trigger] whole[y][x])
                is Shadow) by {
                if y == 0 {
                    assert(whole[0] == empty_row());
                } else {
                    assert(whole[y] == rest[y - 1]);
                }
            }
        } else {
            let whole = rest.push(rows.last());
            assert forall|y: int, x: int|
                0 <= y < whole.len() && 0 <= x < whole[y].len() implies !((#[trigger] whole[y][x])
                is Shadow) by {
                if y == rest.len() {
                    assert(whole[y] == rows.last());
                    assert(rows[rows.len() - 1][x] == rows.last()[x]);
                } else {
                    assert(whole[y] == rest[y]);
                }
            }
        }
    }
}

/// How many cells of the row are occupied.
pub open spec fn occupied_in_row(row: Seq<Cell>) -> int
    decreases row.len(),
{
    if row.len() == 0 {
        0
    } else {
        occupied_in_row(row.drop_last()) + if row.last() is Occupied {
            1int
        } else {
            0int
        }
    }
}

/// A row without occupied cells counts zero.
pub proof fn lemma_occupied_in_row_zero(row: Seq<Cell>)
    requires
        forall|x: int| 0 <= x < row.len() ==> !((#[trigger] row[x]) is Occupied),
    ensures
        occupied_in_row(row) == 0,
    decreases row.len(),
{
    if row.len() > 0 {
        assert(forall|x: int|
            0 <= x < row.drop_last().len() ==> !((#[trigger] row.drop_last()[x]) is Occupied));
        lemma_occupied_in_row_zero(row.drop_last());
    }
}

/// The playfield: a fixed GRID_WIDTH x GRID_HEIGHT array of cells stored
/// row-major, allocated once at game start and never resized.
pub struct Grid {
    cells: Vec<Cell>,
}

/// Occupied cells in rows 0..k of the playfield.
pub open spec fn occupied_above(g: Grid, k: int) -> int
    decreases k,
{
    if k <= 0 {
        0
    } else {
        occupied_above(g, k - 1) + occupied_in_row(g.row_seq(k - 1))
    }
}

/// Rows 1..k of `after` hold what rows 0..k-1 of `before` held, so their
/// occupied cells add up the same way.
proof fn lemma_shifted_prefix_occupied(before: Grid, after: Grid, y: int, k: int)
    requires
        0 <= y < GRID_HEIGHT,
        1 <= k <= y + 1,
        forall|xx: int, j: int|
            0 <= xx < GRID_WIDTH && 1 <= j <= y ==> #[trigger] after.cell_at(xx, j)
                == before.cell_at(xx, j - 1),
    ensures
        occupied_above(after, k) == occupied_above(before, k - 1) + occupied_in_row(
            after.row_seq(0),
        ),
    decreases k,
{
    if k == 1 {
        assert(occupied_above(after, 1) == occupied_above(after, 0) + occupied_in_row(
            after.row_seq(0),
        ));
        assert(occupied_above(after, 0) == 0);
        assert(occupied_above(before, 0) == 0);
    } else {
        lemma_shifted_prefix_occupied(before, after, y, k - 1);
        assert(after.row_seq(k - 1) =~= before.row_seq(k - 2));
        assert(occupied_in_row(after.row_seq(k - 1)) == occupied_in_row(before.row_seq(k - 2)));
        assert(occupied_above(after, k) == occupied_above(after, k - 1) + occupied_in_row(
            after.row_seq(k - 1),
        ));
        assert(occupied_above(before, k - 1) == occupied_above(before, k - 2) + occupied_in_row(
            before.row_seq(k - 2),
        ));
    }
}

/// Clearing one full row conserves the occupied cells above it: when every
/// row above the cleared row slides down one and an empty row enters at the
/// top, the occupied-cell count in rows 0..=y afterwards equals the count
/// rows 0..y held before — exactly the cleared row's own cells are gone and
/// no other cell appears or disappears.
pub proof fn lemma_row_removal_conserves_occupied(before: Grid, after: Grid, y: int)
    requires
        0 <= y < GRID_HEIGHT,
        forall|xx: int| 0 <= xx < GRID_WIDTH ==> #[trigger] after.cell_at(xx, 0) == Cell::Empty,
        forall|xx: int, j: int|
            0 <= xx < GRID_WIDTH && 1 <= j <= y ==> #[trigger] after.cell_at(xx, j)
                == before.cell_at(xx, j - 1),
    ensures
        occupied_above(after, y + 1) == occupied_above(before, y),
{
    lemma_shifted_prefix_occupied(before, after, y, y + 1);
    assert(forall|x: int|
        0 <= x < after.row_seq(0).len() ==> !((#[trigger] after.row_seq(0)[x]) is Occupied));
    lemma_occupied_in_row_zero(after.row_seq(0));
}

impl Grid {
    /// The grid always holds exactly GRID_WIDTH * GRID_HEIGHT cells.
    pub closed spec fn wf(self) -> bool {
        self.cells@.len() == GRID_WIDTH * GRID_HEIGHT
    }

    /// The cell at column x, row y.
    pub closed spec fn cell_at(self, x: int, y: int) -> Cell {
        self.cells@[y * (GRID_WIDTH as int) + x]
    }

    /// Row y as a sequence of GRID_WIDTH cells.
    pub open spec fn row_seq(self, y: int) -> Seq<Cell> {
        Seq::new(GRID_WIDTH as nat, |x: int| self.cell_at(x, y))
    }

    /// The whole playfield as a sequence of GRID_HEIGHT rows.
    pub open spec fn rows(self) -> Seq<Seq<Cell>> {
        Seq::new(GRID_HEIGHT as nat, |y: int| self.row_seq(y))
    }

    /// An all-empty playfield.
    pub fn new() -> (g: Grid)
        ensures
            g.wf(),
            forall|x: int, y: int| pos_in_grid(x, y) ==> #[trigger] g.cell_at(x, y) == Cell::Empty,
    {
        let mut cells: Vec<Cell> = Vec::new();
        let mut i: usize = 0;
        while i < GRID_WIDTH * GRID_HEIGHT
            invariant
                i <= GRID_WIDTH * GRID_HEIGHT,
                cells@.len() == i,
                forall|j: int| 0 <= j < i ==> cells@[j] == Cell::Empty,
            decreases GRID_WIDTH * GRID_HEIGHT - i,
        {
            cells.push(Cell::Empty);
            i += 1;
        }
        Grid { cells }
    }

    /// Read the cell at (x, y); the caller must stay inside the playfield.
    pub fn get(&self, x: usize, y: usize) -> (c: Cell)
        requires
            self.wf(),
            x < GRID_WIDTH,
            y < GRID_HEIGHT,
        ensures
            c == self.cell_at(x as int, y as int),
    {
        self.cells[y * GRID_WIDTH + x]
    }

    /// Write the cell at (x, y); the caller must stay inside the playfield.
    /// No other cell changes.
    pub fn set(&mut self, x: usize, y: usize, c: Cell)
        requires
            old(self).wf(),
            x < GRID_WIDTH,
            y < GRID_HEIGHT,
        ensures
            final(self).wf(),
            final(self).cell_at(x as int, y as int) == c,
            forall|xx: int, yy: int|
                pos_in_grid(xx, yy) && !(xx == x && yy == y) ==> #[trigger] final(self).cell_at(
                    xx,
                    yy,
                ) == old(self).cell_at(xx, yy),
    {
        self.cells.set(y * GRID_WIDTH + x, c);
    }

    /// True exactly when every cell of row y is occupied.
    pub fn is_row_full(&self, y: usize) -> (r: bool)
        requires
            self.wf(),
            y < GRID_HEIGHT,
        ensures
            r == row_is_full(self.row_seq(y as int)),
    {
        let mut x: usize = 0;
        while x < GRID_WIDTH
            invariant
                self.wf(),
                y < GRID_HEIGHT,
                x <= GRID_WIDTH,
                forall|xx: int|
                    0 <= xx < x ==> (#[trigger] self.cell_at(xx, y as int)) is Occupied,
            decreases GRID_WIDTH - x,
        {
            match self.get(x, y) {
                Cell::Occupied(_) => {},
                _ => {
                    assert(!(self.row_seq(y as int)[x as int] is Occupied));
                    return false;
                },
            }
            x += 1;
        }
        assert forall|xx: int| 0 <= xx < GRID_WIDTH implies (#[trigger] self.row_seq(y as int)[xx])
            is Occupied by {
            assert(self.cell_at(xx, y as int) is Occupied);
        }
        true
    }

    /// Set every cell of row y back to empty.  No other row changes.
    pub fn clear_row(&mut self, y: usize)
        requires
            old(self).wf(),
            y < GRID_HEIGHT,
        ensures
            final(self).wf(),
            forall|xx: int|
                0 <= xx < GRID_WIDTH ==> #[trigger] final(self).cell_at(xx, y as int)
                    == Cell::Empty,
            forall|xx: int, yy: int|
                pos_in_grid(xx, yy) && yy != y ==> #[trigger] final(self).cell_at(xx, yy) == old(
                    self,
                ).cell_at(xx, yy),
    {
        let mut x: usize = 0;
        while x < GRID_WIDTH
            invariant
                self.wf(),
                y < GRID_HEIGHT,
                x <= GRID_WIDTH,
                forall|xx: int|
                    0 <= xx < x ==> #[trigger] self.cell_at(xx, y as int) == Cell::Empty,
                forall|xx: int, yy: int|
                    pos_in_grid(xx, yy) && yy != y ==> #[trigger] self.cell_at(xx, yy) == old(
                        self,
                    ).cell_at(xx, yy),
            decreases GRID_WIDTH - x,
        {
            self.set(x, y, Cell::Empty);
            x += 1;
        }
    }

    /// Overwrite row y + 1 with the contents of row y.  No other row
    /// changes.
    pub fn copy_row_down(&mut self, y: usize)
        requires
            old(self).wf(),
            y + 1 < GRID_HEIGHT,
        ensures
            final(self).wf(),
            forall|xx: int|
                0 <= xx < GRID_WIDTH ==> #[trigger] final(self).cell_at(xx, y + 1) == old(
                    self,
                ).cell_at(xx, y as int),
            forall|xx: int, yy: int|
                pos_in_grid(xx, yy) && yy != y + 1 ==> #[trigger] final(self).cell_at(xx, yy)
                    == old(self).cell_at(xx, yy),
    {
        let mut x: usize = 0;
        while x < GRID_WIDTH
            invariant
                self.wf(),
                y + 1 < GRID_HEIGHT,
                x <= GRID_WIDTH,
                forall|xx: int|
                    0 <= xx < x ==> #[trigger] self.cell_at(xx, y + 1) == old(self).cell_at(
                        xx,
                        y as int,
                    ),
                forall|xx: int, yy: int|
                    pos_in_grid(xx, yy) && yy != y + 1 ==> #[trigger] self.cell_at(xx, yy) == old(
                        self,
                    ).cell_at(xx, yy),
            decreases GRID_WIDTH - x,
        {
            let c = self.get(x, y);
            self.set(x, y + 1, c);
            x += 1;
        }
    }

    /// Strip every shadow cell back to empty space; occupied and empty
    /// cells are untouched.
    pub fn strip_shadows(&mut self)
        requires
            old(self).wf(),
        ensures
            final(self).wf(),
            forall|xx: int, yy: int|
                pos_in_grid(xx, yy) ==> #[trigger] final(self).cell_at(xx, yy) == strip_cell(
                    old(self).cell_at(xx, yy),
                ),
    {
        let mut y: usize = 0;
        while y < GRID_HEIGHT
            invariant
                self.wf(),
                y <= GRID_HEIGHT,
                forall|xx: int, yy: int|
                    pos_in_grid(xx, yy) && yy < y ==> #[trigger] self.cell_at(xx, yy) == strip_cell(
                        old(self).cell_at(xx, yy),
                    ),
                forall|xx: int, yy: int|
                    pos_in_grid(xx, yy) && yy >= y ==> #[trigger] self.cell_at(xx, yy) == old(
                        self,
                    ).cell_at(xx, yy),
            decreases GRID_HEIGHT - y,
        {
            let mut x: usize = 0;
            while x < GRID_WIDTH
                invariant
                    self.wf(),
                    y < GRID_HEIGHT,
                    x <= GRID_WIDTH,
                    forall|xx: int, yy: int|
                        pos_in_grid(xx, yy) && yy < y ==> #[trigger] self.cell_at(xx, yy)
                            == strip_cell(old(self).cell_at(xx, yy)),
                    forall|xx: int|
                        0 <= xx < x ==> #[trigger] self.cell_at(xx, y as int) == strip_cell(
                            old(self).cell_at(xx, y as int),
                        ),
                    forall|xx: int|
                        x <= xx < GRID_WIDTH ==> #[trigger] self.cell_at(xx, y as int) == old(
                            self,
                        ).cell_at(xx, y as int),
                    forall|xx: int, yy: int|
                        pos_in_grid(xx, yy) && yy > y ==> #[trigger] self.cell_at(xx, yy) == old(
                            self,
                        ).cell_at(xx, yy),
                decreases GRID_WIDTH - x,
            {
                match self.get(x, y) {
                    Cell::Shadow => {
                        self.set(x, y, Cell::Empty);
                    },
                    _ => {},
                }
                x += 1;
            }
            y += 1;
        }
    }

    /// Remove row y: every row above it slides down one and the vacated top
    /// row becomes empty.  Rows below y are untouched.
    pub fn remove_row(&mut self, y: usize)
        requires
            old(self).wf(),
            y < GRID_HEIGHT,
        ensures
            final(self).wf(),
            forall|xx: int, j: int|
                0 <= xx < GRID_WIDTH && 1 <= j <= y ==> #[trigger] final(self).cell_at(xx, j)
                    == old(self).cell_at(xx, j - 1),
            forall|xx: int|
                0 <= xx < GRID_WIDTH ==> #[trigger] final(self).cell_at(xx, 0) == Cell::Empty,
            forall|xx: int, j: int|
                0 <= xx < GRID_WIDTH && y < j < GRID_HEIGHT ==> #[trigger] final(self).cell_at(
                    xx,
                    j,
                ) == old(self).cell_at(xx, j),
    {
        let mut i: usize = y;
        while 0 < i
            invariant
                self.wf(),
                i <= y < GRID_HEIGHT,
                forall|xx: int, j: int|
                    0 <= xx < GRID_WIDTH && i < j <= y ==> #[trigger] self.cell_at(xx, j) == old(
                        self,
                    ).cell_at(xx, j - 1),
                forall|xx: int, j: int|
                    0 <= xx < GRID_WIDTH && 0 <= j <= i ==> #[trigger] self.cell_at(xx, j) == old(
                        self,
                    ).cell_at(xx, j),
                forall|xx: int, j: int|
                    0 <= xx < GRID_WIDTH && y < j < GRID_HEIGHT ==> #[trigger] self.cell_at(xx, j)
                        == old(self).cell_at(xx, j),
            decreases i,
        {
            self.copy_row_down(i - 1);
            i -= 1;
        }
        self.clear_row(0);
    }

    /// Scan the rows top to bottom, remove every full one, and return how
    /// many were removed.  Scanning downwards is sound because removing row
    /// y only moves rows above y, which were already scanned.
    pub fn clear_full_rows(&mut self) -> (n: u32)
        requires
            old(self).wf(),
        ensures
            final(self).wf(),
            final(self).rows() == compacted(old(self).rows()),
            n as int == full_row_count(old(self).rows()),
            n <= GRID_HEIGHT,
    {
        let mut n: u32 = 0;
        let mut y: usize = 0;
        proof {
            assert(old(self).rows().subrange(0, 0) =~= Seq::<Seq<Cell>>::empty());
            assert(self.rows().subrange(0, 0) =~= compacted(old(self).rows().subrange(0, 0)));
        }
        while y < GRID_HEIGHT
            invariant
                self.wf(),
                y <= GRID_HEIGHT,
                n <= y,
                n as int == full_row_count(old(self).rows().subrange(0, y as int)),
                self.rows().subrange(0, y as int) == compacted(
                    old(self).rows().subrange(0, y as int),
                ),
                forall|xx: int, yy: int|
                    0 <= xx < GRID_WIDTH && y <= yy < GRID_HEIGHT ==> #[trigger] self.cell_at(
                        xx,
                        yy,
                    ) == old(self).cell_at(xx, yy),
            decreases GRID_HEIGHT - y,
        {
            let ghost pre = *self;
            let ghost prefix_old = old(self).rows().subrange(0, y as int);
            let ghost prefix_new = old(self).rows().subrange(0, y as int + 1);
            proof {
                lemma_compacted_len(prefix_old);
                assert(prefix_new.drop_last() =~= prefix_old);
                assert(prefix_new.last() == old(self).rows()[y as int]);
                assert(pre.row_seq(y as int) =~= old(self).row_seq(y as int));
                assert(old(self).rows()[y as int] == old(self).row_seq(y as int));
                assert(full_row_count(prefix_new) == full_row_count(prefix_old)
                    + if row_is_full(prefix_new.last()) {
                    1int
                } else {
                    0int
                });
            }
            let full = self.is_row_full(y);
            if full {
                self.remove_row(y);
                n += 1;
                proof {
                    assert(row_is_full(prefix_new.last()));
                    assert(compacted(prefix_new) == seq![empty_row()] + compacted(prefix_old));
                    assert forall|j: int| 0 <= j < y as int + 1 implies #[trigger] self.rows()[j]
                        == (seq![empty_row()] + compacted(prefix_old))[j] by {
                        if j == 0 {
                            assert(self.row_seq(0) =~= empty_row());
                        } else {
                            assert(self.row_seq(j) =~= pre.row_seq(j - 1));
                            assert(pre.rows().subrange(0, y as int)[j - 1] == pre.row_seq(j - 1));
                            assert(compacted(prefix_old)[j - 1] == pre.row_seq(j - 1));
                        }
                    }
                    assert(self.rows().subrange(0, y as int + 1) =~= seq![empty_row()] + compacted(
                        prefix_old,
                    ));
                }
            } else {
                proof {
                    assert(!row_is_full(prefix_new.last()));
                    assert(compacted(prefix_new) == compacted(prefix_old).push(prefix_new.last()));
                    assert forall|j: int| 0 <= j < y as int + 1 implies #[trigger] self.rows()[j]
                        == compacted(prefix_old).push(prefix_new.last())[j] by {
                        if j < y as int {
                            assert(self.rows().subrange(0, y as int)[j] == self.rows()[j]);
                            assert(compacted(prefix_old)[j] == self.rows()[j]);
                        } else {
                            assert(self.rows()[j] == self.row_seq(j));
                        }
                    }
                    assert(self.rows().subrange(0, y as int + 1) =~= compacted(prefix_old).push(
                        prefix_new.last(),
                    ));
                }
            }
            y += 1;
        }
        proof {
            assert(old(self).rows().subrange(0, GRID_HEIGHT as int) =~= old(self).rows());
            assert(self.rows().subrange(0, GRID_HEIGHT as int) =~= self.rows());
        }
        n
    }
}

} // verus!
