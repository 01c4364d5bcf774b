use crate::grid::{pos_in_grid, Grid, GRID_HEIGHT, GRID_WIDTH};
use crate::shapes::{lemma_shape_offsets_form, shape_cells, shape_offsets, ShapeKind};
use vstd::prelude::*;

verus! {

/// The active tetromino: a shape kind, a rotation index (0..4, wrapping)
/// and the anchor position in grid coordinates.  While a candidate move is
/// validated the anchor may stand outside the playfield.
#[derive(Clone, Copy, PartialEq, Eq, Structural, Debug)]
pub struct Piece {
    pub kind: ShapeKind,
    pub rot: u8,
    pub x: i32,
    pub y: i32,
}

impl Piece {
    /// The rotation index always stays below 4.
    pub open spec fn wf(self) -> bool {
        self.rot < 4
    }

    /// Anchor coordinates from which every cell coordinate can be computed
    /// in i32 arithmetic; every piece the engine examines stays well
    /// within these margins around the playfield.
    pub open spec fn anchor_bounded(self) -> bool {
        &&& -(GRID_WIDTH as int) <= self.x <= 2 * GRID_WIDTH
        &&& -(GRID_HEIGHT as int) <= self.y <= 2 * GRID_HEIGHT
    }

    /// The absolute playfield cells the piece covers: the anchor plus each
    /// shape offset of its current orientation.
    pub open spec fn cells(self) -> Seq<(int, int)> {
        shape_offsets(self.kind, self.rot as int).map_values(
            |o: (int, int)| (self.x + o.0, self.y + o.1),
        )
    }

    /// Every covered cell lies inside the playfield.
    pub open spec fn in_grid(self) -> bool {
        forall|i: int|
            0 <= i < self.cells().len() ==> pos_in_grid(
                (#[trigger] self.cells()[i]).0,
                self.cells()[i].1,
            )
    }

    /// Every covered cell inside the playfield is free: the active piece
    /// may rest on empty cells and on its own shadow projection.
    pub open spec fn rests_on_free(self, g: Grid) -> bool {
        forall|i: int|
            0 <= i < self.cells().len() && pos_in_grid(
                (#[trigger] self.cells()[i]).0,
                self.cells()[i].1,
            ) ==> g.cell_at(self.cells()[i].0, self.cells()[i].1).is_free()
    }

    /// A candidate position is legal exactly when it lies inside the
    /// playfield and covers only free cells.
    pub open spec fn legal(self, g: Grid) -> bool {
        self.in_grid() && self.rests_on_free(g)
    }

    /// A piece that lies inside the playfield has its anchor inside too,
    /// because every shape covers its own anchor cell.
    pub proof fn lemma_anchor_in_grid(self)
        requires
            self.wf(),
            self.in_grid(),
        ensures
            0 <= self.x < GRID_WIDTH,
            0 <= self.y < GRID_HEIGHT,
            self.anchor_bounded(),
    {
        lemma_shape_offsets_form(self.kind, self.rot as int);
        assert(self.cells()[1] == (self.x as int, self.y as int));
        assert(pos_in_grid(self.cells()[1].0, self.cells()[1].1));
    }

    /// Runtime legality test for a candidate position.
    pub fn fits(&self, g: &Grid) -> (r: bool)
        requires
            g.wf(),
            self.wf(),
            self.anchor_bounded(),
        ensures
            r == self.legal(*g),
    {
        let offs = shape_cells(self.kind, self.rot);
        proof {
            lemma_shape_offsets_form(self.kind, self.rot as int);
        }
        let mut i: usize = 0;
        while i < 4
            invariant
                g.wf(),
                self.wf(),
                self.anchor_bounded(),
                i <= 4,
                offs@.len() == 4,
                self.cells().len() == 4,
                forall|j: int|
                    0 <= j < 4 ==> (#[trigger] offs@[j]).0 as int == shape_offsets(
                        self.kind,
                        self.rot as int,
                    )[j].0 && offs@[j].1 as int == shape_offsets(self.kind, self.rot as int)[j].1,
                forall|j: int| 0 <= j < 4 ==> -2 <= (#[trigger] offs@[j]).0 <= 2 && -2 <= offs@[j].1
                    <= 2,
                forall|j: int|
                    0 <= j < i ==> pos_in_grid(
                        (#[trigger] self.cells()[j]).0,
                        self.cells()[j].1,
                    ) && g.cell_at(self.cells()[j].0, self.cells()[j].1).is_free(),
            decreases 4 - i,
        {
            let (dx, dy) = offs[i];
            let cx = self.x + dx;
            let cy = self.y + dy;
            proof {
                assert(self.cells()[i as int] == (self.x + dx as int, self.y + dy as int));
            }
            if cx < 0 || cx >= GRID_WIDTH as i32 || cy < 0 || cy >= GRID_HEIGHT as i32 {
                assert(!pos_in_grid(self.cells()[i as int].0, self.cells()[i as int].1));
                return false;
            }
            let c = g.get(cx as usize, cy as usize);
            if !c.free() {
                assert(!g.cell_at(self.cells()[i as int].0, self.cells()[i as int].1).is_free());
                assert(!self.rests_on_free(*g));
                return false;
            }
            i += 1;
        }
        true
    }

    /// The piece moved by (dx, dy), at the spec level.
    pub open spec fn spec_translated(self, dx: int, dy: int) -> Piece {
        Piece { kind: self.kind, rot: self.rot, x: (self.x + dx) as i32, y: (self.y + dy) as i32 }
    }

    /// The piece moved by (dx, dy).
    pub fn translated(self, dx: i32, dy: i32) -> (p: Piece)
        requires
            -1 <= dx <= 1,
            -1 <= dy <= 1,
            -(GRID_WIDTH as int) <= self.x + dx <= 2 * GRID_WIDTH,
            -(GRID_HEIGHT as int) <= self.y + dy <= 2 * GRID_HEIGHT,
        ensures
            p == self.spec_translated(dx as int, dy as int),
            p.kind == self.kind,
            p.rot == self.rot,
            p.x as int == self.x + dx,
            p.y as int == self.y + dy,
            p.anchor_bounded(),
    {
        Piece { kind: self.kind, rot: self.rot, x: self.x + dx, y: self.y + dy }
    }

    /// The clockwise quarter turn, at the spec level: the rotation index
    /// advances modulo 4; kind and anchor stay.
    pub open spec fn spec_rotated(self) -> Piece {
        Piece { kind: self.kind, rot: ((self.rot + 1) % 4) as u8, x: self.x, y: self.y }
    }

    /// The piece turned one quarter turn clockwise.
    pub fn rotated(self) -> (p: Piece)
        requires
            self.wf(),
        ensures
            p == self.spec_rotated(),
            p.wf(),
            p.kind == self.kind,
            p.x == self.x,
            p.y == self.y,
    {
        Piece { kind: self.kind, rot: (self.rot + 1) % 4, x: self.x, y: self.y }
    }
}

/// Four quarter turns return a piece to its original state: the rotation
/// index wraps back to where it started, and with it the covered cells.
pub proof fn lemma_rotation_period_four(p: Piece)
    requires
        p.wf(),
    ensures
        p.spec_rotated().spec_rotated().spec_rotated().spec_rotated() == p,
        p.spec_rotated().spec_rotated().spec_rotated().spec_rotated().cells() == p.cells(),
{
}

/// No self-collision: the playfield holds no occupied cell where a legally
/// placed active piece stands, so a candidate cell that coincides with one
/// of the active piece's own cells can never block the candidate move.
pub proof fn lemma_no_self_collision(g: Grid, active: Piece, candidate: Piece, i: int, j: int)
    requires
        active.legal(g),
        0 <= i < candidate.cells().len(),
        0 <= j < active.cells().len(),
        candidate.cells()[i] == active.cells()[j],
    ensures
        g.cell_at(candidate.cells()[i].0, candidate.cells()[i].1).is_free(),
{
    assert(pos_in_grid(
        (#[trigger] active.cells()[j]).0,
        active.cells()[j].1,
    ));
}

} // verus!
