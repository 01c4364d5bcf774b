use crate::cell::{occ_part, strip_cell, Cell};
use crate::grid::{
    compacted, full_row_count, lemma_compacted_len, lemma_compacted_shadow_free, pos_in_grid,
    rows_shadow_free, Grid, GRID_HEIGHT, GRID_WIDTH,
};
use crate::piece::Piece;
use crate::queue::{NextQueue, QUEUE_LEN};
use crate::shapes::ShapeKind;
use vstd::prelude::*;

verus! {

/// A key event the engine reacts to, already freed of any concrete
/// keyboard backend; the host maps physical keys onto these.
#[derive(Clone, Copy, PartialEq, Eq, Structural, Debug)]
pub enum GameKey {
    /// Move the piece one column to the left.
    Left,
    /// Move the piece one column to the right.
    Right,
    /// Rotate the piece one quarter turn clockwise.
    Up,
    /// Engage fast drop for this frame.
    Down,
    /// Drop the piece straight to its resting position.
    Space,
}

/// Whether the engine is still playing or showing the game-over banner.
#[derive(Clone, Copy, PartialEq, Eq, Structural, Debug)]
pub enum RunningState {
    Running,
    GameOver,
}

/// Gravity applies every DROP_PERIOD-th step, or on every step while fast
/// drop is engaged.
pub const DROP_PERIOD: usize = 10;

/// The spawn anchor column: the center of the top row.
pub const SPAWN_X: i32 = 4;

/// The game-over banner bounces inside a region of this size, measured in
/// the text coordinates of the rendered playfield (5 x 3 glyphs per cell).
pub const BANNER_REGION_W: i32 = 50;

/// Height of the banner bounce region.
pub const BANNER_REGION_H: i32 = 60;

/// Width of the game-over banner.
pub const BANNER_W: i32 = 11;

/// Height of the game-over banner.
pub const BANNER_H: i32 = 3;

/// Keys allowed to fire on every frame while held: rotation, fast drop and
/// the straight drop.  All other keys fire on every other frame at most.
pub open spec fn auto_repeats(k: GameKey) -> bool {
    k == GameKey::Up || k == GameKey::Down || k == GameKey::Space
}

/// Runtime test matching `auto_repeats`.
fn auto_repeat_key(k: GameKey) -> (r: bool)
    ensures
        r == auto_repeats(k),
{
    match k {
        GameKey::Up | GameKey::Down | GameKey::Space => true,
        _ => false,
    }
}

/// The two playfields agree on every occupied cell; empty and shadow cells
/// may differ.  Collision only looks at occupied cells, so such playfields
/// are interchangeable for every legality question.
pub open spec fn same_occupied(a: Grid, b: Grid) -> bool {
    forall|x: int, y: int|
        pos_in_grid(x, y) ==> occ_part(#[trigger] a.cell_at(x, y)) == occ_part(b.cell_at(x, y))
}

/// No cell of the playfield is a shadow cell.
pub open spec fn shadow_free(g: Grid) -> bool {
    forall|x: int, y: int| pos_in_grid(x, y) ==> !((#[trigger] g.cell_at(x, y)) is Shadow)
}

/// Legality is untouched by repainting shadows: any two playfields that
/// agree on their occupied cells accept exactly the same candidates.
pub proof fn lemma_legal_same_occupied(a: Grid, b: Grid, p: Piece)
    requires
        same_occupied(a, b),
    ensures
        p.legal(a) == p.legal(b),
{
    assert forall|i: int|
        0 <= i < p.cells().len() && pos_in_grid(
            (#[trigger] p.cells()[i]).0,
            p.cells()[i].1,
        ) implies a.cell_at(p.cells()[i].0, p.cells()[i].1).is_free() == b.cell_at(
        p.cells()[i].0,
        p.cells()[i].1,
    ).is_free() by {
        assert(occ_part(a.cell_at(p.cells()[i].0, p.cells()[i].1)) == occ_part(
            b.cell_at(p.cells()[i].0, p.cells()[i].1),
        ));
    }
    assert(p.rests_on_free(a) ==> p.rests_on_free(b));
    assert(p.rests_on_free(b) ==> p.rests_on_free(a));
}

/// Agreement on occupied cells is transitive.
pub proof fn lemma_same_occupied_trans(a: Grid, b: Grid, c: Grid)
    requires
        same_occupied(a, b),
        same_occupied(b, c),
    ensures
        same_occupied(a, c),
{
    assert forall|x: int, y: int| pos_in_grid(x, y) implies occ_part(#[trigger] a.cell_at(x, y))
        == occ_part(c.cell_at(x, y)) by {
        assert(occ_part(a.cell_at(x, y)) == occ_part(b.cell_at(x, y)));
        assert(occ_part(b.cell_at(x, y)) == occ_part(c.cell_at(x, y)));
    }
}

/// A freshly spawned piece: the given kind, rotation 0, anchored at the
/// top-center spawn cell.
pub open spec fn spawn_piece(k: ShapeKind) -> Piece {
    Piece { kind: k, rot: 0, x: SPAWN_X, y: 0 }
}

/// The outcome of a one-step move attempt: a legal candidate is committed,
/// an illegal one leaves the piece unchanged.
pub open spec fn shifted_piece(g: Grid, p: Piece, dx: int, dy: int) -> Piece {
    if p.spec_translated(dx, dy).legal(g) {
        p.spec_translated(dx, dy)
    } else {
        p
    }
}

/// `shifted_piece` lifted over the optional active piece.
pub open spec fn option_shifted(g: Grid, op: Option<Piece>, dx: int, dy: int) -> Option<Piece> {
    match op {
        Some(p) => Some(shifted_piece(g, p, dx, dy)),
        None => None,
    }
}

/// The outcome of a rotation attempt: a legal quarter turn is committed,
/// an illegal one leaves the piece unchanged — there is no wall kick.
pub open spec fn turned_piece(g: Grid, p: Piece) -> Piece {
    if p.spec_rotated().legal(g) {
        p.spec_rotated()
    } else {
        p
    }
}

/// `turned_piece` lifted over the optional active piece.
pub open spec fn option_turned(g: Grid, op: Option<Piece>) -> Option<Piece> {
    match op {
        Some(p) => Some(turned_piece(g, p)),
        None => None,
    }
}

/// The piece moved to row yy, keeping kind, orientation and column.
pub open spec fn piece_at_row(p: Piece, yy: int) -> Piece {
    Piece { kind: p.kind, rot: p.rot, x: p.x, y: yy as i32 }
}

/// q is the landing projection of p: the same kind, orientation and
/// column, reachable from p through legal one-row descents, and resting —
/// one further descent would be illegal.
pub open spec fn is_landing(g: Grid, p: Piece, q: Piece) -> bool {
    &&& q.kind == p.kind
    &&& q.rot == p.rot
    &&& q.x == p.x
    &&& p.y <= q.y
    &&& forall|yy: int| p.y <= yy <= q.y ==> (#[trigger] piece_at_row(p, yy)).legal(g)
    &&& !q.spec_translated(0, 1).legal(g)
}

/// Descend while the row below is legal, giving up after `fuel` rows; with
/// fuel for the whole playfield height this reaches the landing position.
pub open spec fn landing_from(g: Grid, p: Piece, fuel: nat) -> Piece
    decreases fuel,
{
    if fuel == 0 {
        p
    } else if p.spec_translated(0, 1).legal(g) {
        landing_from(g, p.spec_translated(0, 1), (fuel - 1) as nat)
    } else {
        p
    }
}

/// The landing position of a legally placed piece.
pub open spec fn spec_landing(g: Grid, p: Piece) -> Piece {
    landing_from(g, p, GRID_HEIGHT as nat)
}

/// A legally placed piece reaches its landing projection within the
/// playfield height: the descent stops exactly at the resting row.
pub proof fn lemma_landing_reached(g: Grid, p: Piece, fuel: nat)
    requires
        p.wf(),
        p.legal(g),
        fuel >= GRID_HEIGHT - p.y,
    ensures
        is_landing(g, p, landing_from(g, p, fuel)),
    decreases fuel,
{
    p.lemma_anchor_in_grid();
    assert(piece_at_row(p, p.y as int) == p);
    let down = p.spec_translated(0, 1);
    if fuel != 0 && down.legal(g) {
        down.lemma_anchor_in_grid();
        lemma_landing_reached(g, down, (fuel - 1) as nat);
        let q = landing_from(g, down, (fuel - 1) as nat);
        assert forall|yy: int| p.y <= yy <= q.y implies (#[trigger] piece_at_row(p, yy)).legal(
            g,
        ) by {
            if yy > p.y {
                assert(piece_at_row(down, yy) == piece_at_row(p, yy));
            }
        }
    }
}

/// The landing projection is unique: any two pieces that both satisfy
/// `is_landing` for the same piece coincide.
pub proof fn lemma_landing_unique(g: Grid, p: Piece, q1: Piece, q2: Piece)
    requires
        is_landing(g, p, q1),
        is_landing(g, p, q2),
    ensures
        q1 == q2,
{
    if q1.y < q2.y {
        assert(piece_at_row(p, q1.y + 1).legal(g));
        assert(q1.spec_translated(0, 1) == piece_at_row(p, q1.y + 1));
    }
    if q2.y < q1.y {
        assert(piece_at_row(p, q2.y + 1).legal(g));
        assert(q2.spec_translated(0, 1) == piece_at_row(p, q2.y + 1));
    }
}

/// The full effect of dispatching one key on (piece, remembered key,
/// fast-drop flag): a repeat of a non-whitelisted key is suppressed and
/// forgotten, so a held key fires on every other frame; anything else
/// performs its action and is remembered.
pub open spec fn dispatched(
    g: Grid,
    op: Option<Piece>,
    prev: Option<GameKey>,
    fast: bool,
    k: GameKey,
) -> (Option<Piece>, Option<GameKey>, bool) {
    if prev == Some(k) && !auto_repeats(k) {
        (op, None, fast)
    } else {
        let op2 = match k {
            GameKey::Left => option_shifted(g, op, -1, 0),
            GameKey::Right => option_shifted(g, op, 1, 0),
            GameKey::Up => option_turned(g, op),
            GameKey::Down => op,
            GameKey::Space => match op {
                Some(p) => Some(spec_landing(g, p)),
                None => None,
            },
        };
        (op2, Some(k), if k == GameKey::Down {
            true
        } else {
            fast
        })
    }
}

/// `dispatched`, folded over a frame's keys from front to back.
pub open spec fn keys_folded(
    g: Grid,
    op: Option<Piece>,
    prev: Option<GameKey>,
    fast: bool,
    keys: Seq<GameKey>,
) -> (Option<Piece>, Option<GameKey>, bool)
    decreases keys.len(),
{
    if keys.len() == 0 {
        (op, prev, fast)
    } else {
        let h = dispatched(g, op, prev, fast, keys[0]);
        keys_folded(g, h.0, h.1, h.2, keys.drop_first())
    }
}

/// Folding one more key at the back dispatches it on the folded state.
pub proof fn lemma_keys_folded_snoc(
    g: Grid,
    op: Option<Piece>,
    prev: Option<GameKey>,
    fast: bool,
    keys: Seq<GameKey>,
    k: GameKey,
)
    ensures
        ({
            let t = keys_folded(g, op, prev, fast, keys);
            let d = dispatched(g, t.0, t.1, t.2, k);
            let w = keys_folded(g, op, prev, fast, keys.push(k));
            w.0 == d.0 && w.1 == d.1 && w.2 == d.2
        }),
    decreases keys.len(),
{
    if keys.len() == 0 {
        assert(keys.push(k)[0] == k);
        assert(keys.push(k).drop_first() =~= Seq::<GameKey>::empty());
        let h = dispatched(g, op, prev, fast, k);
        assert(keys_folded(g, h.0, h.1, h.2, Seq::<GameKey>::empty()) == (h.0, h.1, h.2));
    } else {
        assert(keys.push(k)[0] == keys[0]);
        assert(keys.push(k).drop_first() =~= keys.drop_first().push(k));
        let h = dispatched(g, op, prev, fast, keys[0]);
        lemma_keys_folded_snoc(g, h.0, h.1, h.2, keys.drop_first(), k);
        assert(keys_folded(g, op, prev, fast, keys) == keys_folded(
            g,
            h.0,
            h.1,
            h.2,
            keys.drop_first(),
        ));
    }
}

/// The engine: the playfield, the optional active piece, the lookahead
/// queue, gravity and input state, and the game-over banner animation.
pub struct GameState {
    /// The playfield, holding locked cells and the transient shadow cells.
    /// The active piece is not painted here; renderers overlay it.
    pub grid: Grid,
    /// The actively falling piece, absent before `init` and after game
    /// over.
    pub piece: Option<Piece>,
    /// The lookahead of upcoming kinds.
    pub queue: NextQueue,
    /// Running or game over.
    pub running: RunningState,
    /// How many rows have been cleared so far; saturates instead of
    /// wrapping.
    pub lines: u64,
    /// While engaged, gravity applies on every step.
    pub fast_drop: bool,
    /// The most recently dispatched key, for repeat suppression.
    pub prev_key: Option<GameKey>,
    /// The externally supplied step counter.
    pub step: usize,
    /// Banner position and speed of the game-over animation.
    pub banner_x: i32,
    /// See `banner_x`.
    pub banner_y: i32,
    /// Horizontal banner speed, always 1 or -1.
    pub banner_dx: i32,
    /// Vertical banner speed, always 1 or -1.
    pub banner_dy: i32,
}

impl GameState {
    /// The banner stays inside its bounce region and moves away from any
    /// edge it stands on.
    pub open spec fn banner_inv(self) -> bool {
        &&& 0 <= self.banner_x <= BANNER_REGION_W - BANNER_W
        &&& 0 <= self.banner_y <= BANNER_REGION_H - BANNER_H
        &&& (self.banner_dx == 1 || self.banner_dx == -1)
        &&& (self.banner_dy == 1 || self.banner_dy == -1)
        &&& (self.banner_x == 0 ==> self.banner_dx == 1)
        &&& (self.banner_x == BANNER_REGION_W - BANNER_W ==> self.banner_dx == -1)
        &&& (self.banner_y == 0 ==> self.banner_dy == 1)
        &&& (self.banner_y == BANNER_REGION_H - BANNER_H ==> self.banner_dy == -1)
    }

    /// The banner's starting placement, set whenever the game ends:
    /// centered near the top of the bounce region, moving down-right.
    pub open spec fn banner_at_start(self) -> bool {
        &&& self.banner_x == (BANNER_REGION_W - BANNER_W) / 2
        &&& self.banner_y == 2
        &&& self.banner_dx == 1
        &&& self.banner_dy == 1
    }

    /// The engine invariant: the playfield is well formed, the queue keeps
    /// its fixed length, the active piece — when present — stands legally
    /// inside the playfield, and the banner stays inside its region.
    pub open spec fn inv(self) -> bool {
        &&& self.grid.wf()
        &&& self.queue.wf()
        &&& match self.piece {
            Some(p) => p.wf() && p.legal(self.grid) && p.anchor_bounded(),
            None => true,
        }
        &&& self.banner_inv()
    }

    /// All fields except the playfield, the active piece, the remembered
    /// key and the fast-drop flag are unchanged.
    pub open spec fn same_meta(self, other: GameState) -> bool {
        &&& self.queue == other.queue
        &&& self.running == other.running
        &&& self.lines == other.lines
        &&& self.step == other.step
        &&& self.banner_x == other.banner_x
        &&& self.banner_y == other.banner_y
        &&& self.banner_dx == other.banner_dx
        &&& self.banner_dy == other.banner_dy
    }

    /// A fresh engine: empty playfield, no active piece, a randomly seeded
    /// queue, and the counters at zero.  `init` spawns the first piece.
    pub fn new() -> (s: GameState)
        ensures
            s.inv(),
            s.piece is None,
            s.running is Running,
            s.lines == 0,
            s.step == 0,
            s.fast_drop == false,
            s.prev_key is None,
            s.banner_at_start(),
            forall|x: int, y: int| pos_in_grid(x, y) ==> #[trigger] s.grid.cell_at(x, y)
                == Cell::Empty,
    {
        GameState {
            grid: Grid::new(),
            piece: None,
            queue: NextQueue::new_random(),
            running: RunningState::Running,
            lines: 0,
            fast_drop: false,
            prev_key: None,
            step: 0,
            banner_x: (BANNER_REGION_W - BANNER_W) / 2,
            banner_y: 2,
            banner_dx: 1,
            banner_dy: 1,
        }
    }

    /// An engine over a prepared playfield and queue, for hosts and tests
    /// that seed their own state.
    pub fn with_parts(grid: Grid, queue: NextQueue) -> (s: GameState)
        requires
            grid.wf(),
            queue.wf(),
        ensures
            s.inv(),
            s.grid == grid,
            s.queue == queue,
            s.piece is None,
            s.running is Running,
            s.lines == 0,
            s.step == 0,
            s.fast_drop == false,
            s.prev_key is None,
            s.banner_at_start(),
    {
        GameState {
            grid,
            piece: None,
            queue,
            running: RunningState::Running,
            lines: 0,
            fast_drop: false,
            prev_key: None,
            step: 0,
            banner_x: (BANNER_REGION_W - BANNER_W) / 2,
            banner_y: 2,
            banner_dx: 1,
            banner_dy: 1,
        }
    }

    /// Record the externally supplied step counter for this frame.
    pub fn set_step(&mut self, step: usize)
        requires
            old(self).inv(),
        ensures
            final(self).inv(),
            final(self).step == step,
            final(self).grid == old(self).grid,
            final(self).piece == old(self).piece,
            final(self).queue == old(self).queue,
            final(self).running == old(self).running,
            final(self).lines == old(self).lines,
            final(self).fast_drop == old(self).fast_drop,
            final(self).prev_key == old(self).prev_key,
            final(self).banner_x == old(self).banner_x,
            final(self).banner_y == old(self).banner_y,
            final(self).banner_dx == old(self).banner_dx,
            final(self).banner_dy == old(self).banner_dy,
    {
        self.step = step;
    }

    /// Read one playfield cell, e.g. for rendering.
    pub fn cell(&self, x: usize, y: usize) -> (c: Cell)
        requires
            self.inv(),
            x < GRID_WIDTH,
            y < GRID_HEIGHT,
        ensures
            c == self.grid.cell_at(x as int, y as int),
    {
        self.grid.get(x, y)
    }

    /// The active piece, if any.
    pub fn active_piece(&self) -> (p: Option<Piece>)
        ensures
            p == self.piece,
    {
        self.piece
    }

    /// The i-th upcoming kind; index 0 spawns next.
    pub fn upcoming(&self, i: usize) -> (k: ShapeKind)
        requires
            self.inv(),
            i < QUEUE_LEN,
        ensures
            k == self.queue@[i as int],
    {
        self.queue.peek(i)
    }

    /// How many rows have been cleared.
    pub fn lines_cleared(&self) -> (n: u64)
        ensures
            n == self.lines,
    {
        self.lines
    }

    /// True once the engine has reached its terminal game-over state.
    pub fn is_game_over(&self) -> (r: bool)
        ensures
            r == (self.running is GameOver),
    {
        match self.running {
            RunningState::GameOver => true,
            RunningState::Running => false,
        }
    }

    /// Where the bouncing game-over banner currently stands.
    pub fn banner_pos(&self) -> (p: (i32, i32))
        ensures
            p.0 == self.banner_x,
            p.1 == self.banner_y,
    {
        (self.banner_x, self.banner_y)
    }

    /// Attempt to move the active piece by one step in the given
    /// direction; an illegal move is rejected and changes nothing.
    fn try_shift(&mut self, dx: i32, dy: i32) -> (moved: bool)
        requires
            old(self).inv(),
            -1 <= dx <= 1,
            -1 <= dy <= 1,
        ensures
            final(self).inv(),
            final(self).grid == old(self).grid,
            final(self).same_meta(*old(self)),
            final(self).fast_drop == old(self).fast_drop,
            final(self).prev_key == old(self).prev_key,
            final(self).piece == option_shifted(
                old(self).grid,
                old(self).piece,
                dx as int,
                dy as int,
            ),
            moved == match old(self).piece {
                Some(p) => p.spec_translated(dx as int, dy as int).legal(old(self).grid),
                None => false,
            },
    {
        match self.piece {
            None => false,
            Some(p) => {
                proof {
                    p.lemma_anchor_in_grid();
                }
                let cand = p.translated(dx, dy);
                if cand.fits(&self.grid) {
                    self.piece = Some(cand);
                    proof {
                        cand.lemma_anchor_in_grid();
                    }
                    true
                } else {
                    false
                }
            },
        }
    }

    /// Move the active piece one column to the left; at the wall or
    /// against occupied cells the move is rejected and nothing changes.
    pub fn move_left(&mut self) -> (moved: bool)
        requires
            old(self).inv(),
        ensures
            final(self).inv(),
            final(self).grid == old(self).grid,
            final(self).same_meta(*old(self)),
            final(self).fast_drop == old(self).fast_drop,
            final(self).prev_key == old(self).prev_key,
            final(self).piece == option_shifted(old(self).grid, old(self).piece, -1, 0),
            moved == match old(self).piece {
                Some(p) => p.spec_translated(-1, 0).legal(old(self).grid),
                None => false,
            },
            match final (self).piece {
                Some(p) => p.in_grid(),
                None => true,
            },
    {
        self.try_shift(-1, 0)
    }

    /// Move the active piece one column to the right; at the wall or
    /// against occupied cells the move is rejected and nothing changes.
    pub fn move_right(&mut self) -> (moved: bool)
        requires
            old(self).inv(),
        ensures
            final(self).inv(),
            final(self).grid == old(self).grid,
            final(self).same_meta(*old(self)),
            final(self).fast_drop == old(self).fast_drop,
            final(self).prev_key == old(self).prev_key,
            final(self).piece == option_shifted(old(self).grid, old(self).piece, 1, 0),
            moved == match old(self).piece {
                Some(p) => p.spec_translated(1, 0).legal(old(self).grid),
                None => false,
            },
            match final (self).piece {
                Some(p) => p.in_grid(),
                None => true,
            },
    {
        self.try_shift(1, 0)
    }

    /// Rotate the active piece one quarter turn clockwise; there is no
    /// wall kick: an illegal rotation is rejected and nothing changes.
    pub fn rotate(&mut self) -> (turned: bool)
        requires
            old(self).inv(),
        ensures
            final(self).inv(),
            final(self).grid == old(self).grid,
            final(self).same_meta(*old(self)),
            final(self).fast_drop == old(self).fast_drop,
            final(self).prev_key == old(self).prev_key,
            final(self).piece == option_turned(old(self).grid, old(self).piece),
            turned == match old(self).piece {
                Some(p) => p.spec_rotated().legal(old(self).grid),
                None => false,
            },
            match final (self).piece {
                Some(p) => p.in_grid(),
                None => true,
            },
    {
        match self.piece {
            None => false,
            Some(p) => {
                let cand = p.rotated();
                if cand.fits(&self.grid) {
                    self.piece = Some(cand);
                    proof {
                        cand.lemma_anchor_in_grid();
                    }
                    true
                } else {
                    false
                }
            },
        }
    }

    /// Drop the active piece straight down to its landing position; it
    /// locks only on the next gravity step.
    pub fn hard_drop(&mut self)
        requires
            old(self).inv(),
        ensures
            final(self).inv(),
            final(self).grid == old(self).grid,
            final(self).same_meta(*old(self)),
            final(self).fast_drop == old(self).fast_drop,
            final(self).prev_key == old(self).prev_key,
            match (old(self).piece, final(self).piece) {
                (Some(p), Some(q)) => is_landing(old(self).grid, p, q) && q == spec_landing(
                    old(self).grid,
                    p,
                ),
                (None, None) => true,
                _ => false,
            },
            match final (self).piece {
                Some(p) => p.in_grid(),
                None => true,
            },
    {
        match self.piece {
            None => {},
            Some(p) => {
                let q = find_landing(&self.grid, p);
                self.piece = Some(q);
            },
        }
    }

    /// Pop the queue and spawn its front kind at the top-center spawn
    /// anchor with rotation 0.  A spawn into occupied cells ends the game:
    /// the engine turns to its terminal game-over state and the active
    /// piece stays absent.
    fn spawn_next(&mut self)
        requires
            old(self).grid.wf(),
            old(self).queue.wf(),
            old(self).banner_inv(),
        ensures
            final(self).inv(),
            final(self).grid == old(self).grid,
            final(self).lines == old(self).lines,
            final(self).step == old(self).step,
            final(self).fast_drop == old(self).fast_drop,
            final(self).prev_key == old(self).prev_key,
            final(self).queue.wf(),
            forall|i: int|
                0 <= i < QUEUE_LEN - 1 ==> #[trigger] final(self).queue@[i] == old(
                    self,
                ).queue@[i + 1],
            final(self).running is Running <==> (old(self).running is Running && spawn_piece(
                old(self).queue@[0],
            ).legal(old(self).grid)),
            spawn_piece(old(self).queue@[0]).legal(old(self).grid) ==> {
                &&& final(self).piece == Some(spawn_piece(old(self).queue@[0]))
                &&& final(self).running == old(self).running
                &&& final(self).banner_x == old(self).banner_x
                &&& final(self).banner_y == old(self).banner_y
                &&& final(self).banner_dx == old(self).banner_dx
                &&& final(self).banner_dy == old(self).banner_dy
            },
            !spawn_piece(old(self).queue@[0]).legal(old(self).grid) ==> {
                &&& final(self).piece is None
                &&& final(self).running is GameOver
                &&& final(self).banner_at_start()
            },
    {
        let k = self.queue.pop();
        let np = Piece { kind: k, rot: 0, x: SPAWN_X, y: 0 };
        proof {
            assert(np == spawn_piece(k));
        }
        if np.fits(&self.grid) {
            self.piece = Some(np);
            proof {
                np.lemma_anchor_in_grid();
            }
        } else {
            self.piece = None;
            self.running = RunningState::GameOver;
            self.banner_x = (BANNER_REGION_W - BANNER_W) / 2;
            self.banner_y = 2;
            self.banner_dx = 1;
            self.banner_dy = 1;
        }
    }

    /// Advance the bouncing game-over banner: every fourth step it moves
    /// by its speed, and the speed reflects at the region edges.
    fn advance_banner(&mut self)
        requires
            old(self).banner_inv(),
        ensures
            final(self).banner_inv(),
            final(self).grid == old(self).grid,
            final(self).piece == old(self).piece,
            final(self).queue == old(self).queue,
            final(self).running == old(self).running,
            final(self).lines == old(self).lines,
            final(self).fast_drop == old(self).fast_drop,
            final(self).prev_key == old(self).prev_key,
            final(self).step == old(self).step,
            old(self).step % 4 != 0 ==> {
                &&& final(self).banner_x == old(self).banner_x
                &&& final(self).banner_y == old(self).banner_y
                &&& final(self).banner_dx == old(self).banner_dx
                &&& final(self).banner_dy == old(self).banner_dy
            },
            old(self).step % 4 == 0 ==> {
                &&& final(self).banner_x == old(self).banner_x + old(self).banner_dx
                &&& final(self).banner_y == old(self).banner_y + old(self).banner_dy
                &&& final(self).banner_dx as int == (if final(self).banner_x == 0
                    || final(self).banner_x == BANNER_REGION_W - BANNER_W {
                    -(old(self).banner_dx as int)
                } else {
                    old(self).banner_dx as int
                })
                &&& final(self).banner_dy as int == (if final(self).banner_y == 0
                    || final(self).banner_y == BANNER_REGION_H - BANNER_H {
                    -(old(self).banner_dy as int)
                } else {
                    old(self).banner_dy as int
                })
            },
    {
        if self.step % 4 == 0 {
            self.banner_x = self.banner_x + self.banner_dx;
            self.banner_y = self.banner_y + self.banner_dy;
            if self.banner_x + BANNER_W == BANNER_REGION_W || self.banner_x == 0 {
                self.banner_dx = -self.banner_dx;
            }
            if self.banner_y + BANNER_H == BANNER_REGION_H || self.banner_y == 0 {
                self.banner_dy = -self.banner_dy;
            }
        }
    }

    /// Recompute the landing projection of the active piece and paint its
    /// cells as shadow; the playfield must hold no stale shadow cells, so
    /// that afterwards every shadow cell belongs to the fresh projection.
    fn paint_shadow(&mut self)
        requires
            old(self).inv(),
            old(self).piece is Some,
            shadow_free(old(self).grid),
        ensures
            final(self).inv(),
            final(self).piece == old(self).piece,
            final(self).same_meta(*old(self)),
            final(self).fast_drop == old(self).fast_drop,
            final(self).prev_key == old(self).prev_key,
            same_occupied(old(self).grid, final(self).grid),
            shadow_projected(*final(self)),
    {
        if let Some(p) = self.piece {
            let q = find_landing(&self.grid, p);
            let ghost gpre = self.grid;
            paint_piece_cells(&mut self.grid, q, Cell::Shadow);
            proof {
                assert forall|x: int, y: int| pos_in_grid(x, y) implies occ_part(
                    #[trigger] gpre.cell_at(x, y),
                ) == occ_part(self.grid.cell_at(x, y)) by {
                    if q.cells().contains((x, y)) {
                        let j = choose|j: int|
                            0 <= j < q.cells().len() && (#[trigger] q.cells()[j]) == (x, y);
                        assert(pos_in_grid(q.cells()[j].0, q.cells()[j].1));
                        assert(gpre.cell_at(x, y).is_free());
                    }
                }
                assert(same_occupied(gpre, self.grid));
                lemma_legal_same_occupied(gpre, self.grid, p);
                assert forall|yy: int| p.y <= yy <= q.y implies (#[trigger] piece_at_row(
                    p,
                    yy,
                )).legal(self.grid) by {
                    lemma_legal_same_occupied(gpre, self.grid, piece_at_row(p, yy));
                }
                lemma_legal_same_occupied(gpre, self.grid, q.spec_translated(0, 1));
                assert(is_landing(self.grid, p, q));
                assert forall|x: int, y: int| pos_in_grid(x, y) implies (((
                #[trigger] self.grid.cell_at(x, y)) is Shadow) <==> q.cells().contains(
                    (x, y),
                )) by {
                    if q.cells().contains((x, y)) {
                        assert(self.grid.cell_at(x, y) == Cell::Shadow);
                    } else {
                        assert(self.grid.cell_at(x, y) == gpre.cell_at(x, y));
                    }
                }
                assert(shadow_projected(*self));
            }
        } else {
            proof {
                assert(false);
            }
        }
    }

    /// One frame of the engine.  While running, shadows are stripped and
    /// recomputed every frame; on gravity frames the piece descends one
    /// row or — when it cannot — locks into the playfield, full rows
    /// compact away onto the lines counter, and the next queued piece
    /// spawns, ending the game if its spawn cells are taken.  Once the
    /// game is over only the banner animation advances; the playfield,
    /// piece, queue and counter never change again.
    pub fn update(&mut self)
        requires
            old(self).inv(),
        ensures
            final(self).inv(),
            match final (self).piece {
                Some(p) => p.in_grid(),
                None => true,
            },
            final(self).step == old(self).step,
            final(self).prev_key == old(self).prev_key,
            final(self).fast_drop == old(self).fast_drop,
            old(self).running is GameOver ==> {
                &&& final(self).grid == old(self).grid
                &&& final(self).piece == old(self).piece
                &&& final(self).queue == old(self).queue
                &&& final(self).lines == old(self).lines
                &&& final(self).running is GameOver
                &&& (old(self).step % 4 != 0 ==> final(self).banner_x == old(self).banner_x
                    && final(self).banner_y == old(self).banner_y && final(self).banner_dx == old(
                    self,
                ).banner_dx && final(self).banner_dy == old(self).banner_dy)
                &&& (old(self).step % 4 == 0 ==> final(self).banner_x == old(self).banner_x + old(
                    self,
                ).banner_dx && final(self).banner_y == old(self).banner_y + old(self).banner_dy)
                &&& (old(self).step % 4 == 0 ==> final(self).banner_dx as int == (if final(self).banner_x
                    == 0 || final(self).banner_x == BANNER_REGION_W - BANNER_W {
                    -(old(self).banner_dx as int)
                } else {
                    old(self).banner_dx as int
                }))
                &&& (old(self).step % 4 == 0 ==> final(self).banner_dy as int == (if final(self).banner_y
                    == 0 || final(self).banner_y == BANNER_REGION_H - BANNER_H {
                    -(old(self).banner_dy as int)
                } else {
                    old(self).banner_dy as int
                }))
            },
            old(self).running is Running ==> shadow_projected(*final(self)),
            old(self).running is Running && final(self).running is Running ==> {
                &&& final(self).banner_x == old(self).banner_x
                &&& final(self).banner_y == old(self).banner_y
                &&& final(self).banner_dx == old(self).banner_dx
                &&& final(self).banner_dy == old(self).banner_dy
            },
            old(self).running is Running && final(self).running is GameOver
                ==> final(self).banner_at_start(),
            old(self).running is Running && old(self).piece is None ==> {
                &&& same_occupied(old(self).grid, final(self).grid)
                &&& final(self).lines == old(self).lines
                &&& final(self).queue.wf()
                &&& forall|i: int|
                    0 <= i < QUEUE_LEN - 1 ==> #[trigger] final(self).queue@[i] == old(
                        self,
                    ).queue@[i + 1]
                &&& (final(self).running is Running <==> spawn_piece(old(self).queue@[0]).legal(
                    old(self).grid,
                ))
                &&& (final(self).running is Running ==> final(self).piece == Some(
                    spawn_piece(old(self).queue@[0]),
                ))
                &&& (final(self).running is GameOver ==> final(self).piece is None)
            },
            old(self).running is Running && !drop_frame(*old(self)) ==> match old(self).piece {
                Some(p) => {
                    &&& final(self).piece == old(self).piece
                    &&& same_occupied(old(self).grid, final(self).grid)
                    &&& final(self).queue == old(self).queue
                    &&& final(self).lines == old(self).lines
                    &&& final(self).running is Running
                },
                None => true,
            },
            old(self).running is Running && drop_frame(*old(self)) ==> match old(self).piece {
                Some(p) => if p.spec_translated(0, 1).legal(old(self).grid) {
                    &&& final(self).piece == Some(p.spec_translated(0, 1))
                    &&& same_occupied(old(self).grid, final(self).grid)
                    &&& final(self).queue == old(self).queue
                    &&& final(self).lines == old(self).lines
                    &&& final(self).running is Running
                } else {
                    &&& final(self).lines as int == lines_after(
                        old(self).lines,
                        full_row_count(locked_rows(old(self).grid, p)),
                    )
                    &&& forall|x: int, y: int|
                        pos_in_grid(x, y) ==> occ_part(#[trigger] final(self).grid.cell_at(x, y))
                            == occ_part(compacted(locked_rows(old(self).grid, p))[y][x])
                    &&& final(self).queue.wf()
                    &&& forall|i: int|
                        0 <= i < QUEUE_LEN - 1 ==> #[trigger] final(self).queue@[i] == old(
                            self,
                        ).queue@[i + 1]
                    &&& (final(self).running is Running <==> spawn_piece(
                        old(self).queue@[0],
                    ).legal(final(self).grid))
                    &&& (final(self).running is Running ==> final(self).piece == Some(
                        spawn_piece(old(self).queue@[0]),
                    ))
                    &&& (final(self).running is GameOver ==> final(self).piece is None)
                },
                None => true,
            },
    {
        match self.running {
            RunningState::GameOver => {
                self.advance_banner();
                return ;
            },
            RunningState::Running => {},
        }
        let ghost g0 = old(self).grid;
        self.grid.strip_shadows();
        proof {
            assert forall|x: int, y: int| pos_in_grid(x, y) implies occ_part(
                #[trigger] g0.cell_at(x, y),
            ) == occ_part(self.grid.cell_at(x, y)) by {
                assert(self.grid.cell_at(x, y) == strip_cell(g0.cell_at(x, y)));
            }
            assert(same_occupied(g0, self.grid));
            assert forall|x: int, y: int| pos_in_grid(x, y) implies !((
            #[trigger] self.grid.cell_at(x, y)) is Shadow) by {
                assert(self.grid.cell_at(x, y) == strip_cell(g0.cell_at(x, y)));
            }
            assert(shadow_free(self.grid));
            if let Some(p) = old(self).piece {
                lemma_legal_same_occupied(g0, self.grid, p);
            }
        }
        let ghost gstrip = self.grid;
        match self.piece {
            None => {
                proof {
                    lemma_legal_same_occupied(g0, self.grid, spawn_piece(self.queue@[0]));
                }
                self.spawn_next();
            },
            Some(p) => {
                let drop_now = self.fast_drop || self.step % DROP_PERIOD == 0;
                if drop_now {
                    proof {
                        p.lemma_anchor_in_grid();
                    }
                    let cand = p.translated(0, 1);
                    let fits = cand.fits(&self.grid);
                    proof {
                        lemma_legal_same_occupied(g0, self.grid, cand);
                    }
                    if fits {
                        self.piece = Some(cand);
                        proof {
                            cand.lemma_anchor_in_grid();
                        }
                    } else {
                        paint_piece_cells(&mut self.grid, p, Cell::Occupied(p.kind));
                        let ghost lr = locked_rows(g0, p);
                        proof {
                            assert forall|y: int| 0 <= y < GRID_HEIGHT implies #[trigger] self.grid.rows()[y] == lr[y] by {
                                assert(self.grid.rows()[y] == self.grid.row_seq(y));
                                assert forall|x: int| 0 <= x < GRID_WIDTH implies #[trigger] self.grid.row_seq(y)[x] == lr[y][x] by {
                                    assert(self.grid.row_seq(y)[x] == self.grid.cell_at(x, y));
                                    assert(gstrip.cell_at(x, y) == strip_cell(g0.cell_at(x, y)));
                                    assert(lr[y][x] == (if p.cells().contains((x, y)) {
                                        Cell::Occupied(p.kind)
                                    } else {
                                        strip_cell(g0.cell_at(x, y))
                                    }));
                                }
                                assert(self.grid.row_seq(y) =~= lr[y]);
                            }
                            assert(self.grid.rows() =~= lr);
                            assert forall|y: int, x: int|
                                0 <= y < lr.len() && 0 <= x < lr[y].len() implies !((
                            #[trigger] lr[y][x]) is Shadow) by {}
                            assert(rows_shadow_free(lr));
                        }
                        let n = self.grid.clear_full_rows();
                        proof {
                            assert(self.grid.rows() == compacted(lr));
                            assert(n as int == full_row_count(lr));
                            lemma_compacted_shadow_free(lr);
                            lemma_compacted_len(lr);
                            assert forall|x: int, y: int| pos_in_grid(x, y) implies #[trigger] self.grid.cell_at(x, y) == compacted(lr)[y][x] by {
                                assert(self.grid.rows()[y] == self.grid.row_seq(y));
                                assert(self.grid.row_seq(y)[x] == self.grid.cell_at(x, y));
                            }
                            assert forall|x: int, y: int| pos_in_grid(x, y) implies !((
                            #[trigger] self.grid.cell_at(x, y)) is Shadow) by {
                                assert(self.grid.cell_at(x, y) == compacted(lr)[y][x]);
                                assert(compacted(lr)[y].len() == GRID_WIDTH);
                            }
                            assert(shadow_free(self.grid));
                        }
                        let add = n as u64;
                        if self.lines <= u64::MAX - add {
                            self.lines = self.lines + add;
                        } else {
                            self.lines = u64::MAX;
                        }
                        self.spawn_next();
                    }
                }
            },
        }
        let ghost gmid = self.grid;
        let still_running = match self.running {
            RunningState::Running => true,
            RunningState::GameOver => false,
        };
        if still_running {
            match self.piece {
                Some(_) => {
                    self.paint_shadow();
                    proof {
                        if gmid == gstrip {
                            lemma_same_occupied_trans(g0, gmid, self.grid);
                        }
                        if let Some(p) = old(self).piece {
                            if drop_frame(*old(self)) && !p.spec_translated(0, 1).legal(g0) {
                                lemma_legal_same_occupied(
                                    gmid,
                                    self.grid,
                                    spawn_piece(old(self).queue@[0]),
                                );
                            }
                        }
                    }
                },
                None => {},
            }
        }
    }

    /// Process one key event with repeat suppression: a key equal to the
    /// previously dispatched one is suppressed for this frame — and the
    /// memory cleared, so a held key fires on every other frame — unless
    /// the key is whitelisted to auto-repeat.  A dispatched key is
    /// remembered.  Only the piece, the fast-drop flag and the key memory
    /// can change; the playfield never does.
    pub fn handle_key_down(&mut self, k: GameKey)
        requires
            old(self).inv(),
        ensures
            final(self).inv(),
            match final (self).piece {
                Some(p) => p.in_grid(),
                None => true,
            },
            final(self).grid == old(self).grid,
            final(self).same_meta(*old(self)),
            (final(self).piece, final(self).prev_key, final(self).fast_drop) == dispatched(
                old(self).grid,
                old(self).piece,
                old(self).prev_key,
                old(self).fast_drop,
                k,
            ),
    {
        let suppress = match self.prev_key {
            Some(pk) => pk == k && !auto_repeat_key(k),
            None => false,
        };
        if suppress {
            self.prev_key = None;
            return ;
        }
        match k {
            GameKey::Left => {
                let _moved = self.move_left();
            },
            GameKey::Right => {
                let _moved = self.move_right();
            },
            GameKey::Up => {
                let _turned = self.rotate();
            },
            GameKey::Down => {
                self.fast_drop = true;
            },
            GameKey::Space => {
                self.hard_drop();
            },
        }
        self.prev_key = Some(k);
    }

    /// Deliver one frame's set of held keys.  An empty set resets the
    /// repeat-suppression memory; otherwise every key is processed in
    /// order.  Fast drop is engaged exactly while the Down key is among
    /// the held keys.
    pub fn handle_keys_down(&mut self, keys: Vec<GameKey>)
        requires
            old(self).inv(),
        ensures
            final(self).inv(),
            match final (self).piece {
                Some(p) => p.in_grid(),
                None => true,
            },
            final(self).grid == old(self).grid,
            final(self).same_meta(*old(self)),
            final(self).fast_drop == keys@.contains(GameKey::Down),
            keys@.len() == 0 ==> final(self).piece == old(self).piece && final(self).prev_key
                is None,
            keys@.len() > 0 ==> (final(self).piece, final(self).prev_key,
            final(self).fast_drop) == keys_folded(
                old(self).grid,
                old(self).piece,
                old(self).prev_key,
                false,
                keys@,
            ),
    {
        self.fast_drop = false;
        if keys.is_empty() {
            self.prev_key = None;
            return ;
        }
        let mut i: usize = 0;
        proof {
            assert(keys@.subrange(0, 0) =~= Seq::<GameKey>::empty());
        }
        while i < keys.len()
            invariant
                self.inv(),
                i <= keys@.len(),
                0 < keys@.len(),
                self.grid == old(self).grid,
                self.same_meta(*old(self)),
                self.fast_drop == keys@.subrange(0, i as int).contains(GameKey::Down),
                (self.piece, self.prev_key, self.fast_drop) == keys_folded(
                    old(self).grid,
                    old(self).piece,
                    old(self).prev_key,
                    false,
                    keys@.subrange(0, i as int),
                ),
            decreases keys@.len() - i,
        {
            let k = keys[i];
            self.handle_key_down(k);
            proof {
                let sold = keys@.subrange(0, i as int);
                let snew = keys@.subrange(0, i as int + 1);
                assert(snew =~= sold.push(keys@[i as int]));
                lemma_keys_folded_snoc(
                    old(self).grid,
                    old(self).piece,
                    old(self).prev_key,
                    false,
                    sold,
                    keys@[i as int],
                );
                if sold.contains(GameKey::Down) {
                    let j = choose|j: int| 0 <= j < sold.len() && sold[j] == GameKey::Down;
                    assert(snew[j] == GameKey::Down);
                    assert(snew.contains(GameKey::Down));
                }
                if keys@[i as int] == GameKey::Down {
                    assert(snew[i as int] == GameKey::Down);
                    assert(snew.contains(GameKey::Down));
                }
                if snew.contains(GameKey::Down) {
                    let j = choose|j: int| 0 <= j < snew.len() && snew[j] == GameKey::Down;
                    if j < i as int {
                        assert(sold[j] == GameKey::Down);
                        assert(sold.contains(GameKey::Down));
                    } else {
                        assert(keys@[i as int] == GameKey::Down);
                    }
                }
            }
            i += 1;
        }
        proof {
            assert(keys@.subrange(0, keys@.len() as int) =~= keys@);
        }
    }

    /// Seed play: spawn the first piece from the front of the queue.  If
    /// its spawn cells are taken — impossible on an empty playfield — the
    /// engine ends immediately instead.
    pub fn init(&mut self)
        requires
            old(self).inv(),
        ensures
            final(self).inv(),
            final(self).grid == old(self).grid,
            final(self).lines == old(self).lines,
            final(self).step == old(self).step,
            final(self).fast_drop == old(self).fast_drop,
            final(self).prev_key == old(self).prev_key,
            final(self).queue.wf(),
            forall|i: int|
                0 <= i < QUEUE_LEN - 1 ==> #[trigger] final(self).queue@[i] == old(
                    self,
                ).queue@[i + 1],
            final(self).running is Running <==> (old(self).running is Running && spawn_piece(
                old(self).queue@[0],
            ).legal(old(self).grid)),
            spawn_piece(old(self).queue@[0]).legal(old(self).grid) ==> final(self).piece == Some(
                spawn_piece(old(self).queue@[0]),
            ) && final(self).banner_x == old(self).banner_x && final(self).banner_y == old(
                self,
            ).banner_y && final(self).banner_dx == old(self).banner_dx && final(self).banner_dy
                == old(self).banner_dy,
            !spawn_piece(old(self).queue@[0]).legal(old(self).grid) ==> final(self).piece is None
                && final(self).running is GameOver && final(self).banner_at_start(),
            match final (self).piece {
                Some(p) => p.in_grid(),
                None => true,
            },
    {
        self.spawn_next();
    }
}

/// The playfield rows right after the active piece locks: shadows are
/// stripped and the piece's four cells become occupied cells of its kind.
pub open spec fn locked_rows(g: Grid, p: Piece) -> Seq<Seq<Cell>> {
    Seq::new(
        GRID_HEIGHT as nat,
        |y: int|
            Seq::new(
                GRID_WIDTH as nat,
                |x: int|
                    if p.cells().contains((x, y)) {
                        Cell::Occupied(p.kind)
                    } else {
                        strip_cell(g.cell_at(x, y))
                    },
            ),
    )
}

/// The shadow cells on the playfield are exactly the cells of the freshly
/// recomputed landing projection of the active piece; without an active
/// piece no shadow cell exists at all.
pub open spec fn shadow_projected(s: GameState) -> bool {
    match s.piece {
        Some(p) => exists|q: Piece|
            (#[trigger] is_landing(s.grid, p, q)) && forall|x: int, y: int|
                pos_in_grid(x, y) ==> (((#[trigger] s.grid.cell_at(x, y)) is Shadow) <==> q.cells(
                ).contains((x, y))),
        None => shadow_free(s.grid),
    }
}

/// Whether gravity applies on this frame.
pub open spec fn drop_frame(s: GameState) -> bool {
    s.fast_drop || s.step % DROP_PERIOD == 0
}

/// The lines counter after n more cleared rows, saturating at the top of
/// u64 instead of wrapping.
pub open spec fn lines_after(lines: u64, n: int) -> int {
    if lines + n <= u64::MAX {
        lines + n
    } else {
        u64::MAX as int
    }
}

/// Paint the four cells of `q` with the cell value `c`; every other cell
/// keeps its content.
fn paint_piece_cells(g: &mut Grid, q: Piece, c: Cell)
    requires
        old(g).wf(),
        q.wf(),
        q.in_grid(),
    ensures
        final(g).wf(),
        forall|x: int, y: int|
            pos_in_grid(x, y) ==> #[trigger] final(g).cell_at(x, y) == (if q.cells().contains(
                (x, y),
            ) {
                c
            } else {
                old(g).cell_at(x, y)
            }),
{
    proof {
        q.lemma_anchor_in_grid();
        crate::shapes::lemma_shape_offsets_form(q.kind, q.rot as int);
    }
    let offs = crate::shapes::shape_cells(q.kind, q.rot);
    let mut i: usize = 0;
    while i < 4
        invariant
            g.wf(),
            q.wf(),
            q.in_grid(),
            i <= 4,
            0 <= q.x < GRID_WIDTH,
            0 <= q.y < GRID_HEIGHT,
            offs@.len() == 4,
            q.cells().len() == 4,
            forall|j: int|
                0 <= j < 4 ==> (#[trigger] offs@[j]).0 as int == crate::shapes::shape_offsets(
                    q.kind,
                    q.rot as int,
                )[j].0 && offs@[j].1 as int == crate::shapes::shape_offsets(q.kind, q.rot as int)[j].1,
            forall|j: int| 0 <= j < 4 ==> -2 <= (#[trigger] offs@[j]).0 <= 2 && -2 <= offs@[j].1
                <= 2,
            forall|x: int, y: int|
                pos_in_grid(x, y) ==> #[trigger] g.cell_at(x, y) == (if exists|j: int|
                    0 <= j < i && (#[trigger] q.cells()[j]) == (x, y) {
                    c
                } else {
                    old(g).cell_at(x, y)
                }),
        decreases 4 - i,
    {
        let (dx, dy) = offs[i];
        let cx = q.x + dx;
        let cy = q.y + dy;
        proof {
            assert(q.cells()[i as int] == (q.x + dx as int, q.y + dy as int));
            assert(pos_in_grid(q.cells()[i as int].0, q.cells()[i as int].1));
        }
        let ghost gpre = *g;
        g.set(cx as usize, cy as usize, c);
        proof {
            assert forall|x: int, y: int| pos_in_grid(x, y) implies #[trigger] g.cell_at(x, y) == (
            if exists|j: int| 0 <= j < i + 1 && (#[trigger] q.cells()[j]) == (x, y) {
                c
            } else {
                old(g).cell_at(x, y)
            }) by {
                if x == q.cells()[i as int].0 && y == q.cells()[i as int].1 {
                    assert(q.cells()[i as int] == (x, y));
                } else {
                    assert(g.cell_at(x, y) == gpre.cell_at(x, y));
                    if exists|j: int| 0 <= j < i + 1 && (#[trigger] q.cells()[j]) == (x, y) {
                        let j = choose|j: int| 0 <= j < i + 1 && (#[trigger] q.cells()[j]) == (
                        x,
                        y,
                        );
                        assert(j != i);
                        assert(exists|jj: int| 0 <= jj < i && (#[trigger] q.cells()[jj]) == (x, y));
                    }
                }
            }
        }
        i += 1;
    }
    proof {
        assert forall|x: int, y: int| pos_in_grid(x, y) implies #[trigger] g.cell_at(x, y) == (
        if q.cells().contains((x, y)) {
            c
        } else {
            old(g).cell_at(x, y)
        }) by {
            if q.cells().contains((x, y)) {
                let j = choose|j: int| 0 <= j < q.cells().len() && q.cells()[j] == (x, y);
                assert(0 <= j < 4 && (q.cells()[j]) == (x, y));
            } else {
                if exists|j: int| 0 <= j < 4 && (#[trigger] q.cells()[j]) == (x, y) {
                    let j = choose|j: int| 0 <= j < 4 && (#[trigger] q.cells()[j]) == (x, y);
                    assert(q.cells().contains((x, y)));
                }
            }
        }
    }
}

/// Walk the piece down one legal row at a time and return its landing
/// position: the lowest row reachable by consecutive legal descents.
fn find_landing(g: &Grid, p: Piece) -> (q: Piece)
    requires
        g.wf(),
        p.wf(),
        p.legal(*g),
        p.anchor_bounded(),
    ensures
        is_landing(*g, p, q),
        q == spec_landing(*g, p),
        q.wf(),
        q.anchor_bounded(),
        q.legal(*g),
{
    proof {
        p.lemma_anchor_in_grid();
        assert(piece_at_row(p, p.y as int) == p);
    }
    let mut q = p;
    loop
        invariant_except_break
            g.wf(),
            p.wf(),
            p.legal(*g),
            q.wf(),
            q.kind == p.kind,
            q.rot == p.rot,
            q.x == p.x,
            p.y <= q.y,
            0 <= q.y < GRID_HEIGHT,
            q.legal(*g),
            q.anchor_bounded(),
            forall|yy: int| p.y <= yy <= q.y ==> (#[trigger] piece_at_row(p, yy)).legal(*g),
        ensures
            is_landing(*g, p, q),
            q.wf(),
            q.anchor_bounded(),
            q.legal(*g),
        decreases GRID_HEIGHT - q.y,
    {
        let cand = q.translated(0, 1);
        if cand.fits(g) {
            proof {
                cand.lemma_anchor_in_grid();
                assert(piece_at_row(p, cand.y as int) == cand);
            }
            q = cand;
        } else {
            proof {
                assert(q.spec_translated(0, 1) == cand);
            }
            break ;
        }
    }
    proof {
        lemma_landing_reached(*g, p, GRID_HEIGHT as nat);
        lemma_landing_unique(*g, p, q, spec_landing(*g, p));
    }
    q
}

} // verus!
