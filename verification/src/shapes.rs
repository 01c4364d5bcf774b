use rand::Rng;
use vstd::prelude::*;

verus! {

/// The seven tetromino kinds of the catalogue.
#[derive(Clone, Copy, PartialEq, Eq, Structural, Debug)]
pub enum ShapeKind {
    I,
    O,
    T,
    S,
    Z,
    J,
    L,
}

/// How many kinds the catalogue holds.
pub const KIND_COUNT: u32 = 7;

/// Offsets, relative to the anchor, of the four cells a shape covers in its
/// base orientation.  The y axis points down, so every base orientation fits
/// in the two rows at and below the anchor, which lets a freshly spawned
/// piece stand on the top row.  Every shape covers its own anchor: the
/// offset (0, 0) stands at index 1 of every list.
pub open spec fn base_offsets(kind: ShapeKind) -> Seq<(int, int)> {
    match kind {
        ShapeKind::I => seq![(-1, 0), (0, 0), (1, 0), (2, 0)],
        ShapeKind::O => seq![(1, 0), (0, 0), (0, 1), (1, 1)],
        ShapeKind::T => seq![(-1, 0), (0, 0), (1, 0), (0, 1)],
        ShapeKind::S => seq![(1, 0), (0, 0), (0, 1), (-1, 1)],
        ShapeKind::Z => seq![(-1, 0), (0, 0), (0, 1), (1, 1)],
        ShapeKind::J => seq![(-1, 0), (0, 0), (1, 0), (-1, 1)],
        ShapeKind::L => seq![(-1, 0), (0, 0), (1, 0), (1, 1)],
    }
}

/// One clockwise quarter turn of a relative offset (clockwise as seen on
/// screen, where the y axis points down).
pub open spec fn turn_offset(o: (int, int)) -> (int, int) {
    (-o.1, o.0)
}

/// The cell offsets of `kind` after `rot` clockwise quarter turns.
pub open spec fn shape_offsets(kind: ShapeKind, rot: int) -> Seq<(int, int)>
    decreases rot,
{
    if rot <= 0 {
        base_offsets(kind)
    } else {
        shape_offsets(kind, rot - 1).map_values(|o: (int, int)| turn_offset(o))
    }
}

/// Every orientation of every shape has exactly four cells, covers its
/// anchor at index 1, and keeps each offset coordinate within [-2, 2].
pub proof fn lemma_shape_offsets_form(kind: ShapeKind, rot: int)
    requires
        0 <= rot,
    ensures
        shape_offsets(kind, rot).len() == 4,
        shape_offsets(kind, rot)[1] == (0int, 0int),
        forall|i: int| 0 <= i < 4 ==> -2 <= (#[trigger] shape_offsets(kind, rot)[i]).0 <= 2
            && -2 <= shape_offsets(kind, rot)[i].1 <= 2,
    decreases rot,
{
    if rot == 0 {
        match kind {
            ShapeKind::I => {
                assert(base_offsets(kind) =~= seq![(-1int, 0int), (0, 0), (1, 0), (2, 0)]);
            },
            ShapeKind::O => {
                assert(base_offsets(kind) =~= seq![(1int, 0int), (0, 0), (0, 1), (1, 1)]);
            },
            ShapeKind::T => {
                assert(base_offsets(kind) =~= seq![(-1int, 0int), (0, 0), (1, 0), (0, 1)]);
            },
            ShapeKind::S => {
                assert(base_offsets(kind) =~= seq![(1int, 0int), (0, 0), (0, 1), (-1, 1)]);
            },
            ShapeKind::Z => {
                assert(base_offsets(kind) =~= seq![(-1int, 0int), (0, 0), (0, 1), (1, 1)]);
            },
            ShapeKind::J => {
                assert(base_offsets(kind) =~= seq![(-1int, 0int), (0, 0), (1, 0), (-1, 1)]);
            },
            ShapeKind::L => {
                assert(base_offsets(kind) =~= seq![(-1int, 0int), (0, 0), (1, 0), (1, 1)]);
            },
        }
    } else {
        lemma_shape_offsets_form(kind, rot - 1);
        assert(shape_offsets(kind, rot)
            == shape_offsets(kind, rot - 1).map_values(|o: (int, int)| turn_offset(o)));
    }
}

/// The four cell offsets of `kind` in its base orientation, as runtime
/// values matching `base_offsets`.
fn base_cells(kind: ShapeKind) -> (v: Vec<(i32, i32)>)
    ensures
        v@.len() == 4,
        forall|i: int| 0 <= i < 4 ==> (#[trigger] v@[i]).0 as int == base_offsets(kind)[i].0
            && v@[i].1 as int == base_offsets(kind)[i].1,
{
    let mut v: Vec<(i32, i32)> = Vec::new();
    match kind {
        ShapeKind::I => {
            v.push((-1, 0));
            v.push((0, 0));
            v.push((1, 0));
            v.push((2, 0));
        },
        ShapeKind::O => {
            v.push((1, 0));
            v.push((0, 0));
            v.push((0, 1));
            v.push((1, 1));
        },
        ShapeKind::T => {
            v.push((-1, 0));
            v.push((0, 0));
            v.push((1, 0));
            v.push((0, 1));
        },
        ShapeKind::S => {
            v.push((1, 0));
            v.push((0, 0));
            v.push((0, 1));
            v.push((-1, 1));
        },
        ShapeKind::Z => {
            v.push((-1, 0));
            v.push((0, 0));
            v.push((0, 1));
            v.push((1, 1));
        },
        ShapeKind::J => {
            v.push((-1, 0));
            v.push((0, 0));
            v.push((1, 0));
            v.push((-1, 1));
        },
        ShapeKind::L => {
            v.push((-1, 0));
            v.push((0, 0));
            v.push((1, 0));
            v.push((1, 1));
        },
    }
    v
}

/// The four cell offsets of `kind` after `rot` clockwise quarter turns, as
/// runtime values matching `shape_offsets`.
pub fn shape_cells(kind: ShapeKind, rot: u8) -> (v: Vec<(i32, i32)>)
    requires
        rot < 4,
    ensures
        v@.len() == 4,
        forall|i: int| 0 <= i < 4 ==> (#[trigger] v@[i]).0 as int == shape_offsets(
            kind,
            rot as int,
        )[i].0 && v@[i].1 as int == shape_offsets(kind, rot as int)[i].1,
        forall|i: int| 0 <= i < 4 ==> -2 <= (#[trigger] v@[i]).0 <= 2 && -2 <= v@[i].1 <= 2,
{
    let mut v = base_cells(kind);
    proof {
        lemma_shape_offsets_form(kind, 0);
    }
    let mut k: u8 = 0;
    while k < rot
        invariant
            k <= rot < 4,
            v@.len() == 4,
            forall|i: int| 0 <= i < 4 ==> (#[trigger] v@[i]).0 as int == shape_offsets(
                kind,
                k as int,
            )[i].0 && v@[i].1 as int == shape_offsets(kind, k as int)[i].1,
            forall|i: int| 0 <= i < 4 ==> -2 <= (#[trigger] v@[i]).0 <= 2 && -2 <= v@[i].1 <= 2,
        decreases rot - k,
    {
        let ghost w = v@;
        let mut j: usize = 0;
        while j < 4
            invariant
                j <= 4,
                v@.len() == 4,
                w.len() == 4,
                forall|i: int| 0 <= i < 4 ==> -2 <= (#[trigger] w[i]).0 <= 2 && -2 <= w[i].1 <= 2,
                forall|i: int| 0 <= i < 4 ==> (#[trigger] w[i]).0 as int == shape_offsets(
                    kind,
                    k as int,
                )[i].0 && w[i].1 as int == shape_offsets(kind, k as int)[i].1,
                forall|i: int| 0 <= i < j ==> (#[trigger] v@[i]).0 == -w[i].1 && v@[i].1 == w[i].0,
                forall|i: int| j <= i < 4 ==> #[trigger] v@[i] == w[i],
            decreases 4 - j,
        {
            let (dx, dy) = v[j];
            v.set(j, (-dy, dx));
            j += 1;
        }
        proof {
            lemma_shape_offsets_form(kind, k as int);
            assert(shape_offsets(kind, k as int + 1) == shape_offsets(kind, k as int).map_values(
                |o: (int, int)| turn_offset(o),
            ));
            assert forall|i: int| 0 <= i < 4 implies (#[trigger] v@[i]).0 as int == shape_offsets(
                kind,
                k as int + 1,
            )[i].0 && v@[i].1 as int == shape_offsets(kind, k as int + 1)[i].1 by {
                assert(shape_offsets(kind, k as int + 1)[i] == turn_offset(
                    shape_offsets(kind, k as int)[i],
                ));
            }
        }
        k = k + 1;
    }
    v
}

/// Relies on rand::Rng::gen_range on the thread-local generator: the sample
/// lies in the half-open range 0..n, which is non-empty because n > 0.
#[verifier::external_body]
fn sample_below(n: u32) -> (r: u32)
    requires
        0 < n,
    ensures
        r < n,
{
    rand::thread_rng().gen_range(0..n)
}

/// The shape kind at a catalogue index.
pub open spec fn kind_at(i: int) -> ShapeKind {
    if i == 0 {
        ShapeKind::I
    } else if i == 1 {
        ShapeKind::O
    } else if i == 2 {
        ShapeKind::T
    } else if i == 3 {
        ShapeKind::S
    } else if i == 4 {
        ShapeKind::Z
    } else if i == 5 {
        ShapeKind::J
    } else {
        ShapeKind::L
    }
}

/// Runtime lookup matching `kind_at`.
pub fn kind_from_index(i: u32) -> (k: ShapeKind)
    requires
        i < KIND_COUNT,
    ensures
        k == kind_at(i as int),
{
    match i {
        0 => ShapeKind::I,
        1 => ShapeKind::O,
        2 => ShapeKind::T,
        3 => ShapeKind::S,
        4 => ShapeKind::Z,
        5 => ShapeKind::J,
        _ => ShapeKind::L,
    }
}

/// A shape kind drawn uniformly at random from the full catalogue; the draw
/// carries no anti-repeat guarantee.
pub fn random_kind() -> ShapeKind {
    kind_from_index(sample_below(KIND_COUNT))
}

} // verus!
