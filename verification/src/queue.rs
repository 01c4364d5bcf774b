use crate::shapes::{random_kind, ShapeKind};
use vstd::prelude::*;

verus! {

/// How many upcoming kinds the lookahead holds.
pub const QUEUE_LEN: usize = 3;

/// The fixed-length lookahead of upcoming shape kinds: index 0 is the
/// front, the kind that spawns next.
pub struct NextQueue {
    kinds: Vec<ShapeKind>,
}

impl View for NextQueue {
    type V = Seq<ShapeKind>;

    closed spec fn view(&self) -> Seq<ShapeKind> {
        self.kinds@
    }
}

impl NextQueue {
    /// The queue always holds exactly QUEUE_LEN kinds.
    pub open spec fn wf(self) -> bool {
        self@.len() == QUEUE_LEN
    }

    /// A queue seeded with the given kinds, front first, so that hosts and
    /// tests can inject a deterministic sequence.
    pub fn from_kinds(kinds: Vec<ShapeKind>) -> (q: NextQueue)
        requires
            kinds@.len() == QUEUE_LEN,
        ensures
            q.wf(),
            q@ == kinds@,
    {
        NextQueue { kinds }
    }

    /// A queue seeded with uniformly random kinds.
    pub fn new_random() -> (q: NextQueue)
        ensures
            q.wf(),
    {
        let mut kinds: Vec<ShapeKind> = Vec::new();
        let mut i: usize = 0;
        while i < QUEUE_LEN
            invariant
                i <= QUEUE_LEN,
                kinds@.len() == i,
            decreases QUEUE_LEN - i,
        {
            kinds.push(random_kind());
            i += 1;
        }
        NextQueue { kinds }
    }

    /// The i-th upcoming kind; index 0 is the front.
    pub fn peek(&self, i: usize) -> (k: ShapeKind)
        requires
            self.wf(),
            i < QUEUE_LEN,
        ensures
            k == self@[i as int],
    {
        self.kinds[i]
    }

    /// Pop the front kind and append one fresh uniformly random kind at the
    /// back: the returned kind is the pre-pop front, the remaining kinds
    /// move up one slot keeping their order, and the length stays
    /// QUEUE_LEN.
    pub fn pop(&mut self) -> (k: ShapeKind)
        requires
            old(self).wf(),
        ensures
            final(self).wf(),
            k == old(self)@[0],
            forall|i: int|
                0 <= i < QUEUE_LEN - 1 ==> #[trigger] final(self)@[i] == old(self)@[i + 1],
    {
        let k = self.kinds.remove(0);
        self.kinds.push(random_kind());
        k
    }
}

} // verus!
