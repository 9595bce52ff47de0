//! Small shared helpers.
use vstd::prelude::*;

verus! {

/// Hands out the identifiers 1, 2, 3, ... in turn.
pub struct IdGenerator {
    next: i32,
}

impl IdGenerator {
    /// The identifier that the next call of `next` gives.
    pub closed spec fn spec_next(self) -> i32 {
        self.next
    }

    pub fn new() -> (r: Self)
        ensures
            r.spec_next() == 1,
    {
        IdGenerator { next: 1 }
    }

    /// The next identifier; the counter cannot pass `i32::MAX`.
    pub fn next(&mut self) -> (r: i32)
        requires
            old(self).spec_next() < i32::MAX,
        ensures
            r == old(self).spec_next(),
            final(self).spec_next() == old(self).spec_next() + 1,
    {
        let result = self.next;
        self.next = self.next + 1;
        result
    }
}

/// Identifiers handed out one after the other never repeat: along a run of calls of `next`,
/// where each call leaves the counter one above where it found it, the identifier handed out at
/// call `j` is `j - i` above the one handed out at call `i`.
pub proof fn lemma_ids_never_repeat(states: Seq<IdGenerator>)
    requires
        forall|k: int|
            0 <= k < states.len() - 1 ==> #[trigger] states[k + 1].spec_next() == states[k].spec_next()
                + 1,
    ensures
        forall|i: int, j: int|
            0 <= i <= j < states.len() ==> #[trigger] states[j].spec_next() == #[trigger] states[
                i].spec_next() + (j - i),
        forall|i: int, j: int|
            0 <= i < j < states.len() ==> #[trigger] states[i].spec_next() < #[trigger] states[j].spec_next(),
    decreases states.len(),
{
    if states.len() > 0 {
        let prefix = states.drop_last();
        assert forall|k: int| 0 <= k < prefix.len() - 1 implies #[trigger] prefix[k + 1].spec_next()
            == prefix[k].spec_next() + 1 by {
            assert(states[k + 1].spec_next() == states[k].spec_next() + 1);
        }
        lemma_ids_never_repeat(prefix);
        let last = states.len() - 1;
        assert forall|i: int, j: int| 0 <= i <= j < states.len() implies #[trigger] states[j].spec_next()
            == #[trigger] states[i].spec_next() + (j - i) by {
            if j < last {
                assert(prefix[j].spec_next() == prefix[i].spec_next() + (j - i));
            } else if i < j {
                let k = last - 1;
                assert(states[k + 1].spec_next() == states[k].spec_next() + 1);
                assert(prefix[last - 1].spec_next() == prefix[i].spec_next() + (last - 1 - i));
            }
        }
        assert forall|i: int, j: int| 0 <= i < j < states.len() implies #[trigger] states[i].spec_next()
            < #[trigger] states[j].spec_next() by {
            assert(states[j].spec_next() == states[i].spec_next() + (j - i));
        }
    }
}

} // verus!
