//! Bounded speed histories: append one sample, drop the oldest past the cap.

use vstd::prelude::*;
use std::collections::VecDeque;

verus! {

/// The number of samples a history keeps.
pub const SPARKLINE_HISTORY_LENGTH: usize = 60;

/// `h` with `x` appended and, when that exceeds the cap, its oldest sample dropped.
pub open spec fn push_capped(h: Seq<u64>, x: u64) -> Seq<u64> {
    let p = h.push(x);
    if p.len() > SPARKLINE_HISTORY_LENGTH {
        p.drop_first()
    } else {
        p
    }
}

/// Appends `x` to the history, evicting the oldest sample when the cap is exceeded.
pub fn push_sample(h: &mut VecDeque<u64>, x: u64)
    ensures
        final(h)@ == push_capped(old(h)@, x),
{
    h.push_back(x);
    if h.len() > SPARKLINE_HISTORY_LENGTH {
        h.pop_front();
    }
}

/// A history within the cap stays within it after a push; the new sample is the
/// last one; and a full history loses exactly its oldest sample, the others
/// keeping their order.
pub proof fn lemma_push_capped_bounded_fifo(h: Seq<u64>, x: u64)
    requires
        h.len() <= SPARKLINE_HISTORY_LENGTH,
    ensures
        push_capped(h, x).len() <= SPARKLINE_HISTORY_LENGTH,
        push_capped(h, x).last() == x,
        h.len() < SPARKLINE_HISTORY_LENGTH ==> push_capped(h, x) == h.push(x),
        h.len() == SPARKLINE_HISTORY_LENGTH ==> push_capped(h, x) == h.drop_first().push(x),
{
    if h.len() == SPARKLINE_HISTORY_LENGTH {
        assert(h.push(x).drop_first() == h.drop_first().push(x));
    }
}

} // verus!
