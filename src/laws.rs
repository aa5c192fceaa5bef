//! What holds of any run of appends to one buffer.
//!
//! A run is given by the bytes the buffer held before each append and after
//! the last (`states`), the bytes of each fragment (`parts`), and whether each
//! append was taken (`oks`). Consecutive states are related as one call of
//! `StrBuf::append` relates them.
use vstd::prelude::*;

use crate::buffer::StrBuf;

verus! {

/// The number of bytes in the fragments of `parts` that were taken.
pub open spec fn accepted_len(parts: Seq<Seq<u8>>, oks: Seq<bool>) -> nat
    decreases parts.len(),
{
    if parts.len() == 0 || oks.len() == 0 {
        0
    } else {
        accepted_len(parts.drop_last(), oks.drop_last()) + if oks.last() {
            parts.last().len()
        } else {
            0
        }
    }
}

impl<const N: usize> StrBuf<N> {
    /// A run of appends: each state follows from the one before it by one append.
    pub open spec fn is_run(states: Seq<Seq<u8>>, parts: Seq<Seq<u8>>, oks: Seq<bool>) -> bool {
        &&& states.len() == parts.len() + 1
        &&& oks.len() == parts.len()
        &&& forall|i: int|
            0 <= i < parts.len() ==> #[trigger] Self::append_outcome(
                states[i],
                parts[i],
                states[i + 1],
                oks[i],
            )
    }

    /// In a run of appends the buffer grows by exactly the bytes of the
    /// fragments that were taken, and never holds more than `N` bytes.
    pub proof fn lemma_capacity_bound(states: Seq<Seq<u8>>, parts: Seq<Seq<u8>>, oks: Seq<bool>)
        requires
            Self::is_run(states, parts, oks),
            states[0].len() <= N,
        ensures
            states.last().len() == states[0].len() + accepted_len(parts, oks),
            forall|i: int| 0 <= i < states.len() ==> #[trigger] states[i].len() <= N,
        decreases parts.len(),
    {
        if parts.len() > 0 {
            let k = parts.len() - 1;
            let s = states.drop_last();
            let p = parts.drop_last();
            let o = oks.drop_last();
            assert forall|i: int| 0 <= i < p.len() implies #[trigger] Self::append_outcome(
                s[i],
                p[i],
                s[i + 1],
                o[i],
            ) by {
                assert(Self::append_outcome(states[i], parts[i], states[i + 1], oks[i]));
            }
            Self::lemma_capacity_bound(s, p, o);
            assert(Self::append_outcome(states[k], parts[k], states[k + 1], oks[k]));
            assert forall|i: int| 0 <= i < states.len() implies #[trigger] states[i].len() <= N by {
                if i < states.len() - 1 {
                    assert(states[i] == s[i]);
                }
            }
        }
    }

    /// In a run of appends, what the buffer held at one point is a prefix of
    /// what it holds at every later point: its length never goes down.
    pub proof fn lemma_monotone(states: Seq<Seq<u8>>, parts: Seq<Seq<u8>>, oks: Seq<bool>)
        requires
            Self::is_run(states, parts, oks),
        ensures
            forall|i: int, j: int|
                0 <= i <= j < states.len() ==> #[trigger] states[i].is_prefix_of(#[trigger] states[j]),
        decreases parts.len(),
    {
        if parts.len() > 0 {
            let k = parts.len() - 1;
            let s = states.drop_last();
            let p = parts.drop_last();
            let o = oks.drop_last();
            assert forall|i: int| 0 <= i < p.len() implies #[trigger] Self::append_outcome(
                s[i],
                p[i],
                s[i + 1],
                o[i],
            ) by {
                assert(Self::append_outcome(states[i], parts[i], states[i + 1], oks[i]));
            }
            Self::lemma_monotone(s, p, o);
            assert(Self::append_outcome(states[k], parts[k], states[k + 1], oks[k]));
            assert(states[k].is_prefix_of(states[k + 1])) by {
                assert(states[k] =~= states[k + 1].subrange(0, states[k].len() as int));
            }
            assert forall|i: int, j: int| 0 <= i <= j < states.len() implies #[trigger] states[i].is_prefix_of(
                #[trigger] states[j],
            ) by {
                if j < states.len() - 1 {
                    assert(states[i] == s[i] && states[j] == s[j]);
                } else if i == j {
                    assert(states[i] =~= states[j].subrange(0, states[i].len() as int));
                } else {
                    assert(states[i] == s[i] && states[k] == s[k]);
                    assert(s[i].is_prefix_of(s[k]));
                    assert(states[i] =~= states[j].subrange(0, states[i].len() as int));
                }
            }
        }
    }
}

} // verus!
