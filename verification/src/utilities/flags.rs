//! Flags that are set one by one: how many are still to be set.

use vstd::prelude::*;

verus! {

/// How many of the first `upto` flags are not set.
pub open spec fn pending(flags: Seq<bool>, upto: int) -> nat
    decreases upto,
{
    if upto <= 0 {
        0
    } else {
        pending(flags, upto - 1) + if flags[upto - 1] {
            0nat
        } else {
            1nat
        }
    }
}

/// Setting a flag that was not set leaves one less to set.
pub proof fn lemma_pending_update(flags: Seq<bool>, t: int, upto: int)
    requires
        0 <= t < flags.len(),
        0 <= upto <= flags.len(),
        !flags[t],
    ensures
        pending(flags.update(t, true), upto) == pending(flags, upto) - if t < upto {
            1int
        } else {
            0int
        },
    decreases upto,
{
    if upto > 0 {
        lemma_pending_update(flags, t, upto - 1);
    }
}

/// None is left to set where every flag is set, and only there; there are
/// never more to set than there are flags.
pub proof fn lemma_pending(flags: Seq<bool>, upto: int)
    requires
        0 <= upto <= flags.len(),
    ensures
        (forall|t: int| 0 <= t < upto ==> flags[t]) <==> pending(flags, upto) == 0,
        pending(flags, upto) <= upto,
    decreases upto,
{
    if upto > 0 {
        lemma_pending(flags, upto - 1);
        if forall|t: int| 0 <= t < upto ==> flags[t] {
            assert forall|t: int| 0 <= t < upto - 1 implies flags[t] by {}
        }
        if pending(flags, upto) == 0 {
            assert forall|t: int| 0 <= t < upto implies flags[t] by {
                if t < upto - 1 {
                }
            }
        }
    }
}

/// Adding a flag behind the first `upto` does not change how many of them
/// are left to set.
pub proof fn lemma_pending_prefix(short: Seq<bool>, long: Seq<bool>, upto: int)
    requires
        0 <= upto <= short.len() <= long.len(),
        forall|i: int| 0 <= i < short.len() ==> short[i] == long[i],
    ensures
        pending(short, upto) == pending(long, upto),
    decreases upto,
{
    if upto > 0 {
        lemma_pending_prefix(short, long, upto - 1);
    }
}

} // verus!
