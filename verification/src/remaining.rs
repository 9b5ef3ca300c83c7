//! The part of an input that has not been read yet.

use vstd::prelude::*;

verus! {

/// What is left of `s` once its first `n` items are read: nothing, if
/// there are no more than `n`.
pub open spec fn rest_after<A>(s: Seq<A>, n: nat) -> Seq<A> {
    if n <= s.len() {
        s.skip(n as int)
    } else {
        Seq::empty()
    }
}

/// Reading `a` items and then `b` more leaves what reading `a + b` leaves.
pub proof fn lemma_rest_after_twice<A>(s: Seq<A>, a: nat, b: nat)
    ensures
        rest_after(rest_after(s, a), b) == rest_after(s, a + b),
{
    assert(rest_after(rest_after(s, a), b) =~= rest_after(s, a + b));
}

} // verus!
