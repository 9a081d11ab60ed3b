//! Helpers on sequences: the first of several possible failures, in order,
//! and what runs of sequences hold when they are laid end to end.

use vstd::multiset::group_multiset_axioms;
use vstd::prelude::*;
use vstd::seq_lib::lemma_multiset_commutative;

verus! {

/// The first value that is present in `s`, if any.
pub open spec fn first_some<T>(s: Seq<Option<T>>) -> Option<T>
    decreases s.len(),
{
    if s.len() == 0 {
        None
    } else if s[0] is Some {
        s[0]
    } else {
        first_some(s.drop_first())
    }
}

/// `first_some` finds the value at `i` when nothing is present before `i`.
pub proof fn lemma_first_some_at<T>(s: Seq<Option<T>>, i: int)
    requires
        0 <= i < s.len(),
        s[i] is Some,
        forall|j: int| 0 <= j < i ==> s[j] is None,
    ensures
        first_some(s) == s[i],
    decreases i,
{
    if i > 0 {
        let rest = s.drop_first();
        assert(rest[i - 1] == s[i]);
        assert forall|j: int| 0 <= j < i - 1 implies rest[j] is None by {
            assert(rest[j] == s[j + 1]);
        }
        lemma_first_some_at(rest, i - 1);
    }
}

/// `first_some` finds nothing where nothing is present.
pub proof fn lemma_first_some_none<T>(s: Seq<Option<T>>)
    requires
        forall|j: int| 0 <= j < s.len() ==> s[j] is None,
    ensures
        first_some(s) is None,
    decreases s.len(),
{
    if s.len() > 0 {
        let rest = s.drop_first();
        assert forall|j: int| 0 <= j < rest.len() implies rest[j] is None by {
            assert(rest[j] == s[j + 1]);
        }
        lemma_first_some_none(rest);
    }
}

/// Where anything is present, `first_some` finds the earliest such value;
/// the proof hands back its place.
pub proof fn lemma_first_some_found<T>(s: Seq<Option<T>>) -> (k: int)
    requires
        exists|i: int| 0 <= i < s.len() && s[i] is Some,
    ensures
        0 <= k < s.len(),
        s[k] is Some,
        first_some(s) == s[k],
        forall|j: int| 0 <= j < k ==> s[j] is None,
    decreases s.len(),
{
    if s[0] is Some {
        0
    } else {
        let rest = s.drop_first();
        let i = choose|i: int| 0 <= i < s.len() && s[i] is Some;
        assert(rest[i - 1] == s[i]);
        let k = lemma_first_some_found(rest);
        assert(rest[k] == s[k + 1]);
        assert forall|j: int| 0 <= j < k + 1 implies s[j] is None by {
            if j > 0 {
                assert(rest[j - 1] == s[j]);
            }
        }
        k + 1
    }
}

/// Where each sequence of `z` holds what the sequences of `x` and `y` at
/// the same place hold together, all of `z` laid end to end holds what all of
/// `x` and all of `y` hold together.
pub proof fn lemma_flatten_parts<A>(x: Seq<Seq<A>>, y: Seq<Seq<A>>, z: Seq<Seq<A>>)
    requires
        x.len() == z.len(),
        y.len() == z.len(),
        forall|i: int|
            0 <= i < z.len() ==> x[i].to_multiset().add(y[i].to_multiset()) == (
            #[trigger] z[i]).to_multiset(),
    ensures
        x.flatten().to_multiset().add(y.flatten().to_multiset()) == z.flatten().to_multiset(),
    decreases z.len(),
{
    broadcast use group_multiset_axioms;

    if z.len() == 0 {
        assert(x.flatten() =~= z.flatten());
        assert(y.flatten() =~= z.flatten());
        vstd::seq_lib::to_multiset_len(z.flatten());
        vstd::multiset::lemma_multiset_empty_len(z.flatten().to_multiset());
        assert(x.flatten().to_multiset().add(y.flatten().to_multiset())
            =~= z.flatten().to_multiset());
    } else {
        let (xb, yb, zb) = (x.drop_last(), y.drop_last(), z.drop_last());
        assert forall|i: int| 0 <= i < zb.len() implies xb[i].to_multiset().add(
            yb[i].to_multiset(),
        ) == (#[trigger] zb[i]).to_multiset() by {
            assert(zb[i] == z[i]);
        }
        lemma_flatten_parts(xb, yb, zb);
        assert(x =~= xb.push(x.last()));
        assert(y =~= yb.push(y.last()));
        assert(z =~= zb.push(z.last()));
        xb.lemma_flatten_push(x.last());
        yb.lemma_flatten_push(y.last());
        zb.lemma_flatten_push(z.last());
        lemma_multiset_commutative(xb.flatten(), x.last());
        lemma_multiset_commutative(yb.flatten(), y.last());
        lemma_multiset_commutative(zb.flatten(), z.last());
        assert(z.last() == z[z.len() - 1]);
        assert(x.flatten().to_multiset().add(y.flatten().to_multiset())
            =~= z.flatten().to_multiset());
    }
}

} // verus!
