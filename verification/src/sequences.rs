//! Sequences put together from the pieces that others give.

use vstd::prelude::*;

verus! {

/// What each element gives, one after the other.
pub open spec fn gathered<A, T>(s: Seq<A>, give: spec_fn(A) -> Seq<T>) -> Seq<T>
    decreases s.len(),
{
    if s.len() == 0 {
        Seq::empty()
    } else {
        give(s[0]) + gathered(s.skip(1), give)
    }
}

/// A value as a sequence, where it is to be there.
pub open spec fn only_if<T>(there: bool, value: T) -> Seq<T> {
    if there {
        seq![value]
    } else {
        Seq::empty()
    }
}

/// What two sequences give together is what the first gives and then the second.
pub proof fn gathered_of_both<A, T>(s: Seq<A>, t: Seq<A>, give: spec_fn(A) -> Seq<T>)
    ensures
        gathered(s + t, give) == gathered(s, give) + gathered(t, give),
    decreases s.len(),
{
    if s.len() == 0 {
        assert(s + t =~= t);
        assert(gathered(s, give) + gathered(t, give) =~= gathered(t, give));
    } else {
        assert((s + t).skip(1) =~= s.skip(1) + t);
        gathered_of_both(s.skip(1), t, give);
        assert(gathered(s + t, give) =~= gathered(s, give) + gathered(t, give));
    }
}

/// What one element gives.
pub proof fn gathered_of_one<A, T>(x: A, give: spec_fn(A) -> Seq<T>)
    ensures
        gathered(seq![x], give) == give(x),
{
    assert(seq![x].skip(1) =~= Seq::empty());
    assert(gathered(seq![x].skip(1), give) =~= Seq::<T>::empty());
    assert(gathered(seq![x], give) =~= give(x));
}

/// One more element gives its piece at the end.
pub proof fn gathered_of_more<A, T>(s: Seq<A>, x: A, give: spec_fn(A) -> Seq<T>)
    ensures
        gathered(s.push(x), give) == gathered(s, give) + give(x),
{
    assert(s.push(x) =~= s + seq![x]);
    gathered_of_both(s, seq![x], give);
    gathered_of_one(x, give);
}

/// The last element gives its piece at the end.
pub proof fn gathered_by_last<A, T>(s: Seq<A>, give: spec_fn(A) -> Seq<T>)
    requires
        s.len() > 0,
    ensures
        gathered(s, give) == gathered(s.drop_last(), give) + give(s.last()),
{
    assert(s =~= s.drop_last().push(s.last()));
    gathered_of_more(s.drop_last(), s.last(), give);
}

/// Elements that give the same make the same.
pub proof fn gathered_alike<A, B, T>(
    s: Seq<A>,
    t: Seq<B>,
    give: spec_fn(A) -> Seq<T>,
    other: spec_fn(B) -> Seq<T>,
)
    requires
        s.len() == t.len(),
        forall|i: int| 0 <= i < s.len() ==> give(#[trigger] s[i]) == other(t[i]),
    ensures
        gathered(s, give) == gathered(t, other),
    decreases s.len(),
{
    if s.len() > 0 {
        assert forall|i: int| 0 <= i < s.skip(1).len() implies give(#[trigger] s.skip(1)[i])
            == other(t.skip(1)[i]) by {
            assert(give(s[i + 1]) == other(t[i + 1]));
        }
        gathered_alike(s.skip(1), t.skip(1), give, other);
        assert(give(s[0]) == other(t[0]));
    }
}

/// Elements that give nothing make nothing.
pub proof fn gathered_nothing<A, T>(s: Seq<A>, give: spec_fn(A) -> Seq<T>)
    requires
        forall|i: int| 0 <= i < s.len() ==> give(#[trigger] s[i]).len() == 0,
    ensures
        gathered(s, give) == Seq::<T>::empty(),
    decreases s.len(),
{
    if s.len() > 0 {
        assert forall|i: int| 0 <= i < s.skip(1).len() implies give(
            #[trigger] s.skip(1)[i],
        ).len() == 0 by {
            assert(give(s[i + 1]).len() == 0);
        }
        gathered_nothing(s.skip(1), give);
        assert(give(s[0]).len() == 0);
        assert(gathered(s, give) =~= Seq::<T>::empty());
    }
}

/// What some things weigh together.
pub open spec fn total<A>(s: Seq<A>, weight: spec_fn(A) -> nat) -> nat
    decreases s.len(),
{
    if s.len() == 0 {
        0
    } else {
        weight(s[0]) + total(s.skip(1), weight)
    }
}

/// The last thing adds its weight to that of the others.
pub proof fn total_by_last<A>(s: Seq<A>, weight: spec_fn(A) -> nat)
    requires
        s.len() > 0,
    ensures
        total(s, weight) == total(s.drop_last(), weight) + weight(s.last()),
    decreases s.len(),
{
    if s.len() == 1 {
        assert(s.skip(1) =~= Seq::empty());
        assert(s.drop_last() =~= Seq::empty());
        assert(total(s.skip(1), weight) == 0);
        assert(total(s.drop_last(), weight) == 0);
    } else {
        total_by_last(s.skip(1), weight);
        assert(s.skip(1).drop_last() =~= s.drop_last().skip(1));
        assert(s.skip(1).last() == s.last());
        assert(s.drop_last()[0] == s[0]);
    }
}

} // verus!
