use vstd::prelude::*;

verus! {

/// The contents of a list that held `s` once each value of `vs` has been
/// appended to it, first to last, one `add` at a time.
pub open spec fn appended<T>(s: Seq<T>, vs: Seq<T>) -> Seq<T>
    decreases vs.len(),
{
    if vs.len() == 0 {
        s
    } else {
        appended(s.push(vs[0]), vs.drop_first())
    }
}

/// Appending the values `vs` one at a time to a list that holds `s` leaves
/// `s` followed by `vs`, in the order in which they were appended.
pub proof fn lemma_appended_follow<T>(s: Seq<T>, vs: Seq<T>)
    ensures
        appended(s, vs) == s + vs,
    decreases vs.len(),
{
    if vs.len() == 0 {
        assert(s + vs =~= s);
    } else {
        lemma_appended_follow(s.push(vs[0]), vs.drop_first());
        assert(s.push(vs[0]) + vs.drop_first() =~= s + vs);
    }
}

/// A new list to which `vs` is appended holds exactly `vs`: the value at each
/// position `i` below the length of `vs` is `vs[i]`, and there is no other
/// position.
pub proof fn lemma_appended_to_new<T>(vs: Seq<T>)
    ensures
        appended(Seq::empty(), vs) == vs,
        appended(Seq::empty(), vs).len() == vs.len(),
        forall|i: int| 0 <= i < vs.len() ==> #[trigger] appended(Seq::empty(), vs)[i] == vs[i],
{
    lemma_appended_follow(Seq::empty(), vs);
    assert(Seq::<T>::empty() + vs =~= vs);
}

/// Reversing twice gives back the original order.
pub proof fn lemma_reverse_twice<T>(s: Seq<T>)
    ensures
        s.reverse().reverse() == s,
{
    assert(s.reverse().reverse() =~= s);
}

} // verus!
