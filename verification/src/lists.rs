//! Small facts about sequences, and the reversal of a list.

use vstd::prelude::*;

verus! {

pub proof fn lemma_contains_push<A>(s: Seq<A>, last: A, x: A)
    ensures
        s.push(last).contains(x) == (s.contains(x) || last == x),
{
    if s.contains(x) {
        let k = choose|k: int| 0 <= k < s.len() && s[k] == x;
        assert(s.push(last)[k] == x);
    }
    if last == x {
        assert(s.push(last)[s.len() as int] == x);
    }
}

pub proof fn lemma_no_duplicates_push<A>(s: Seq<A>, last: A)
    requires
        s.no_duplicates(),
        !s.contains(last),
    ensures
        s.push(last).no_duplicates(),
{
    let longer = s.push(last);
    assert forall|i: int, j: int|
        0 <= i < longer.len() && 0 <= j < longer.len() && i != j implies longer[i] != longer[j] by {
        if i < s.len() && j < s.len() {
            assert(s[i] != s[j]);
        } else if i < s.len() {
            assert(s.contains(s[i]));
        } else {
            assert(s.contains(s[j]));
        }
    }
}

/// The items of a list, last one first.
pub fn reversed<T>(v: Vec<T>) -> (r: Vec<T>)
    ensures
        r@ == v@.reverse(),
{
    let ghost all = v@;
    let mut source = v;
    let mut r: Vec<T> = Vec::new();
    assert(r@ =~= all.skip(all.len() as int).reverse());
    while source.len() > 0
        invariant
            source@.len() <= all.len(),
            source@ == all.take(source@.len() as int),
            r@ == all.skip(source@.len() as int).reverse(),
        decreases source@.len(),
    {
        let ghost n = source@.len() as int;
        if let Some(item) = source.pop() {
            assert(all.skip(n - 1).reverse() =~= all.skip(n).reverse().push(all[n - 1]));
            r.push(item);
        }
    }
    assert(all.skip(0) =~= all);
    r
}

} // verus!
