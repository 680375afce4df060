use vstd::prelude::*;

verus! {

/// The distinct items of a sequence, each at the place of its first
/// occurrence.
pub open spec fn first_seen<T>(s: Seq<T>) -> Seq<T>
    decreases s.len(),
{
    if s.len() == 0 {
        Seq::empty()
    } else {
        let earlier = first_seen(s.drop_last());
        if earlier.contains(s.last()) {
            earlier
        } else {
            earlier.push(s.last())
        }
    }
}

/// The first place at which `x` occurs in `s`.
pub open spec fn first_index<T>(s: Seq<T>, x: T) -> int
    recommends
        s.contains(x),
{
    choose|k: int| is_first_index(s, x, k)
}

/// `x` occurs at `k` and nowhere before.
pub open spec fn is_first_index<T>(s: Seq<T>, x: T, k: int) -> bool {
    &&& 0 <= k < s.len()
    &&& s[k] == x
    &&& forall|j: int| 0 <= j < k ==> s[j] != x
}

/// `a` occurs in `s` before `b` does, if `b` occurs at all.
pub open spec fn seen_before<T>(s: Seq<T>, a: T, b: T) -> bool {
    exists|p: int| 0 <= p < s.len() && s[p] == a && forall|q: int| 0 <= q <= p ==> s[q] != b
}

/// An index that is a first place of `x` is the first place of `x`.
pub proof fn lemma_first_index<T>(s: Seq<T>, x: T, k: int)
    requires
        is_first_index(s, x, k),
    ensures
        first_index(s, x) == k,
{
    let c = first_index(s, x);
    assert(is_first_index(s, x, c));
    if c < k {
        assert(s[c] != x);
    } else if k < c {
        assert(s[k] != x);
    }
}

/// One more item is listed last if it is new, and not at all if it is not.
pub proof fn lemma_first_seen_push<T>(s: Seq<T>, x: T)
    ensures
        first_seen(s.push(x)) == if first_seen(s).contains(x) {
            first_seen(s)
        } else {
            first_seen(s).push(x)
        },
{
    assert(s.push(x).drop_last() == s);
}

/// An item is among the first-seen items exactly when it occurs at all.
pub proof fn lemma_first_seen_contains<T>(s: Seq<T>, x: T)
    ensures
        first_seen(s).contains(x) <==> s.contains(x),
    decreases s.len(),
{
    if s.len() > 0 {
        let init = s.drop_last();
        let earlier = first_seen(init);
        lemma_first_seen_contains(init, x);
        if s.contains(x) {
            let i = choose|i: int| 0 <= i < s.len() && s[i] == x;
            if i < init.len() {
                assert(init[i] == x);
                let j = choose|j: int| 0 <= j < earlier.len() && earlier[j] == x;
                assert(first_seen(s)[j] == x);
            } else if !earlier.contains(x) {
                assert(first_seen(s)[earlier.len() as int] == x);
            }
        }
        if first_seen(s).contains(x) {
            let j = choose|j: int| 0 <= j < first_seen(s).len() && first_seen(s)[j] == x;
            if j < earlier.len() {
                assert(earlier[j] == x);
                let i = choose|i: int| 0 <= i < init.len() && init[i] == x;
                assert(s[i] == x);
            } else {
                assert(s[s.len() - 1] == x);
            }
        }
    }
}

/// The first-seen items of a sequence are its items without repetition, in
/// the order in which each first occurs: no item is listed twice, every item
/// is listed, and where one listed item stands before another, it occurs in
/// the sequence before the other does.
pub proof fn lemma_first_seen_order<T>(s: Seq<T>)
    ensures
        first_seen(s).no_duplicates(),
        forall|x: T| #[trigger] first_seen(s).contains(x) <==> s.contains(x),
        forall|i: int, j: int|
            0 <= i < j < first_seen(s).len() ==> seen_before(
                s,
                #[trigger] first_seen(s)[i],
                #[trigger] first_seen(s)[j],
            ),
    decreases s.len(),
{
    assert forall|x: T| #[trigger] first_seen(s).contains(x) <==> s.contains(x) by {
        lemma_first_seen_contains(s, x);
    }
    if s.len() > 0 {
        let init = s.drop_last();
        let earlier = first_seen(init);
        let listed = first_seen(s);
        lemma_first_seen_order(init);
        assert forall|i: int, j: int| 0 <= i < j < listed.len() implies seen_before(
            s,
            #[trigger] listed[i],
            #[trigger] listed[j],
        ) by {
            if j < earlier.len() {
                assert(seen_before(init, earlier[i], earlier[j]));
                let p = choose|p: int|
                    0 <= p < init.len() && init[p] == earlier[i] && forall|q: int|
                        0 <= q <= p ==> init[q] != earlier[j];
                assert(s[p] == listed[i]);
                assert forall|q: int| 0 <= q <= p implies s[q] != listed[j] by {
                    assert(init[q] != earlier[j]);
                }
            } else {
                assert(earlier.contains(earlier[i]));
                lemma_first_seen_contains(init, earlier[i]);
                lemma_first_seen_contains(init, s.last());
                let p = choose|p: int| 0 <= p < init.len() && init[p] == earlier[i];
                assert(s[p] == listed[i]);
                assert forall|q: int| 0 <= q <= p implies s[q] != listed[j] by {
                    if s[q] == s.last() {
                        assert(init[q] == s.last());
                        assert(init.contains(s.last()));
                    }
                }
            }
        }
    }
}

/// `k` is the least index, from zero, at which `p` holds.
pub open spec fn is_least(p: spec_fn(int) -> bool, k: int) -> bool {
    &&& 0 <= k
    &&& p(k)
    &&& forall|j: int| 0 <= j < k ==> !#[trigger] p(j)
}

/// The least index, from zero, at which `p` holds.
pub open spec fn least(p: spec_fn(int) -> bool) -> int {
    choose|k: int| is_least(p, k)
}

/// An index that is least is the least index.
pub proof fn lemma_least(p: spec_fn(int) -> bool, k: int)
    requires
        is_least(p, k),
    ensures
        least(p) == k,
{
    let c = least(p);
    assert(is_least(p, c));
    if c < k {
        assert(!p(c));
    } else if k < c {
        assert(!p(k));
    }
}

} // verus!
