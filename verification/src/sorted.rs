//! Sequences in strictly increasing order. Such a sequence is determined by
//! the set of its elements, which is what makes a sorted listing canonical.

use vstd::prelude::*;

verus! {

/// `lt` is irreflexive, transitive, and relates any two distinct values.
pub open spec fn strict_total<T>(lt: spec_fn(T, T) -> bool) -> bool {
    &&& forall|a: T| !#[trigger] lt(a, a)
    &&& forall|a: T, b: T, c: T| #[trigger] lt(a, b) && #[trigger] lt(b, c) ==> lt(a, c)
    &&& forall|a: T, b: T| #[trigger] lt(a, b) || lt(b, a) || a == b
}

/// Every element is strictly below each later one.
pub open spec fn sorted_by<T>(s: Seq<T>, lt: spec_fn(T, T) -> bool) -> bool {
    forall|i: int, j: int| 0 <= i < j < s.len() ==> lt(#[trigger] s[i], #[trigger] s[j])
}

/// `s` and `t` hold the same elements, whatever their order and multiplicity.
pub open spec fn same_elements<T>(s: Seq<T>, t: Seq<T>) -> bool {
    forall|x: T| s.contains(x) <==> t.contains(x)
}

/// The order of the integers as a relation.
pub open spec fn ascending() -> spec_fn(int, int) -> bool {
    |a: int, b: int| a < b
}

/// The order of the integers is a strict total order.
pub proof fn lemma_ascending_strict_total()
    ensures
        strict_total(ascending()),
{
}

/// A sorted sequence holds no element twice.
pub proof fn lemma_sorted_by_distinct<T>(s: Seq<T>, lt: spec_fn(T, T) -> bool)
    requires
        strict_total(lt),
        sorted_by(s, lt),
    ensures
        forall|i: int, j: int| 0 <= i < s.len() && 0 <= j < s.len() && i != j ==> s[i] != s[j],
{
    assert forall|i: int, j: int| 0 <= i < s.len() && 0 <= j < s.len() && i != j implies s[i]
        != s[j] by {
        if i < j {
            assert(lt(s[i], s[j]));
        } else {
            assert(lt(s[j], s[i]));
        }
    }
}

/// Two sorted sequences with the same elements are the same sequence.
pub proof fn lemma_sorted_by_unique<T>(a: Seq<T>, b: Seq<T>, lt: spec_fn(T, T) -> bool)
    requires
        strict_total(lt),
        sorted_by(a, lt),
        sorted_by(b, lt),
        same_elements(a, b),
    ensures
        a == b,
    decreases a.len(),
{
    if a.len() == 0 {
        if b.len() > 0 {
            assert(b.contains(b[0]));
            assert(a.contains(b[0]));
        }
        assert(a =~= b);
    } else {
        let x = a.last();
        assert(a.contains(x));
        assert(b.contains(x));
        let j = choose|j: int| 0 <= j < b.len() && b[j] == x;
        let y = b.last();
        assert(b.contains(y));
        assert(a.contains(y));
        let i = choose|i: int| 0 <= i < a.len() && a[i] == y;
        if j < b.len() - 1 {
            assert(lt(b[j], b[b.len() - 1]));
            if i < a.len() - 1 {
                assert(lt(a[i], a[a.len() - 1]));
            }
            assert(false);
        }
        assert(x == y);
        let a0 = a.drop_last();
        let b0 = b.drop_last();
        lemma_sorted_by_distinct(a, lt);
        lemma_sorted_by_distinct(b, lt);
        assert forall|z: T| a0.contains(z) <==> b0.contains(z) by {
            if a0.contains(z) {
                let k = choose|k: int| 0 <= k < a0.len() && a0[k] == z;
                assert(a[k] == z);
                assert(a.contains(z));
                assert(b.contains(z));
                let m = choose|m: int| 0 <= m < b.len() && b[m] == z;
                assert(z != x);
                assert(b0[m] == z);
            }
            if b0.contains(z) {
                let k = choose|k: int| 0 <= k < b0.len() && b0[k] == z;
                assert(b[k] == z);
                assert(b.contains(z));
                assert(a.contains(z));
                let m = choose|m: int| 0 <= m < a.len() && a[m] == z;
                assert(z != y);
                assert(a0[m] == z);
            }
        }
        assert(sorted_by(a0, lt)) by {
            assert forall|p: int, q: int| 0 <= p < q < a0.len() implies lt(
                #[trigger] a0[p],
                #[trigger] a0[q],
            ) by {
                assert(lt(a[p], a[q]));
            }
        }
        assert(sorted_by(b0, lt)) by {
            assert forall|p: int, q: int| 0 <= p < q < b0.len() implies lt(
                #[trigger] b0[p],
                #[trigger] b0[q],
            ) by {
                assert(lt(b[p], b[q]));
            }
        }
        lemma_sorted_by_unique(a0, b0, lt);
        assert(a =~= a0.push(x));
        assert(b =~= b0.push(y));
    }
}

/// Inserting a value between a lower neighbour and a higher one keeps a
/// sorted sequence sorted, and adds that value and no other.
pub proof fn lemma_insert_sorted<T>(s: Seq<T>, lt: spec_fn(T, T) -> bool, i: int, x: T)
    requires
        strict_total(lt),
        sorted_by(s, lt),
        0 <= i <= s.len(),
        i > 0 ==> lt(s[i - 1], x),
        i < s.len() ==> lt(x, s[i]),
    ensures
        sorted_by(s.insert(i, x), lt),
        forall|y: T| s.insert(i, x).contains(y) <==> (s.contains(y) || y == x),
{
    let t = s.insert(i, x);
    assert forall|p: int, q: int| 0 <= p < q < t.len() implies lt(
        #[trigger] t[p],
        #[trigger] t[q],
    ) by {
        if q < i {
            assert(lt(s[p], s[q]));
        } else if q == i {
            if p < i - 1 {
                assert(lt(s[p], s[i - 1]));
            }
        } else if p == i {
            if q - 1 > i {
                assert(lt(s[i], s[q - 1]));
            }
        } else if p < i {
            if p < i - 1 {
                assert(lt(s[p], s[i - 1]));
            }
            assert(lt(s[p], x));
            if q - 1 > i {
                assert(lt(s[i], s[q - 1]));
            }
            assert(lt(x, s[q - 1]));
        } else {
            assert(lt(s[p - 1], s[q - 1]));
        }
    }
    assert forall|y: T| t.contains(y) <==> (s.contains(y) || y == x) by {
        if t.contains(y) {
            let k = choose|k: int| 0 <= k < t.len() && t[k] == y;
            if k < i {
                assert(s[k] == y);
            } else if k > i {
                assert(s[k - 1] == y);
            }
        }
        if s.contains(y) {
            let k = choose|k: int| 0 <= k < s.len() && s[k] == y;
            if k < i {
                assert(t[k] == y);
            } else {
                assert(t[k + 1] == y);
            }
        }
        if y == x {
            assert(t[i] == y);
        }
    }
}

/// Where `x` belongs in a sorted sequence: just after the last element
/// below it.
pub open spec fn rank<T>(s: Seq<T>, lt: spec_fn(T, T) -> bool, x: T) -> int
    decreases s.len(),
{
    if s.len() == 0 {
        0
    } else if lt(s.last(), x) {
        s.len() as int
    } else {
        rank(s.drop_last(), lt, x)
    }
}

/// The element before the rank of `x` is below `x`, and no element from the
/// rank on is.
pub proof fn lemma_rank<T>(s: Seq<T>, lt: spec_fn(T, T) -> bool, x: T)
    ensures
        0 <= rank(s, lt, x) <= s.len(),
        rank(s, lt, x) > 0 ==> lt(s[rank(s, lt, x) - 1], x),
        forall|j: int| rank(s, lt, x) <= j < s.len() ==> !lt(#[trigger] s[j], x),
    decreases s.len(),
{
    if s.len() > 0 && !lt(s.last(), x) {
        let front = s.drop_last();
        lemma_rank(front, lt, x);
        assert forall|j: int| rank(s, lt, x) <= j < s.len() implies !lt(#[trigger] s[j], x) by {
            if j < front.len() {
                assert(front[j] == s[j]);
            }
        }
    }
}

/// Whatever the items, some sorted sequence holds exactly their elements.
pub proof fn lemma_sorted_listing_exists<T>(items: Seq<T>, lt: spec_fn(T, T) -> bool)
    requires
        strict_total(lt),
    ensures
        exists|listing: Seq<T>| sorted_by(listing, lt) && #[trigger] same_elements(listing, items),
    decreases items.len(),
{
    if items.len() == 0 {
        let listing = Seq::<T>::empty();
        assert(sorted_by(listing, lt) && same_elements(listing, items));
    } else {
        let front = items.drop_last();
        let x = items.last();
        lemma_sorted_listing_exists(front, lt);
        let earlier = choose|listing: Seq<T>|
            sorted_by(listing, lt) && #[trigger] same_elements(listing, front);
        assert forall|y: T| items.contains(y) <==> (front.contains(y) || y == x) by {
            if items.contains(y) {
                let k = choose|k: int| 0 <= k < items.len() && items[k] == y;
                if k < front.len() {
                    assert(front[k] == y);
                }
            }
            if front.contains(y) {
                let k = choose|k: int| 0 <= k < front.len() && front[k] == y;
                assert(items[k] == y);
            }
            if y == x {
                assert(items[items.len() - 1] == y);
            }
        }
        if earlier.contains(x) {
            assert(sorted_by(earlier, lt) && same_elements(earlier, items));
        } else {
            let i = rank(earlier, lt, x);
            lemma_rank(earlier, lt, x);
            if i < earlier.len() {
                assert(earlier.contains(earlier[i]));
                assert(!lt(earlier[i], x));
            }
            lemma_insert_sorted(earlier, lt, i, x);
            let listing = earlier.insert(i, x);
            assert(sorted_by(listing, lt) && same_elements(listing, items));
        }
    }
}

} // verus!
