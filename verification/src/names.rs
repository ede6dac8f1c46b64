//! Sets of names listed in increasing order, the form in which the pipeline
//! fixes the order of partitions and of output columns.

use vstd::prelude::*;
use crate::sorted::{
    lemma_insert_sorted, lemma_sorted_by_unique, lemma_sorted_listing_exists, same_elements,
    sorted_by, strict_total,
};
use crate::text::{lemma_text_lt_strict_total, same_text, text_before, text_lt, texts};

verus! {

/// The order of names as a relation.
pub open spec fn text_order() -> spec_fn(Seq<char>, Seq<char>) -> bool {
    |a: Seq<char>, b: Seq<char>| text_lt(a, b)
}

/// Each name sorts strictly before the next.
pub open spec fn increasing(names: Seq<Seq<char>>) -> bool {
    sorted_by(names, text_order())
}

/// `listing` holds exactly the names of `names`, in increasing order.
pub open spec fn lists(listing: Seq<Seq<char>>, names: Set<Seq<char>>) -> bool {
    &&& increasing(listing)
    &&& forall|x: Seq<char>| listing.contains(x) <==> names.contains(x)
}

/// The names of a set in increasing order.
pub open spec fn sorted_names(names: Set<Seq<char>>) -> Seq<Seq<char>> {
    choose|listing: Seq<Seq<char>>| lists(listing, names)
}

/// The order of names is a strict total order.
pub proof fn lemma_text_order_strict_total()
    ensures
        strict_total(text_order()),
{
    let lt = text_order();
    assert forall|a: Seq<char>| !#[trigger] lt(a, a) by {
        lemma_text_lt_strict_total(a, a, a);
    }
    assert forall|a: Seq<char>, b: Seq<char>, c: Seq<char>| #[trigger]
        lt(a, b) && #[trigger] lt(b, c) implies lt(a, c) by {
        lemma_text_lt_strict_total(a, b, c);
    }
    assert forall|a: Seq<char>, b: Seq<char>| #[trigger] lt(a, b) || lt(b, a) || a == b by {
        lemma_text_lt_strict_total(a, b, a);
    }
}

/// A set of names has one listing in increasing order.
pub proof fn lemma_sorted_names(listing: Seq<Seq<char>>, names: Set<Seq<char>>)
    requires
        lists(listing, names),
    ensures
        listing == sorted_names(names),
{
    let chosen = sorted_names(names);
    assert(lists(chosen, names));
    lemma_text_order_strict_total();
    lemma_sorted_by_unique(listing, chosen, text_order());
}

/// Whatever the names, their sorted listing holds exactly them, in
/// increasing order.
pub proof fn lemma_sorted_names_lists(names: Seq<Seq<char>>)
    ensures
        lists(sorted_names(names.to_set()), names.to_set()),
{
    lemma_text_order_strict_total();
    lemma_sorted_listing_exists(names, text_order());
    let listing = choose|listing: Seq<Seq<char>>|
        sorted_by(listing, text_order()) && #[trigger] same_elements(listing, names);
    assert(lists(listing, names.to_set()));
}

/// By bisection, the first place in an increasing listing whose name is not
/// below `name`: every name before it is below `name`, none from it on is.
fn bisect(listing: &Vec<String>, name: &str) -> (at: usize)
    requires
        increasing(texts(listing@)),
    ensures
        at <= listing@.len(),
        forall|j: int| 0 <= j < at ==> text_lt(#[trigger] texts(listing@)[j], name@),
        forall|j: int| at <= j < listing@.len() ==> !text_lt(#[trigger] texts(listing@)[j], name@),
{
    let ghost names = texts(listing@);
    proof {
        lemma_text_order_strict_total();
    }
    let mut at: usize = 0;
    let mut end: usize = listing.len();
    while at < end
        invariant
            at <= end <= listing@.len(),
            texts(listing@) == names,
            increasing(names),
            strict_total(text_order()),
            forall|j: int| 0 <= j < at ==> text_lt(#[trigger] names[j], name@),
            forall|j: int| end <= j < names.len() ==> !text_lt(#[trigger] names[j], name@),
        decreases end - at,
    {
        let mid = at + (end - at) / 2;
        assert(names[mid as int] == listing@[mid as int]@);
        if text_before(listing[mid].as_str(), name) {
            assert forall|j: int| 0 <= j < mid + 1 implies text_lt(#[trigger] names[j], name@) by {
                if j < mid {
                    assert(text_order()(names[j], names[mid as int]));
                    assert(text_order()(names[mid as int], name@));
                }
            }
            at = mid + 1;
        } else {
            assert forall|j: int| mid <= j < names.len() implies !text_lt(
                #[trigger] names[j],
                name@,
            ) by {
                if j > mid && text_lt(names[j], name@) {
                    assert(text_order()(names[mid as int], names[j]));
                    assert(text_order()(names[j], name@));
                }
            }
            end = mid;
        }
    }
    at
}

/// Finds the place of `name` in an increasing listing.
pub fn find_name(listing: &Vec<String>, name: &str) -> (found: Option<usize>)
    requires
        increasing(texts(listing@)),
    ensures
        match found {
            Some(at) => at < listing@.len() && texts(listing@)[at as int] == name@,
            None => !texts(listing@).contains(name@),
        },
{
    let at = bisect(listing, name);
    if at < listing.len() && same_text(listing[at].as_str(), name) {
        return Some(at);
    }
    proof {
        let names = texts(listing@);
        lemma_text_order_strict_total();
        if names.contains(name@) {
            let k = choose|k: int| 0 <= k < names.len() && names[k] == name@;
            lemma_text_lt_strict_total(name@, name@, name@);
            if k > at {
                // the name at `at` is neither below `name` nor `name` itself,
                // so it is above `name`, and so is every later one
                assert(text_order()(names[at as int], names[k]));
                lemma_text_lt_strict_total(names[at as int], name@, names[at as int]);
            }
        }
    }
    None
}

/// Adds `name` to an increasing listing, keeping it increasing; a name that
/// is already listed is not added again.
pub fn insert_name(listing: &mut Vec<String>, name: &str)
    requires
        increasing(texts(old(listing)@)),
    ensures
        increasing(texts(final(listing)@)),
        forall|x: Seq<char>|
            texts(final(listing)@).contains(x) <==> (texts(old(listing)@).contains(x) || x
                == name@),
{
    let ghost before = texts(old(listing)@);
    let i = bisect(listing, name);
    if i < listing.len() && same_text(listing[i].as_str(), name) {
        assert(before.contains(name@)) by {
            assert(before[i as int] == name@);
        }
        return;
    }
    let owned = name.to_owned();
    listing.insert(i, owned);
    proof {
        lemma_text_order_strict_total();
        assert(texts(listing@) =~= before.insert(i as int, name@));
        if i < before.len() {
            lemma_text_lt_strict_total(name@, before[i as int], name@);
        }
        lemma_insert_sorted(before, text_order(), i as int, name@);
        let after = before.insert(i as int, name@);
        assert forall|x: Seq<char>|
            texts(listing@).contains(x) <==> (texts(old(listing)@).contains(x) || x
                == name@) by {
            assert(after.contains(x) <==> (before.contains(x) || x == name@));
        }
    }
}

} // verus!
