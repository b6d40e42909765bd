//! Sorting a list of strings.

use crate::text::{lemma_text_order_total, str_le, text_le, text_order, texts};
use vstd::prelude::*;
use vstd::relations::*;
use vstd::seq_lib::*;

verus! {

/// The strings of `entries` in ascending order.
pub open spec fn sorted_texts(entries: Seq<Seq<char>>) -> Seq<Seq<char>> {
    entries.sort_by(text_order())
}

/// The index at which `item` enters a sorted list so that the list stays sorted: everything
/// before it is at most `item`, everything from it on is at least `item`.
fn insertion_point(sorted: &Vec<String>, item: &str) -> (at: usize)
    requires
        sorted_by(texts(sorted@), text_order()),
    ensures
        at <= sorted.len(),
        forall|i: int| 0 <= i < at ==> text_le(#[trigger] texts(sorted@)[i], item@),
        forall|i: int| at <= i < sorted.len() ==> text_le(item@, #[trigger] texts(sorted@)[i]),
{
    let mut at: usize = 0;
    while at < sorted.len() && str_le(sorted[at].as_str(), item)
        invariant
            at <= sorted.len(),
            forall|i: int| 0 <= i < at ==> text_le(#[trigger] texts(sorted@)[i], item@),
        decreases sorted.len() - at,
    {
        at += 1;
    }
    proof {
        lemma_text_order_total();
        let le = text_order();
        let views = texts(sorted@);
        assert forall|i: int| at <= i < sorted.len() implies text_le(
            item@,
            #[trigger] views[i],
        ) by {
            assert(!text_le(views[at as int], item@));
            assert(le(views[at as int], item@) || le(item@, views[at as int]));
            if at < i {
                assert(le(views[at as int], views[i]));
            }
            assert(le(item@, views[at as int]) && le(views[at as int], views[i]));
        }
    }
    at
}

/// Sorts strings in ascending order of their bytes: the result holds the strings of
/// `strings`, each as often as `strings` does, and none of them before a smaller one.
pub fn sort_strings(strings: Vec<String>) -> (sorted: Vec<String>)
    ensures
        texts(sorted@) == sorted_texts(texts(strings@)),
        sorted_by(texts(sorted@), text_order()),
        texts(sorted@).to_multiset() == texts(strings@).to_multiset(),
{
    broadcast use group_to_multiset_ensures;

    let ghost all = texts(strings@);
    let mut rest = strings;
    let mut sorted: Vec<String> = Vec::new();
    proof {
        assert(texts(sorted@) =~= Seq::empty());
        assert(texts(sorted@).to_multiset().add(all.to_multiset()) =~= all.to_multiset());
    }
    while rest.len() > 0
        invariant
            sorted_by(texts(sorted@), text_order()),
            texts(sorted@).to_multiset().add(texts(rest@).to_multiset()) == all.to_multiset(),
        decreases rest.len(),
    {
        let ghost rest_before = texts(rest@);
        let ghost sorted_before = texts(sorted@);
        let item = rest.pop().unwrap();
        let at = insertion_point(&sorted, item.as_str());
        sorted.insert(at, item);
        proof {
            let le = text_order();
            let now = texts(sorted@);
            assert(now =~= sorted_before.insert(at as int, item@));
            assert(rest_before =~= texts(rest@).push(item@));
            to_multiset_insert(sorted_before, at as int, item@);
            to_multiset_build(texts(rest@), item@);
            assert(now.to_multiset().add(texts(rest@).to_multiset()) =~= all.to_multiset());
            assert forall|i: int, j: int| 0 <= i < j < now.len() implies #[trigger] le(
                now[i],
                now[j],
            ) by {
                if j < at {
                    assert(le(sorted_before[i], sorted_before[j]));
                } else if j == at {
                    assert(text_le(sorted_before[i], item@));
                } else if i < at {
                    assert(le(sorted_before[i], sorted_before[j - 1]));
                } else if i == at {
                    assert(text_le(item@, sorted_before[j - 1]));
                } else {
                    assert(le(sorted_before[i - 1], sorted_before[j - 1]));
                }
            }
        }
    }
    proof {
        lemma_text_order_total();
        assert(texts(rest@) =~= Seq::empty());
        assert(texts(sorted@).to_multiset() =~= all.to_multiset());
        all.lemma_sort_by_ensures(text_order());
        lemma_sorted_unique(texts(sorted@), all.sort_by(text_order()), text_order());
    }
    sorted
}

} // verus!
