//! Ordering entries by key.
//!
//! Entries are put in ascending order of their keys, and entries with the
//! same key keep the order in which they came.

use crate::filter::{models, EntryModel, ListEntry};
use crate::text::{
    lemma_lex_le_reflexive, lemma_lex_le_total, lemma_lex_le_transitive, lex_le, str_le,
};
use vstd::prelude::*;
use vstd::string::*;

verus! {

/// Where an entry with key `key` goes into `sorted`: behind the last entry
/// whose key is at or before `key`.
pub open spec fn insertion_point(sorted: Seq<EntryModel>, key: Seq<char>) -> int
    decreases sorted.len(),
{
    if sorted.len() == 0 {
        0
    } else if lex_le(sorted.last().key, key) {
        sorted.len() as int
    } else {
        insertion_point(sorted.drop_last(), key)
    }
}

/// `sorted` with `entry` put at its place.
pub open spec fn inserted(sorted: Seq<EntryModel>, entry: EntryModel) -> Seq<EntryModel> {
    sorted.insert(insertion_point(sorted, entry.key), entry)
}

/// The entries in ascending order of their keys; entries with equal keys
/// stay in the order of `entries`.
pub open spec fn sorted_by_key(entries: Seq<EntryModel>) -> Seq<EntryModel>
    decreases entries.len(),
{
    if entries.len() == 0 {
        entries
    } else {
        inserted(sorted_by_key(entries.drop_last()), entries.last())
    }
}

/// The entries that have the key `key`, in their order.
pub open spec fn with_key(entries: Seq<EntryModel>, key: Seq<char>) -> Seq<EntryModel> {
    entries.filter(|e: EntryModel| e.key == key)
}

/// No entry stands before one with a smaller key.
pub open spec fn ordered(entries: Seq<EntryModel>) -> bool {
    forall|i: int, j: int| 0 <= i < j < entries.len() ==> lex_le(entries[i].key, entries[j].key)
}

/// What the insertion point is: the entry goes behind an entry that is at
/// or before it, and before the entries that are behind it.
pub proof fn lemma_insertion_point(sorted: Seq<EntryModel>, key: Seq<char>)
    ensures
        0 <= insertion_point(sorted, key) <= sorted.len(),
        insertion_point(sorted, key) > 0 ==> lex_le(
            sorted[insertion_point(sorted, key) - 1].key,
            key,
        ),
        forall|j: int|
            insertion_point(sorted, key) <= j < sorted.len() ==> !lex_le(
                (#[trigger] sorted[j]).key,
                key,
            ),
    decreases sorted.len(),
{
    if sorted.len() > 0 && !lex_le(sorted.last().key, key) {
        let head = sorted.drop_last();
        lemma_insertion_point(head, key);
        assert forall|j: int| insertion_point(sorted, key) <= j < sorted.len() implies !lex_le(
            (#[trigger] sorted[j]).key,
            key,
        ) by {
            if j < head.len() {
                assert(head[j] == sorted[j]);
            }
        }
    }
}

/// Putting an entry at its place keeps an ordered sequence ordered.
pub proof fn lemma_inserted_ordered(sorted: Seq<EntryModel>, entry: EntryModel)
    requires
        ordered(sorted),
    ensures
        ordered(inserted(sorted, entry)),
{
    let p = insertion_point(sorted, entry.key);
    let out = inserted(sorted, entry);
    lemma_insertion_point(sorted, entry.key);
    assert forall|i: int, j: int| 0 <= i < j < out.len() implies lex_le(out[i].key, out[j].key) by {
        if j < p {
            assert(out[i] == sorted[i] && out[j] == sorted[j]);
        } else if j == p {
            assert(out[i] == sorted[i]);
            if i < p - 1 {
                lemma_lex_le_transitive(sorted[i].key, sorted[p - 1].key, entry.key);
            }
        } else if i == p {
            assert(out[j] == sorted[j - 1]);
            lemma_lex_le_total(sorted[j - 1].key, entry.key);
        } else if i > p {
            assert(out[i] == sorted[i - 1] && out[j] == sorted[j - 1]);
        } else {
            assert(out[i] == sorted[i] && out[j] == sorted[j - 1]);
        }
    }
}

/// Sorted entries are in ascending order of their keys.
pub proof fn lemma_sorted_is_ordered(entries: Seq<EntryModel>)
    ensures
        ordered(sorted_by_key(entries)),
    decreases entries.len(),
{
    if entries.len() > 0 {
        lemma_sorted_is_ordered(entries.drop_last());
        lemma_inserted_ordered(sorted_by_key(entries.drop_last()), entries.last());
    }
}

/// Sorting neither drops an entry nor makes one up.
pub proof fn lemma_sorted_is_permutation(entries: Seq<EntryModel>)
    ensures
        sorted_by_key(entries).to_multiset() == entries.to_multiset(),
        sorted_by_key(entries).len() == entries.len(),
    decreases entries.len(),
{
    broadcast use vstd::seq_lib::group_to_multiset_ensures;

    if entries.len() > 0 {
        let head = entries.drop_last();
        lemma_sorted_is_permutation(head);
        lemma_insertion_point(sorted_by_key(head), entries.last().key);
        assert(head.push(entries.last()) =~= entries);
    }
}

/// Where no entry has the key, none is found.
proof fn lemma_with_key_none(entries: Seq<EntryModel>, key: Seq<char>)
    requires
        forall|i: int| 0 <= i < entries.len() ==> (#[trigger] entries[i]).key != key,
    ensures
        with_key(entries, key) == Seq::<EntryModel>::empty(),
    decreases entries.len(),
{
    reveal(Seq::filter);
    if entries.len() > 0 {
        let head = entries.drop_last();
        assert forall|i: int| 0 <= i < head.len() implies (#[trigger] head[i]).key != key by {
            assert(head[i] == entries[i]);
        }
        lemma_with_key_none(head, key);
        assert(entries.last() == entries[entries.len() - 1]);
    }
}

/// Putting an entry at its place leaves the entries of every key in their
/// order, and puts the entry behind those of its own key.
pub proof fn lemma_inserted_is_stable(sorted: Seq<EntryModel>, entry: EntryModel, key: Seq<char>)
    ensures
        with_key(inserted(sorted, entry), key) == if entry.key == key {
            with_key(sorted, key).push(entry)
        } else {
            with_key(sorted, key)
        },
{
    broadcast use Seq::filter_distributes_over_add;

    let p = insertion_point(sorted, entry.key);
    lemma_insertion_point(sorted, entry.key);
    let front = sorted.take(p);
    let back = sorted.skip(p);
    let pred = |e: EntryModel| e.key == key;
    assert(sorted =~= front + back);
    assert(inserted(sorted, entry) =~= front.push(entry) + back);
    assert(front.push(entry).filter(pred) == if entry.key == key {
        front.filter(pred).push(entry)
    } else {
        front.filter(pred)
    }) by {
        reveal(Seq::filter);
        assert(front.push(entry).drop_last() =~= front);
    }
    if entry.key == key {
        assert forall|i: int| 0 <= i < back.len() implies (#[trigger] back[i]).key != key by {
            assert(back[i] == sorted[p + i]);
            lemma_lex_le_reflexive(key);
        }
        lemma_with_key_none(back, key);
        assert(front.filter(pred) + Seq::<EntryModel>::empty() =~= front.filter(pred));
        assert(front.filter(pred).push(entry) + Seq::<EntryModel>::empty() =~= front.filter(
            pred,
        ).push(entry));
    }
}

/// Sorting is stable: the entries of every key stand in the sorted
/// sequence in the order in which they stood before.
pub proof fn lemma_sorted_is_stable(entries: Seq<EntryModel>, key: Seq<char>)
    ensures
        with_key(sorted_by_key(entries), key) == with_key(entries, key),
    decreases entries.len(),
{
    if entries.len() > 0 {
        let head = entries.drop_last();
        lemma_sorted_is_stable(head, key);
        lemma_inserted_is_stable(sorted_by_key(head), entries.last(), key);
        assert(with_key(entries, key) == if entries.last().key == key {
            with_key(head, key).push(entries.last())
        } else {
            with_key(head, key)
        }) by {
            reveal(Seq::filter);
        }
    }
}

/// Sorting an ordered sequence changes nothing.
pub proof fn lemma_sorted_of_ordered(entries: Seq<EntryModel>)
    requires
        ordered(entries),
    ensures
        sorted_by_key(entries) == entries,
    decreases entries.len(),
{
    if entries.len() > 0 {
        let head = entries.drop_last();
        assert(ordered(head)) by {
            assert forall|i: int, j: int| 0 <= i < j < head.len() implies lex_le(
                head[i].key,
                head[j].key,
            ) by {
                assert(head[i] == entries[i] && head[j] == entries[j]);
            }
        }
        lemma_sorted_of_ordered(head);
        if head.len() > 0 {
            assert(head.last() == entries[head.len() - 1]);
        }
        assert(head.insert(head.len() as int, entries.last()) =~= entries);
    }
}

/// Puts `entry` at its place in `sorted`.
pub fn insert_sorted(sorted: &mut Vec<ListEntry>, entry: ListEntry)
    ensures
        models(final(sorted)@) == inserted(models(old(sorted)@), entry@),
{
    let ghost all = models(sorted@);
    let mut at: usize = sorted.len();
    proof {
        assert(all.take(at as int) =~= all);
    }
    while at > 0
        invariant
            at <= sorted.len(),
            sorted@ == old(sorted)@,
            all == models(sorted@),
            insertion_point(all, entry@.key) == insertion_point(all.take(at as int), entry@.key),
        ensures
            at <= sorted.len(),
            sorted@ == old(sorted)@,
            all == models(sorted@),
            insertion_point(all, entry@.key) == at,
        decreases at,
    {
        let behind = str_le(sorted[at - 1].key.as_str(), entry.key.as_str());
        assert(all.take(at as int).last() == all[at - 1]);
        if behind {
            break ;
        }
        assert(all.take(at as int).drop_last() =~= all.take(at - 1));
        at = at - 1;
    }
    sorted.insert(at, entry);
    assert(models(sorted@) =~= all.insert(at as int, entry@));
}

/// The entries in ascending order of their keys; entries with equal keys
/// keep their order.
pub fn sort_by_key(entries: Vec<ListEntry>) -> (sorted: Vec<ListEntry>)
    ensures
        models(sorted@) == sorted_by_key(models(entries@)),
{
    let mut entries = entries;
    let ghost all = models(entries@);
    let mut rest: Vec<ListEntry> = Vec::new();
    // Taken from the back, so the stack of what is left hands them out in
    // their first order.
    while entries.len() > 0
        invariant
            models(entries@) + models(rest@).reverse() == all,
        decreases entries.len(),
    {
        let ghost before = entries@;
        let ghost kept = rest@;
        let entry = entries.pop().unwrap();
        rest.push(entry);
        assert(models(entries@) + models(rest@).reverse() =~= models(before) + models(
            kept,
        ).reverse());
    }
    let mut sorted: Vec<ListEntry> = Vec::new();
    proof {
        assert(models(rest@).reverse() =~= all);
        assert(all.take(0) =~= models(sorted@));
    }
    while rest.len() > 0
        invariant
            models(rest@).reverse() == all.skip(all.len() - rest.len()),
            rest.len() <= all.len(),
            models(sorted@) == sorted_by_key(all.take(all.len() - rest.len())),
        decreases rest.len(),
    {
        let ghost done = all.len() - rest.len();
        let ghost before = rest@;
        let entry = rest.pop().unwrap();
        assert(entry@ == all[done]) by {
            assert(models(before).reverse()[0] == models(before)[before.len() - 1]);
            assert(all.skip(done)[0] == all[done]);
        }
        insert_sorted(&mut sorted, entry);
        proof {
            assert(all.take(done + 1).drop_last() =~= all.take(done));
            assert(all.take(done + 1).last() == all[done]);
            assert(models(rest@).reverse() =~= all.skip(done + 1)) by {
                assert forall|k: int| 0 <= k < rest@.len() implies models(rest@).reverse()[k]
                    == all.skip(done + 1)[k] by {
                    assert(models(rest@).reverse()[k] == models(before).reverse()[k + 1]);
                    assert(all.skip(done)[k + 1] == all.skip(done + 1)[k]);
                }
            }
        }
    }
    proof {
        assert(all.take(all.len() as int) =~= all);
    }
    sorted
}

} // verus!
