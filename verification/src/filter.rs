//! The filterable list behind every selection view.
//!
//! A list owns a backing sequence of entries that never changes, and shows
//! the entries whose label answers the current filter text, in the order of
//! the backing sequence. The shown part is recomputed from the backing
//! sequence on every change of the filter text.

use crate::error::SessionError;
use crate::text::{chars_of, contains_chars, contains_seq, lowercase, occurs_at, to_lowercase};
use vstd::prelude::*;
use vstd::string::*;

verus! {

/// One line of a selection view: the text that is shown, and the key that a
/// selection of the line yields.
#[derive(Debug, PartialEq, Eq)]
pub struct ListEntry {
    pub label: String,
    pub key: String,
}

/// A list entry as a pair of character sequences.
pub struct EntryModel {
    pub label: Seq<char>,
    pub key: Seq<char>,
}

impl View for ListEntry {
    type V = EntryModel;

    open spec fn view(&self) -> EntryModel {
        EntryModel { label: self.label@, key: self.key@ }
    }
}

/// Whether a label answers a filter text: the label contains the text,
/// letter case set aside. The empty text is answered by every label.
pub open spec fn label_matches(label: Seq<char>, needle: Seq<char>) -> bool {
    needle.len() == 0 || contains_seq(lowercase(label), lowercase(needle))
}

/// The entries of `entries` whose label answers `needle`, in their order.
pub open spec fn visible_of(entries: Seq<EntryModel>, needle: Seq<char>) -> Seq<EntryModel> {
    entries.filter(|e: EntryModel| label_matches(e.label, needle))
}

/// The models of a sequence of entries.
pub open spec fn models(entries: Seq<ListEntry>) -> Seq<EntryModel> {
    entries.map_values(|e: ListEntry| e@)
}

/// `idx` is strictly increasing.
pub open spec fn increasing(idx: Seq<int>) -> bool {
    forall|j: int, k: int| 0 <= j < k < idx.len() ==> idx[j] < idx[k]
}

/// `idx` names, for each element of `sub`, the position in `full` that it
/// was taken from, and the positions keep the order.
pub open spec fn embeds_at(sub: Seq<EntryModel>, full: Seq<EntryModel>, idx: Seq<int>) -> bool {
    &&& idx.len() == sub.len()
    &&& increasing(idx)
    &&& forall|k: int|
        0 <= k < idx.len() ==> 0 <= #[trigger] idx[k] < full.len() && sub[k] == full[idx[k]]
}

/// `sub` can be had from `full` by leaving elements out.
pub open spec fn is_subsequence(sub: Seq<EntryModel>, full: Seq<EntryModel>) -> bool {
    exists|idx: Seq<int>| embeds_at(sub, full, idx)
}

impl Clone for ListEntry {
    fn clone(&self) -> (copy: ListEntry)
        ensures
            copy@ == self@,
    {
        ListEntry { label: self.label.clone(), key: self.key.clone() }
    }
}

/// What a list is: its backing entries and the current filter text. The
/// shown part follows from the two.
pub struct ListModel {
    pub entries: Seq<EntryModel>,
    pub needle: Seq<char>,
}

impl ListModel {
    /// The entries that are shown.
    pub open spec fn visible(self) -> Seq<EntryModel> {
        visible_of(self.entries, self.needle)
    }

    /// The same list under another filter text.
    pub open spec fn with_needle(self, needle: Seq<char>) -> ListModel {
        ListModel { entries: self.entries, needle: needle }
    }

    /// The key that a selection of position `index` yields, where the shown
    /// part has such a position.
    pub open spec fn key_at(self, index: int) -> Option<Seq<char>> {
        if 0 <= index < self.visible().len() {
            Some(self.visible()[index].key)
        } else {
            None
        }
    }

    /// Some shown entry has the key `key`.
    pub open spec fn shows_key(self, key: Seq<char>) -> bool {
        exists|index: int| self.key_at(index) == Some(key)
    }
}

/// A selectable list with a live filter.
pub struct FilterableList {
    entries: Vec<ListEntry>,
    needle: String,
    /// Positions in `entries` of the entries that are shown, ascending.
    shown: Vec<usize>,
}

impl View for FilterableList {
    type V = ListModel;

    closed spec fn view(&self) -> ListModel {
        ListModel { entries: models(self.entries@), needle: self.needle@ }
    }
}

/// The entries that `shown` points at.
spec fn picked(entries: Seq<EntryModel>, shown: Seq<usize>) -> Seq<EntryModel> {
    Seq::new(shown.len(), |k: int| entries[shown[k] as int])
}

/// What `shown` must be for a list over `entries` under `needle`.
spec fn shows(shown: Seq<usize>, entries: Seq<EntryModel>, needle: Seq<char>) -> bool {
    &&& forall|k: int| 0 <= k < shown.len() ==> #[trigger] shown[k] < entries.len()
    &&& forall|j: int, k: int| 0 <= j < k < shown.len() ==> shown[j] < shown[k]
    &&& picked(entries, shown) == visible_of(entries, needle)
}

/// The form in which the filter text is held against the labels.
spec fn pattern_of(needle: Seq<char>) -> Seq<char> {
    if needle.len() == 0 {
        needle
    } else {
        lowercase(needle)
    }
}

fn prepare(needle: &str) -> (pattern: Vec<char>)
    ensures
        pattern@ == pattern_of(needle@),
{
    if needle.is_empty() {
        chars_of(needle)
    } else {
        let folded = to_lowercase(needle);
        chars_of(folded.as_str())
    }
}

fn answers(label: &str, pattern: &Vec<char>, Ghost(needle): Ghost<Seq<char>>) -> (hit: bool)
    requires
        pattern@ == pattern_of(needle),
    ensures
        hit == label_matches(label@, needle),
{
    let folded = to_lowercase(label);
    let hay = chars_of(folded.as_str());
    proof {
        if needle.len() == 0 {
            assert(hay@.subrange(0, 0) =~= pattern@);
            assert(occurs_at(hay@, pattern@, 0));
        }
    }
    contains_chars(&hay, pattern)
}

/// Filtering a sequence that grew by one entry.
proof fn lemma_visible_push(entries: Seq<EntryModel>, entry: EntryModel, needle: Seq<char>)
    ensures
        visible_of(entries.push(entry), needle) == if label_matches(entry.label, needle) {
            visible_of(entries, needle).push(entry)
        } else {
            visible_of(entries, needle)
        },
{
    reveal(Seq::filter);
    assert(entries.push(entry).drop_last() =~= entries);
}

fn matching(entries: &Vec<ListEntry>, needle: &str) -> (shown: Vec<usize>)
    ensures
        shows(shown@, models(entries@), needle@),
{
    let pattern = prepare(needle);
    let mut shown: Vec<usize> = Vec::new();
    let ghost all = models(entries@);
    proof {
        reveal(Seq::filter);
        assert(all.take(0) =~= Seq::<EntryModel>::empty());
        assert(picked(all, shown@) =~= visible_of(all.take(0), needle@));
    }
    let mut i: usize = 0;
    while i < entries.len()
        invariant
            i <= entries.len(),
            all == models(entries@),
            pattern@ == pattern_of(needle@),
            forall|k: int| 0 <= k < shown@.len() ==> #[trigger] shown@[k] < i,
            forall|j: int, k: int| 0 <= j < k < shown@.len() ==> shown@[j] < shown@[k],
            picked(all, shown@) == visible_of(all.take(i as int), needle@),
        decreases entries.len() - i,
    {
        let hit = answers(entries[i].label.as_str(), &pattern, Ghost(needle@));
        proof {
            lemma_visible_push(all.take(i as int), all[i as int], needle@);
            assert(all.take(i as int).push(all[i as int]) =~= all.take(i + 1));
        }
        if hit {
            let ghost before = shown@;
            shown.push(i);
            assert(picked(all, shown@) =~= picked(all, before).push(all[i as int]));
        }
        i = i + 1;
    }
    proof {
        assert(all.take(i as int) =~= all);
    }
    shown
}

impl FilterableList {
    /// The representation is sound: what is recorded as shown is the part
    /// of the backing entries that answers the filter text.
    pub closed spec fn wf(&self) -> bool {
        shows(self.shown@, models(self.entries@), self.needle@)
    }

    /// A list over `entries` with an empty filter text: every entry is
    /// shown, in the given order.
    pub fn new(entries: Vec<ListEntry>) -> (list: FilterableList)
        ensures
            list.wf(),
            list@ == (ListModel { entries: models(entries@), needle: Seq::empty() }),
            list@.visible() == models(entries@),
    {
        let needle = String::new();
        let shown = matching(&entries, needle.as_str());
        let list = FilterableList { entries, needle, shown };
        proof {
            lemma_empty_needle_shows_all(list@);
        }
        list
    }

    /// The backing entries, in their order.
    pub fn entries(&self) -> (entries: &Vec<ListEntry>)
        ensures
            models(entries@) == self@.entries,
    {
        &self.entries
    }

    /// The current filter text.
    pub fn needle(&self) -> (needle: &str)
        ensures
            needle@ == self@.needle,
    {
        self.needle.as_str()
    }

    /// How many entries are shown.
    pub fn visible_len(&self) -> (len: usize)
        requires
            self.wf(),
        ensures
            len == self@.visible().len(),
    {
        self.shown.len()
    }

    /// The entry at position `index` of the shown part, where there is one.
    pub fn visible_at(&self, index: usize) -> (entry: Option<&ListEntry>)
        requires
            self.wf(),
        ensures
            match entry {
                Some(e) => index < self@.visible().len() && e@ == self@.visible()[index as int],
                None => index >= self@.visible().len(),
            },
    {
        if index < self.shown.len() {
            let at = self.shown[index];
            assert(picked(models(self.entries@), self.shown@)[index as int]
                == self.entries@[at as int]@);
            Some(&self.entries[at])
        } else {
            None
        }
    }

    /// The shown part: copies of the entries that answer the filter text,
    /// in the order of the backing entries.
    pub fn visible(&self) -> (shown: Vec<ListEntry>)
        requires
            self.wf(),
        ensures
            models(shown@) == self@.visible(),
    {
        let mut out: Vec<ListEntry> = Vec::new();
        let mut k: usize = 0;
        while k < self.shown.len()
            invariant
                self.wf(),
                k <= self.shown@.len(),
                models(out@) == self@.visible().take(k as int),
            decreases self.shown.len() - k,
        {
            let at = self.shown[k];
            assert(picked(models(self.entries@), self.shown@)[k as int]
                == self.entries@[at as int]@);
            let entry = self.entries[at].clone();
            let ghost before = out@;
            out.push(entry);
            assert(models(out@) =~= models(before).push(entry@));
            assert(self@.visible().take(k + 1) =~= self@.visible().take(k as int).push(
                self@.visible()[k as int],
            ));
            k = k + 1;
        }
        assert(self@.visible().take(k as int) =~= self@.visible());
        out
    }

    /// Replaces the filter text. The backing entries stay as they are, and
    /// the shown part is recomputed from them, whatever was shown before.
    pub fn set_filter(&mut self, needle: &str)
        requires
            old(self).wf(),
        ensures
            final(self).wf(),
            final(self)@ == old(self)@.with_needle(needle@),
            is_subsequence(final(self)@.visible(), old(self)@.entries),
            forall|k: int|
                0 <= k < final(self)@.visible().len() ==> label_matches(
                    #[trigger] final(self)@.visible()[k].label,
                    needle@,
                ),
            needle@.len() == 0 ==> final(self)@.visible() == old(self)@.entries,
    {
        let shown = matching(&self.entries, needle);
        self.needle = needle.to_owned();
        self.shown = shown;
        proof {
            lemma_visible_is_subsequence(self@);
            lemma_visible_all_match(self@);
            if needle@.len() == 0 {
                lemma_empty_needle_shows_all(self@);
            }
        }
    }

    /// The key of the entry at position `index` of the shown part. A
    /// position that the shown part does not have is an error; the shown
    /// part may well be empty.
    pub fn select(&self, index: usize) -> (res: Result<String, SessionError>)
        requires
            self.wf(),
        ensures
            match res {
                Ok(key) => self@.key_at(index as int) == Some(key@),
                Err(e) => self@.key_at(index as int).is_none() && e
                    == SessionError::SelectionOutOfRange,
            },
    {
        if index < self.shown.len() {
            let at = self.shown[index];
            assert(picked(models(self.entries@), self.shown@)[index as int]
                == self.entries@[at as int]@);
            Ok(self.entries[at].key.clone())
        } else {
            Err(SessionError::SelectionOutOfRange)
        }
    }
}

/// The shown part of a list is a subsequence of its backing entries.
pub proof fn lemma_visible_is_subsequence(list: ListModel)
    ensures
        is_subsequence(list.visible(), list.entries),
    decreases list.entries.len(),
{
    reveal(Seq::filter);
    if list.entries.len() == 0 {
        assert(embeds_at(list.visible(), list.entries, Seq::<int>::empty()));
    } else {
        let head = ListModel { entries: list.entries.drop_last(), ..list };
        lemma_visible_is_subsequence(head);
        let idx = choose|idx: Seq<int>| embeds_at(head.visible(), head.entries, idx);
        if label_matches(list.entries.last().label, list.needle) {
            let longer = idx.push(list.entries.len() - 1);
            assert(embeds_at(list.visible(), list.entries, longer));
        } else {
            assert(embeds_at(list.visible(), list.entries, idx));
        }
    }
}

/// Every shown entry has a label that answers the filter text.
pub proof fn lemma_visible_all_match(list: ListModel)
    ensures
        forall|k: int|
            0 <= k < list.visible().len() ==> label_matches(
                #[trigger] list.visible()[k].label,
                list.needle,
            ),
{
    let pred = |e: EntryModel| label_matches(e.label, list.needle);
    assert forall|k: int| 0 <= k < list.visible().len() implies label_matches(
        #[trigger] list.visible()[k].label,
        list.needle,
    ) by {
        list.entries.lemma_filter_pred(pred, k);
    }
}

/// No entry whose label answers the filter text is left out.
pub proof fn lemma_visible_keeps_matches(list: ListModel, at: int)
    requires
        0 <= at < list.entries.len(),
        label_matches(list.entries[at].label, list.needle),
    ensures
        list.visible().contains(list.entries[at]),
{
    let pred = |e: EntryModel| label_matches(e.label, list.needle);
    list.entries.lemma_filter_contains(pred, at);
}

/// Under the empty filter text a list shows all its entries, in their
/// order.
pub proof fn lemma_empty_needle_shows_all(list: ListModel)
    requires
        list.needle.len() == 0,
    ensures
        list.visible() == list.entries,
    decreases list.entries.len(),
{
    reveal(Seq::filter);
    if list.entries.len() > 0 {
        let head = ListModel { entries: list.entries.drop_last(), ..list };
        lemma_empty_needle_shows_all(head);
        assert(list.entries.drop_last().push(list.entries.last()) =~= list.entries);
    }
}

/// A filter text leaves no trace: after two changes of the filter text the
/// list is what the second change alone would have made of it.
pub proof fn lemma_filter_not_sticky(list: ListModel, first: Seq<char>, second: Seq<char>)
    ensures
        list.with_needle(first).with_needle(second) == list.with_needle(second),
        list.with_needle(first).with_needle(second).visible() == list.with_needle(second).visible(),
{
}

} // verus!
