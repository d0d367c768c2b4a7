use dvach::error::SessionError;
use dvach::filter::{FilterableList, ListEntry};

fn entry(label: &str, key: &str) -> ListEntry {
    ListEntry { label: label.to_string(), key: key.to_string() }
}

fn sample() -> Vec<ListEntry> {
    vec![entry("1 hello", "1"), entry("2 world", "2"), entry("3 help", "3")]
}

/// Positions in `full` from which `sub` can be taken in order, if any.
fn is_subsequence(sub: &[ListEntry], full: &[ListEntry]) -> bool {
    let mut at = 0;
    for e in sub {
        while at < full.len() && &full[at] != e {
            at += 1;
        }
        if at == full.len() {
            return false;
        }
        at += 1;
    }
    true
}

#[test]
fn new_list_shows_everything_in_order() {
    let list = FilterableList::new(sample());
    assert_eq!(list.entries(), &sample());
    assert_eq!(list.visible(), sample());
    assert_eq!(list.visible_len(), 3);
    assert_eq!(list.needle(), "");
}

#[test]
fn filter_keeps_matching_entries_in_order() {
    let mut list = FilterableList::new(sample());
    list.set_filter("he");
    assert_eq!(list.visible(), vec![entry("1 hello", "1"), entry("3 help", "3")]);
    assert_eq!(list.select(1), Ok("3".to_string()));
    assert_eq!(list.select(0), Ok("1".to_string()));
    assert_eq!(list.needle(), "he");
}

#[test]
fn select_beyond_visible_is_out_of_range() {
    let mut list = FilterableList::new(sample());
    list.set_filter("he");
    assert_eq!(list.visible_len(), 2);
    assert_eq!(list.select(5), Err(SessionError::SelectionOutOfRange));
    assert_eq!(list.select(2), Err(SessionError::SelectionOutOfRange));
}

#[test]
fn filter_leaves_backing_entries_alone() {
    let mut list = FilterableList::new(sample());
    list.set_filter("world");
    assert_eq!(list.entries(), &sample());
    list.set_filter("no such thing");
    assert_eq!(list.entries(), &sample());
}

#[test]
fn visible_is_a_subsequence_whose_labels_contain_the_needle() {
    let backing = vec![
        entry("10 Rust news", "10"),
        entry("11 trust issues", "11"),
        entry("12 gardening", "12"),
        entry("13 RUSTY nails", "13"),
        entry("14 crust", "14"),
    ];
    for needle in ["rust", "RUST", "RuSt", "1", "ing", "zzz", " "] {
        let mut list = FilterableList::new(backing.clone());
        list.set_filter(needle);
        let shown = list.visible();
        assert!(is_subsequence(&shown, &backing));
        for e in &shown {
            assert!(e.label.to_lowercase().contains(&needle.to_lowercase()));
        }
        let expected: Vec<ListEntry> = backing
            .iter()
            .filter(|e| e.label.to_lowercase().contains(&needle.to_lowercase()))
            .cloned()
            .collect();
        assert_eq!(shown, expected);
    }
}

#[test]
fn filter_ignores_letter_case_of_needle_and_label() {
    let mut list = FilterableList::new(vec![entry("1 Hello", "1"), entry("2 world", "2")]);
    list.set_filter("hELLo");
    assert_eq!(list.visible(), vec![entry("1 Hello", "1")]);
    list.set_filter("WORLD");
    assert_eq!(list.visible(), vec![entry("2 world", "2")]);
}

#[test]
fn filter_folds_letters_beyond_ascii() {
    let mut list = FilterableList::new(vec![entry("1 Привет", "1"), entry("2 мир", "2")]);
    list.set_filter("привет");
    assert_eq!(list.visible(), vec![entry("1 Привет", "1")]);
    list.set_filter("МИР");
    assert_eq!(list.visible(), vec![entry("2 мир", "2")]);
}

#[test]
fn empty_needle_restores_the_backing_order() {
    let mut list = FilterableList::new(sample());
    list.set_filter("he");
    list.set_filter("");
    assert_eq!(list.visible(), sample());
    assert_eq!(list.needle(), "");
}

#[test]
fn filter_is_not_sticky() {
    let mut narrowed = FilterableList::new(sample());
    narrowed.set_filter("hello");
    narrowed.set_filter("wor");
    let mut direct = FilterableList::new(sample());
    direct.set_filter("wor");
    assert_eq!(narrowed.visible(), direct.visible());
    assert_eq!(narrowed.visible(), vec![entry("2 world", "2")]);
}

#[test]
fn empty_result_is_a_valid_state() {
    let mut list = FilterableList::new(sample());
    list.set_filter("xyz");
    assert_eq!(list.visible_len(), 0);
    assert_eq!(list.visible(), vec![]);
    assert_eq!(list.visible_at(0), None);
    assert_eq!(list.select(0), Err(SessionError::SelectionOutOfRange));
    list.set_filter("2");
    assert_eq!(list.select(0), Ok("2".to_string()));
}

#[test]
fn empty_backing_list_is_valid() {
    let mut list = FilterableList::new(vec![]);
    assert_eq!(list.visible_len(), 0);
    list.set_filter("a");
    assert_eq!(list.visible_len(), 0);
    assert_eq!(list.select(0), Err(SessionError::SelectionOutOfRange));
}

#[test]
fn visible_at_gives_the_entry() {
    let mut list = FilterableList::new(sample());
    list.set_filter("l");
    assert_eq!(list.visible_at(0), Some(&entry("1 hello", "1")));
    assert_eq!(list.visible_at(1), Some(&entry("2 world", "2")));
    assert_eq!(list.visible_at(2), Some(&entry("3 help", "3")));
    assert_eq!(list.visible_at(3), None);
}

#[test]
fn the_needle_may_stand_anywhere_in_the_label() {
    let backing = vec![entry("b", "b"), entry("bo", "bo"), entry("pr", "pr"), entry("Pb", "Pb")];
    let mut list = FilterableList::new(backing.clone());
    list.set_filter("b");
    assert_eq!(list.visible(), vec![entry("b", "b"), entry("bo", "bo"), entry("Pb", "Pb")]);
    list.set_filter("p");
    assert_eq!(list.visible(), vec![entry("pr", "pr"), entry("Pb", "Pb")]);
    list.set_filter("o");
    assert_eq!(list.visible(), vec![entry("bo", "bo")]);
    list.set_filter("boo");
    assert_eq!(list.visible(), vec![]);
    list.set_filter("");
    assert_eq!(list.visible(), backing);
}

#[test]
fn needle_longer_than_label_matches_nothing() {
    let mut list = FilterableList::new(vec![entry("ab", "1")]);
    list.set_filter("abc");
    assert_eq!(list.visible_len(), 0);
    list.set_filter("ab");
    assert_eq!(list.visible_len(), 1);
}

#[test]
fn equal_entries_are_all_kept() {
    let backing = vec![entry("x", "1"), entry("x", "1"), entry("y", "2"), entry("x", "1")];
    let mut list = FilterableList::new(backing);
    list.set_filter("x");
    assert_eq!(list.visible(), vec![entry("x", "1"), entry("x", "1"), entry("x", "1")]);
}
