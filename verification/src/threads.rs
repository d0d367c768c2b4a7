//! Threads: the discussions of a board.

use crate::filter::{models, EntryModel, ListEntry};
use crate::layout::{layout, layout_text, INDENT};
use crate::markup::{comment_text_nodes, first_text_node, teaser_text};
use crate::paint::{shows_as, tinted, Palette, Tint};
use crate::sort::{sort_by_key, sorted_by_key};
use vstd::prelude::*;
use vstd::string::*;

verus! {

/// A thread, as the catalogue of a board lists it.
#[derive(Debug, PartialEq, Eq)]
pub struct Thread {
    /// Thread id.
    pub id: String,
    /// Thread subject.
    pub subject: String,
    /// Beginning of the thread's first post, as markup.
    pub comment: String,
}

/// A thread as three character sequences.
pub struct ThreadModel {
    pub id: Seq<char>,
    pub subject: Seq<char>,
    pub comment: Seq<char>,
}

impl View for Thread {
    type V = ThreadModel;

    open spec fn view(&self) -> ThreadModel {
        ThreadModel { id: self.id@, subject: self.subject@, comment: self.comment@ }
    }
}

impl Clone for Thread {
    fn clone(&self) -> (copy: Thread)
        ensures
            copy@ == self@,
    {
        Thread {
            id: self.id.clone(),
            subject: self.subject.clone(),
            comment: self.comment.clone(),
        }
    }
}

/// The models of a run of threads.
pub open spec fn thread_models(threads: Seq<Thread>) -> Seq<ThreadModel> {
    threads.map_values(|t: Thread| t@)
}

/// The entry that stands for a thread in a selection view: the id and the
/// teaser of the comment are shown, and the id is what a selection yields.
pub open spec fn thread_entry_model(thread: ThreadModel) -> EntryModel {
    EntryModel { label: thread.id + seq![' '] + teaser_text(thread.comment), key: thread.id }
}

/// The entries of a selection view over `threads`, in ascending order of
/// the thread ids.
pub open spec fn thread_entry_models(threads: Seq<ThreadModel>) -> Seq<EntryModel> {
    sorted_by_key(threads.map_values(|t: ThreadModel| thread_entry_model(t)))
}

/// A thread in a listing: the id as it is shown, the subject, and below
/// them the teaser, laid out.
pub open spec fn thread_block(id_shown: Seq<char>, thread: ThreadModel, width: usize) -> Seq<char> {
    id_shown + seq![' '] + thread.subject + seq!['\n'] + layout_text(
        teaser_text(thread.comment),
        width,
        INDENT@,
    )
}

/// The teaser of a comment: its first text node, or the empty string for a
/// comment without text.
pub fn parse_thread_comment(comment: &str) -> (teaser: String)
    ensures
        teaser@ == teaser_text(comment@),
        comment@.len() == 0 ==> teaser@.len() == 0,
{
    let nodes = comment_text_nodes(comment);
    first_text_node(&nodes)
}

/// The entry that stands for a thread in a selection view.
pub fn thread_entry(thread: &Thread) -> (entry: ListEntry)
    ensures
        entry@ == thread_entry_model(thread@),
{
    let teaser = parse_thread_comment(thread.comment.as_str());
    let mut label = thread.id.clone();
    label.push(' ');
    label.append(teaser.as_str());
    assert(label@ =~= thread@.id + seq![' '] + teaser_text(thread@.comment));
    ListEntry { label, key: thread.id.clone() }
}

/// The entries of a selection view over `threads`, in ascending order of
/// the thread ids.
pub fn thread_entries(threads: &Vec<Thread>) -> (entries: Vec<ListEntry>)
    ensures
        models(entries@) == thread_entry_models(thread_models(threads@)),
{
    let mut raw: Vec<ListEntry> = Vec::new();
    let ghost want = thread_models(threads@).map_values(|t: ThreadModel| thread_entry_model(t));
    let mut i: usize = 0;
    while i < threads.len()
        invariant
            i <= threads.len(),
            want == thread_models(threads@).map_values(|t: ThreadModel| thread_entry_model(t)),
            models(raw@) == want.take(i as int),
        decreases threads.len() - i,
    {
        let entry = thread_entry(&threads[i]);
        let ghost before = raw@;
        raw.push(entry);
        assert(models(raw@) =~= models(before).push(entry@));
        assert(want.take(i + 1) =~= want.take(i as int).push(entry@));
        i = i + 1;
    }
    assert(want.take(i as int) =~= want);
    sort_by_key(raw)
}

/// A thread for a listing. With a palette that has colour the id is
/// tinted blue, and comes out in one of the ways a tinted text can.
pub fn format_thread(thread: &Thread, width: usize, palette: Palette) -> (block: String)
    ensures
        exists|id_shown: Seq<char>|
            shows_as(id_shown, thread@.id, Tint::Blue) && block@ == #[trigger] thread_block(
                id_shown,
                thread@,
                width,
            ),
        palette == Palette::Plain ==> block@ == thread_block(thread@.id, thread@, width),
{
    let mut block = tinted(thread.id.as_str(), Tint::Blue, palette);
    let ghost id_shown = block@;
    block.push(' ');
    block.append(thread.subject.as_str());
    block.push('\n');
    let teaser = parse_thread_comment(thread.comment.as_str());
    let laid = layout(teaser.as_str(), width, INDENT);
    block.append(laid.as_str());
    assert(block@ =~= thread_block(id_shown, thread@, width));
    block
}

} // verus!
