//! Boards: the top level of the service.

use crate::filter::{models, EntryModel, ListEntry};
use crate::sort::{sort_by_key, sorted_by_key};
use crate::text::{pad_left, pad_right, padding_of, push_spaces};
use vstd::prelude::*;
use vstd::string::*;

verus! {

/// A board, as the service lists it.
#[derive(Debug, PartialEq, Eq)]
pub struct Board {
    /// Board id, like "pr" or "b".
    pub id: String,
    /// Board's category.
    pub category: String,
    /// Name of the board.
    pub name: String,
}

/// A board as three character sequences.
pub struct BoardModel {
    pub id: Seq<char>,
    pub category: Seq<char>,
    pub name: Seq<char>,
}

impl View for Board {
    type V = BoardModel;

    open spec fn view(&self) -> BoardModel {
        BoardModel { id: self.id@, category: self.category@, name: self.name@ }
    }
}

impl Clone for Board {
    fn clone(&self) -> (copy: Board)
        ensures
            copy@ == self@,
    {
        Board { id: self.id.clone(), category: self.category.clone(), name: self.name.clone() }
    }
}

/// The models of a run of boards.
pub open spec fn board_models(boards: Seq<Board>) -> Seq<BoardModel> {
    boards.map_values(|b: Board| b@)
}

/// The models of groups of boards.
pub open spec fn group_models(groups: Seq<Vec<Board>>) -> Seq<Seq<BoardModel>> {
    groups.map_values(|g: Vec<Board>| board_models(g@))
}

/// The entry that stands for a board in a selection view: the board's id is
/// shown, and the board's id is what a selection yields.
pub open spec fn board_entry_model(board: BoardModel) -> EntryModel {
    EntryModel { label: board.id, key: board.id }
}

/// The entries of a selection view over `boards`, in ascending order of the
/// board ids.
pub open spec fn board_entry_models(boards: Seq<BoardModel>) -> Seq<EntryModel> {
    sorted_by_key(boards.map_values(|b: BoardModel| board_entry_model(b)))
}

/// The line that lists a board: the id at the right of a field of ten, the
/// category at the left of a field of twenty, then the name.
pub open spec fn board_line(board: BoardModel) -> Seq<char> {
    pad_left(board.id, 10) + seq![' '] + pad_right(board.category, 20) + seq![' '] + board.name
}

/// All boards of all groups, group after group.
pub fn collect_boards(groups: &Vec<Vec<Board>>) -> (boards: Vec<Board>)
    ensures
        board_models(boards@) == group_models(groups@).flatten(),
{
    let mut boards: Vec<Board> = Vec::new();
    let ghost all = group_models(groups@);
    let mut g: usize = 0;
    proof {
        assert(all.take(0) =~= Seq::<Seq<BoardModel>>::empty());
        assert(board_models(boards@) =~= all.take(0).flatten());
    }
    while g < groups.len()
        invariant
            g <= groups.len(),
            all == group_models(groups@),
            board_models(boards@) == all.take(g as int).flatten(),
        decreases groups.len() - g,
    {
        let group = &groups[g];
        let ghost before = board_models(boards@);
        let mut i: usize = 0;
        assert(board_models(boards@) =~= before + board_models(group@).take(0));
        while i < group.len()
            invariant
                i <= group.len(),
                board_models(boards@) == before + board_models(group@).take(i as int),
            decreases group.len() - i,
        {
            let board = group[i].clone();
            assert(board@ == group@[i as int]@);
            let ghost prior = boards@;
            boards.push(board);
            assert(board_models(boards@) =~= board_models(prior).push(board@));
            assert(board_models(group@).take(i + 1) =~= board_models(group@).take(i as int).push(
                group@[i as int]@,
            ));
            i = i + 1;
        }
        proof {
            assert(board_models(group@).take(i as int) =~= board_models(group@));
            assert(all.take(g + 1) =~= all.take(g as int).push(all[g as int]));
            all.take(g as int).lemma_flatten_push(all[g as int]);
        }
        g = g + 1;
    }
    proof {
        assert(all.take(g as int) =~= all);
    }
    boards
}

/// The entry that stands for a board in a selection view.
pub fn board_entry(board: &Board) -> (entry: ListEntry)
    ensures
        entry@ == board_entry_model(board@),
{
    ListEntry { label: board.id.clone(), key: board.id.clone() }
}

/// The entries of a selection view over `boards`, in ascending order of the
/// board ids.
pub fn board_entries(boards: &Vec<Board>) -> (entries: Vec<ListEntry>)
    ensures
        models(entries@) == board_entry_models(board_models(boards@)),
{
    let mut raw: Vec<ListEntry> = Vec::new();
    let ghost want = board_models(boards@).map_values(|b: BoardModel| board_entry_model(b));
    let mut i: usize = 0;
    while i < boards.len()
        invariant
            i <= boards.len(),
            want == board_models(boards@).map_values(|b: BoardModel| board_entry_model(b)),
            models(raw@) == want.take(i as int),
        decreases boards.len() - i,
    {
        let entry = board_entry(&boards[i]);
        let ghost before = raw@;
        raw.push(entry);
        assert(models(raw@) =~= models(before).push(entry@));
        assert(want.take(i + 1) =~= want.take(i as int).push(entry@));
        i = i + 1;
    }
    assert(want.take(i as int) =~= want);
    sort_by_key(raw)
}

/// The line that lists a board.
pub fn format_board(board: &Board) -> (line: String)
    ensures
        line@ == board_line(board@),
{
    let mut line = String::new();
    push_spaces(&mut line, padding_of(board.id.as_str(), 10));
    line.append(board.id.as_str());
    line.push(' ');
    line.append(board.category.as_str());
    push_spaces(&mut line, padding_of(board.category.as_str(), 20));
    line.push(' ');
    line.append(board.name.as_str());
    assert(line@ =~= board_line(board@));
    line
}

} // verus!
