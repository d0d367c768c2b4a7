//! What the program is asked to do.

use crate::text::{lemma_lex_le_antisymmetric, lemma_lex_le_reflexive, str_le};
use vstd::prelude::*;
use vstd::string::*;

verus! {

/// What a run of the program does.
#[derive(Debug, PartialEq, Eq)]
pub enum Command {
    /// Fetch the file at this path and write it to the standard output.
    Download(String),
    /// Browse the service in the terminal, starting at the boards.
    Browse,
    /// Print the boards.
    ListBoards,
    /// Print the threads of this board.
    ListThreads(String),
    /// Print the posts of this thread of this board.
    ListPosts(String, usize),
    /// Print how the program is called.
    Help,
}

/// A command as mathematics sees it.
pub enum CommandModel {
    Download(Seq<char>),
    Browse,
    ListBoards,
    ListThreads(Seq<char>),
    ListPosts(Seq<char>, usize),
    Help,
}

impl View for Command {
    type V = CommandModel;

    open spec fn view(&self) -> CommandModel {
        match *self {
            Command::Download(path) => CommandModel::Download(path@),
            Command::Browse => CommandModel::Browse,
            Command::ListBoards => CommandModel::ListBoards,
            Command::ListThreads(board) => CommandModel::ListThreads(board@),
            Command::ListPosts(board, thread) => CommandModel::ListPosts(board@, thread),
            Command::Help => CommandModel::Help,
        }
    }
}

/// The command that the arguments stand for. A path to download comes
/// before all else; no board and no thread means browsing; the board `.`
/// means the list of boards; a thread without a board means nothing.
pub open spec fn planned(
    download: Option<Seq<char>>,
    board: Option<Seq<char>>,
    thread: Option<usize>,
) -> CommandModel {
    match (download, board, thread) {
        (Some(path), _, _) => CommandModel::Download(path),
        (None, None, None) => CommandModel::Browse,
        (None, Some(b), None) => if b == "."@ {
            CommandModel::ListBoards
        } else {
            CommandModel::ListThreads(b)
        },
        (None, Some(b), Some(t)) => CommandModel::ListPosts(b, t),
        (None, None, Some(_)) => CommandModel::Help,
    }
}

/// The characters of an optional string.
pub open spec fn text_of(s: Option<String>) -> Option<Seq<char>> {
    match s {
        Some(s) => Some(s@),
        None => None,
    }
}

/// Whether two strings hold the same characters.
pub fn same_text(a: &str, b: &str) -> (same: bool)
    ensures
        same == (a@ == b@),
{
    let same = str_le(a, b) && str_le(b, a);
    proof {
        if same {
            lemma_lex_le_antisymmetric(a@, b@);
        }
        if a@ == b@ {
            lemma_lex_le_reflexive(a@);
        }
    }
    same
}

/// The command that the arguments stand for.
pub fn plan(download: Option<String>, board: Option<String>, thread: Option<usize>) -> (command:
    Command)
    ensures
        command@ == planned(text_of(download), text_of(board), thread),
{
    match download {
        Some(path) => Command::Download(path),
        None => match (board, thread) {
            (None, None) => Command::Browse,
            (Some(b), None) => {
                if same_text(b.as_str(), ".") {
                    Command::ListBoards
                } else {
                    Command::ListThreads(b)
                }
            },
            (Some(b), Some(t)) => Command::ListPosts(b, t),
            (None, Some(_)) => Command::Help,
        },
    }
}

} // verus!
