//! Where the service is found.

use crate::text::{decimal_digits, push_decimal};
use vstd::prelude::*;
use vstd::string::*;

verus! {

/// The address of the list of boards.
pub open spec fn boards_address() -> Seq<char> {
    "https://2ch.hk/makaba/mobile.fcgi?task=get_boards"@
}

/// The address of the catalogue of a board.
pub open spec fn threads_address(board: Seq<char>) -> Seq<char> {
    "https://2ch.hk/"@ + board + "/catalog.json"@
}

/// The address of the posts of a thread.
pub open spec fn posts_address(board: Seq<char>, thread: usize) -> Seq<char> {
    "https://2ch.hk/"@ + board + "/res/"@ + decimal_digits(thread as nat) + ".json"@
}

/// The address of the list of boards.
pub fn boards_url() -> (url: String)
    ensures
        url@ == boards_address(),
{
    "https://2ch.hk/makaba/mobile.fcgi?task=get_boards".to_owned()
}

/// The address of the catalogue of `board`.
pub fn threads_url(board: &str) -> (url: String)
    ensures
        url@ == threads_address(board@),
{
    let mut url = "https://2ch.hk/".to_owned();
    url.append(board);
    url.append("/catalog.json");
    url
}

/// The address of the posts of `thread` on `board`.
pub fn posts_url(board: &str, thread: usize) -> (url: String)
    ensures
        url@ == posts_address(board@, thread),
{
    let mut url = "https://2ch.hk/".to_owned();
    url.append(board);
    url.append("/res/");
    push_decimal(&mut url, thread);
    url.append(".json");
    url
}

/// The address of the file at `path` below `base_url`.
pub fn download_url(base_url: &str, path: &str) -> (url: String)
    ensures
        url@ == base_url@ + path@,
{
    let mut url = base_url.to_owned();
    url.append(path);
    url
}

} // verus!
