//! Colour for terminal output.
//!
//! Pieces of a listing are tinted for a terminal. Whether a tint is really
//! applied is the colouring library's decision, which it takes from the
//! environment of the process; so a tinted piece is known here only up to that
//! decision.

use crate::text::contains_seq;
use vstd::prelude::*;
use vstd::string::*;

verus! {

/// The tints that listings use.
#[derive(Clone, Copy, Debug, PartialEq, Eq, Structural)]
pub enum Tint {
    Blue,
    Green,
    Yellow,
}

/// Whether pieces are tinted at all.
#[derive(Clone, Copy, Debug, PartialEq, Eq, Structural)]
pub enum Palette {
    /// Text as it is.
    Plain,
    /// Text tinted for a terminal.
    Terminal,
}

/// The escape sequence that switches a tint on.
pub open spec fn tint_code(tint: Tint) -> Seq<char> {
    match tint {
        Tint::Blue => "\u{1b}[34m"@,
        Tint::Green => "\u{1b}[32m"@,
        Tint::Yellow => "\u{1b}[33m"@,
    }
}

/// The escape sequence that switches every tint off.
pub open spec fn reset_code() -> Seq<char> {
    "\u{1b}[0m"@
}

/// `shown` is a way in which `text` may come out when it is tinted: as it
/// is, where colour is off; between the tint's code and the reset code,
/// where colour is on. Of a text that holds the reset code itself nothing is
/// said.
pub open spec fn shows_as(shown: Seq<char>, text: Seq<char>, tint: Tint) -> bool {
    ||| shown == text
    ||| shown == tint_code(tint) + text + reset_code()
    ||| contains_seq(text, reset_code())
}

/// `colored::Colorize::blue` on a string slice, and the `Display` of the
/// `ColoredString` it gives. Where the library finds colour switched off
/// (by the environment, or because the output is no terminal) the text
/// comes out as it is; else it comes out after the code of the colour and
/// before the reset code, with the colour switched on again behind every
/// reset code that the text itself holds.
#[verifier::external_body]
pub(crate) fn paint_blue(text: &str) -> (shown: String)
    ensures
        shows_as(shown@, text@, Tint::Blue),
{
    colored::Colorize::blue(text).to_string()
}

/// `colored::Colorize::green` on a string slice, and the `Display` of the
/// `ColoredString` it gives: as `paint_blue`, with the code of green.
#[verifier::external_body]
pub(crate) fn paint_green(text: &str) -> (shown: String)
    ensures
        shows_as(shown@, text@, Tint::Green),
{
    colored::Colorize::green(text).to_string()
}

/// `colored::Colorize::yellow` on a string slice, and the `Display` of the
/// `ColoredString` it gives: as `paint_blue`, with the code of yellow.
#[verifier::external_body]
pub(crate) fn paint_yellow(text: &str) -> (shown: String)
    ensures
        shows_as(shown@, text@, Tint::Yellow),
{
    colored::Colorize::yellow(text).to_string()
}

/// `text` in the given tint where the palette has colour, and as it is
/// where it has none.
pub fn tinted(text: &str, tint: Tint, palette: Palette) -> (shown: String)
    ensures
        shows_as(shown@, text@, tint),
        palette == Palette::Plain ==> shown@ == text@,
{
    match palette {
        Palette::Plain => text.to_owned(),
        Palette::Terminal => match tint {
            Tint::Blue => paint_blue(text),
            Tint::Green => paint_green(text),
            Tint::Yellow => paint_yellow(text),
        },
    }
}

} // verus!
