//! Laying text out for display.
//!
//! Text is first wrapped to a column width and then indented: every line of
//! the wrapped text gets the same prefix, the empty lines too. Wrapping is
//! the word wrapper's work; indenting is done here.

use vstd::prelude::*;
use vstd::string::*;
use vstd::utf8::is_ascii_chars;

verus! {

/// The column width that is used where none is asked for.
pub const DEFAULT_WIDTH: usize = 80;

/// The prefix that display text is indented with.
pub const INDENT: &'static str = "  ";

/// `text` as the word wrapper fills it into lines of `width` columns.
pub uninterp spec fn wrapped_text(text: Seq<char>, width: usize) -> Seq<char>;

/// No character has been read yet, or the last one read was a line break:
/// what comes next begins a line.
pub open spec fn opens_line(head: Seq<char>) -> bool {
    head.len() == 0 || head.last() == '\n'
}

/// The lines of a text. A line break ends a line; it does not begin one, so
/// a text that ends in a line break has no empty line behind it, and the
/// empty text has no line at all.
pub open spec fn lines_of(text: Seq<char>) -> Seq<Seq<char>>
    decreases text.len(),
{
    if text.len() == 0 {
        Seq::empty()
    } else {
        let head = text.drop_last();
        let before = lines_of(head);
        if opens_line(head) {
            if text.last() == '\n' {
                before.push(Seq::empty())
            } else {
                before.push(seq![text.last()])
            }
        } else if text.last() == '\n' {
            before
        } else {
            before.update(before.len() - 1, before.last().push(text.last()))
        }
    }
}

/// Every line with `prefix` before it.
pub open spec fn prefixed(lines: Seq<Seq<char>>, prefix: Seq<char>) -> Seq<Seq<char>> {
    lines.map_values(|line: Seq<char>| prefix + line)
}

/// The text is plain ASCII, and each of its lines is shorter than `width`
/// and does not end in a space. The word wrapper leaves such a text as it
/// is.
pub open spec fn fits_unwrapped(text: Seq<char>, width: usize) -> bool {
    &&& width > 0
    &&& is_ascii_chars(text)
    &&& forall|k: int|
        0 <= k < lines_of(text).len() ==> {
            let line = #[trigger] lines_of(text)[k];
            line.len() < width && (line.len() > 0 ==> line.last() != ' ')
        }
}

/// `textwrap::fill`, with options that make it break lines at spaces only,
/// first fit, and leave a word that is longer than the width whole on a line
/// of its own. The result depends on the characters of `text` and on `width`
/// alone. A line of fewer bytes than `width` is passed through with the
/// spaces at its end taken off, so a text made of such lines, none of which
/// ends in a space, comes back unchanged.
#[verifier::external_body]
pub(crate) fn wrap(text: &str, width: usize) -> (wrapped: String)
    ensures
        wrapped@ == wrapped_text(text@, width),
        fits_unwrapped(text@, width) ==> wrapped@ == text@,
{
    let options = textwrap::Options::new(width)
        .break_words(false)
        .word_separator(textwrap::WordSeparator::AsciiSpace)
        .word_splitter(textwrap::WordSplitter::NoHyphenation)
        .wrap_algorithm(textwrap::WrapAlgorithm::FirstFit);
    textwrap::fill(text, options)
}

/// `text` with `prefix` put before every line of it.
pub open spec fn indented(text: Seq<char>, prefix: Seq<char>) -> Seq<char>
    decreases text.len(),
{
    if text.len() == 0 {
        Seq::empty()
    } else {
        let head = text.drop_last();
        let lead = if opens_line(head) {
            prefix
        } else {
            Seq::empty()
        };
        indented(head, prefix) + lead + seq![text.last()]
    }
}

/// `text` wrapped to `width` columns and then indented with `prefix`.
pub open spec fn layout_text(text: Seq<char>, width: usize, prefix: Seq<char>) -> Seq<char> {
    indented(wrapped_text(text, width), prefix)
}

/// Puts `prefix` before every line of `text`, the empty lines too.
pub fn indent(text: &str, prefix: &str) -> (out: String)
    ensures
        out@ == indented(text@, prefix@),
{
    let mut out = String::new();
    let mut fresh = true;
    for c in it: text.chars()
        invariant
            it.seq() == text@,
            out@ == indented(text@.take(it.index() as int), prefix@),
            fresh == opens_line(text@.take(it.index() as int)),
    {
        let ghost read = it.index() as int;
        proof {
            assert(text@.take(read + 1).drop_last() =~= text@.take(read));
            assert(text@.take(read + 1).last() == c);
        }
        if fresh {
            out.append(prefix);
        }
        out.push(c);
        fresh = c == '\n';
        proof {
            assert(out@ =~= indented(text@.take(read + 1), prefix@));
        }
    }
    proof {
        assert(text@.take(text@.len() as int) =~= text@);
    }
    out
}

/// Wraps `text` to `width` columns and indents every line of the result
/// with `prefix`, the empty lines too. A text that fits as it stands is only
/// indented: each of its lines comes out with the prefix before it, and no
/// line is split.
pub fn layout(text: &str, width: usize, prefix: &str) -> (out: String)
    ensures
        out@ == layout_text(text@, width, prefix@),
        !prefix@.contains('\n') ==> lines_of(out@) == prefixed(
            lines_of(wrapped_text(text@, width)),
            prefix@,
        ),
        fits_unwrapped(text@, width) ==> out@ == indented(text@, prefix@),
        fits_unwrapped(text@, width) && !prefix@.contains('\n') ==> lines_of(out@) == prefixed(
            lines_of(text@),
            prefix@,
        ),
{
    let wrapped = wrap(text, width);
    proof {
        if !prefix@.contains('\n') {
            lemma_indented_lines(wrapped@, prefix@);
        }
    }
    indent(wrapped.as_str(), prefix)
}

/// A text with a character has a line.
pub proof fn lemma_lines_exist(text: Seq<char>)
    ensures
        text.len() > 0 ==> lines_of(text).len() > 0,
        text.len() == 0 ==> lines_of(text).len() == 0,
    decreases text.len(),
{
    if text.len() > 0 {
        lemma_lines_exist(text.drop_last());
    }
}

/// Indenting keeps the end of a text: the indented text is empty only for
/// the empty text, and ends with the character that the text ends with.
pub proof fn lemma_indented_end(text: Seq<char>, prefix: Seq<char>)
    ensures
        indented(text, prefix).len() == 0 <==> text.len() == 0,
        text.len() > 0 ==> indented(text, prefix).last() == text.last(),
        opens_line(indented(text, prefix)) == opens_line(text),
{
}

/// The lines of a text that grew by a run without a line break: the run
/// is a new line where the text was at a line's start, and lengthens the
/// last line where it was not.
pub proof fn lemma_lines_grow(text: Seq<char>, run: Seq<char>)
    requires
        run.len() > 0,
        !run.contains('\n'),
    ensures
        lines_of(text + run) == if opens_line(text) {
            lines_of(text).push(run)
        } else {
            lines_of(text).update(lines_of(text).len() - 1, lines_of(text).last() + run)
        },
    decreases run.len(),
{
    let whole = text + run;
    let c = run.last();
    assert(run[run.len() - 1] == c);
    assert(c != '\n');
    assert(whole.last() == c);
    lemma_lines_exist(text);
    if run.len() == 1 {
        assert(whole.drop_last() =~= text);
        if opens_line(text) {
            assert(seq![c] =~= run);
        } else {
            assert(lines_of(text).last().push(c) =~= lines_of(text).last() + run);
        }
    } else {
        let shorter = run.drop_last();
        assert(!shorter.contains('\n')) by {
            if shorter.contains('\n') {
                let k = choose|k: int| 0 <= k < shorter.len() && shorter[k] == '\n';
                assert(run[k] == '\n');
            }
        }
        lemma_lines_grow(text, shorter);
        assert(whole.drop_last() =~= text + shorter);
        let head = text + shorter;
        assert(head.last() == shorter.last());
        assert(shorter[shorter.len() - 1] == run[run.len() - 2]);
        assert(!opens_line(head));
        if opens_line(text) {
            assert(shorter.push(c) =~= run);
            assert(lines_of(whole) =~= lines_of(text).push(run));
        } else {
            assert((lines_of(text).last() + shorter).push(c) =~= lines_of(text).last() + run);
            assert(lines_of(whole) =~= lines_of(text).update(
                lines_of(text).len() - 1,
                lines_of(text).last() + run,
            ));
        }
    }
}

/// Indenting goes line by line: the lines of the indented text are the
/// lines of the text, each with the prefix before it. No line is split and
/// none is joined to another.
pub proof fn lemma_indented_lines(text: Seq<char>, prefix: Seq<char>)
    requires
        !prefix.contains('\n'),
    ensures
        lines_of(indented(text, prefix)) == prefixed(lines_of(text), prefix),
    decreases text.len(),
{
    if text.len() == 0 {
        assert(lines_of(indented(text, prefix)) =~= prefixed(lines_of(text), prefix));
    } else {
        let head = text.drop_last();
        let c = text.last();
        let inner = indented(head, prefix);
        lemma_indented_lines(head, prefix);
        lemma_indented_end(head, prefix);
        lemma_lines_exist(head);
        lemma_lines_exist(inner);
        let before = lines_of(head);
        let lead = if opens_line(head) {
            prefix
        } else {
            Seq::empty()
        };
        let stem = inner + lead;
        let whole = indented(text, prefix);
        assert(whole =~= stem.push(c));
        assert(whole.drop_last() =~= stem);
        assert(whole.last() == c);
        if opens_line(head) && prefix.len() > 0 {
            lemma_lines_grow(inner, prefix);
            assert(stem.last() == prefix.last());
            assert(prefix[prefix.len() - 1] != '\n');
            assert(!opens_line(stem));
            assert(lines_of(stem) == lines_of(inner).push(prefix));
            if c == '\n' {
                assert(prefix + Seq::<char>::empty() =~= prefix);
                assert(prefixed(before.push(Seq::empty()), prefix) =~= prefixed(
                    before,
                    prefix,
                ).push(prefix));
            } else {
                assert(prefix + seq![c] =~= prefix.push(c));
                assert(lines_of(whole) =~= lines_of(inner).push(prefix.push(c)));
                assert(prefixed(before.push(seq![c]), prefix) =~= prefixed(before, prefix).push(
                    prefix.push(c),
                ));
            }
        } else if opens_line(head) {
            assert(stem =~= inner);
            assert(prefix =~= Seq::<char>::empty());
            if c == '\n' {
                assert(prefix + Seq::<char>::empty() =~= Seq::<char>::empty());
                assert(prefixed(before.push(Seq::empty()), prefix) =~= prefixed(
                    before,
                    prefix,
                ).push(Seq::empty()));
            } else {
                assert(prefix + seq![c] =~= seq![c]);
                assert(prefixed(before.push(seq![c]), prefix) =~= prefixed(before, prefix).push(
                    seq![c],
                ));
            }
        } else {
            assert(stem =~= inner);
            if c != '\n' {
                let last = before.len() - 1;
                assert(prefix + before.last().push(c) =~= (prefix + before.last()).push(c));
                assert(prefixed(before.update(last, before.last().push(c)), prefix) =~= prefixed(
                    before,
                    prefix,
                ).update(last, (prefix + before.last()).push(c)));
            }
        }
    }
}

} // verus!
