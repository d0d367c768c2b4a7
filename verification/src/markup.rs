//! From comment markup to plain text.
//!
//! A comment arrives as a fragment of HTML. The fragment is handed to a
//! tolerant HTML parser, which never fails, and what is kept of the tree it
//! builds is the sequence of its text nodes. The two renderings of a comment,
//! the teaser and the body, are made from that sequence.

use vstd::prelude::*;
use vstd::string::*;

verus! {

/// The text nodes of the tree that the HTML parser builds from `fragment`,
/// in document order.
pub uninterp spec fn fragment_text_nodes(fragment: Seq<char>) -> Seq<Seq<char>>;

/// The character sequences of a run of strings.
pub open spec fn texts(strings: Seq<String>) -> Seq<Seq<char>> {
    strings.map_values(|s: String| s@)
}

/// `scraper::Html::parse_fragment`, then `Html::root_element` and
/// `ElementRef::text`: parses `fragment` as an HTML fragment and walks the
/// text nodes below the root element in document order. The parser recovers
/// from any malformed input, so every fragment has a tree. What is claimed
/// is that the nodes depend on the characters of `fragment` alone.
#[verifier::external_body]
pub(crate) fn text_nodes(fragment: &str) -> (nodes: Vec<String>)
    ensures
        texts(nodes@) == fragment_text_nodes(fragment@),
{
    scraper::Html::parse_fragment(fragment).root_element().text().map(String::from).collect()
}

/// The text nodes of a comment. The empty comment has none.
pub open spec fn comment_nodes(comment: Seq<char>) -> Seq<Seq<char>> {
    if comment.len() == 0 {
        Seq::empty()
    } else {
        fragment_text_nodes(comment)
    }
}

/// The parts with a line break between each two neighbours.
pub open spec fn join_lines(parts: Seq<Seq<char>>) -> Seq<char>
    decreases parts.len(),
{
    if parts.len() == 0 {
        Seq::empty()
    } else if parts.len() == 1 {
        parts[0]
    } else {
        join_lines(parts.drop_last()) + seq!['\n'] + parts.last()
    }
}

/// The first part, or the empty text where there is none.
pub open spec fn first_or_empty(parts: Seq<Seq<char>>) -> Seq<char> {
    if parts.len() == 0 {
        Seq::empty()
    } else {
        parts[0]
    }
}

/// The text up to its first line break, or all of it where it has none.
pub open spec fn first_line(text: Seq<char>) -> Seq<char>
    decreases text.len(),
{
    if text.len() == 0 || text[0] == '\n' {
        Seq::empty()
    } else {
        seq![text[0]] + first_line(text.skip(1))
    }
}

/// The body of a comment: all its text nodes, one per line.
pub open spec fn body_text(comment: Seq<char>) -> Seq<char> {
    join_lines(comment_nodes(comment))
}

/// The teaser of a comment: its first text node.
pub open spec fn teaser_text(comment: Seq<char>) -> Seq<char> {
    first_or_empty(comment_nodes(comment))
}

/// The text nodes of a comment, in document order.
pub fn comment_text_nodes(comment: &str) -> (nodes: Vec<String>)
    ensures
        texts(nodes@) == comment_nodes(comment@),
{
    if comment.is_empty() {
        let nodes: Vec<String> = Vec::new();
        assert(texts(nodes@) =~= Seq::<Seq<char>>::empty());
        nodes
    } else {
        text_nodes(comment)
    }
}

/// Joins text nodes into a body, with a line break between each two.
pub fn join_text_nodes(nodes: &Vec<String>) -> (body: String)
    ensures
        body@ == join_lines(texts(nodes@)),
{
    let mut body = String::new();
    let ghost parts = texts(nodes@);
    let mut i: usize = 0;
    proof {
        assert(parts.take(0) =~= Seq::<Seq<char>>::empty());
    }
    while i < nodes.len()
        invariant
            i <= nodes.len(),
            parts == texts(nodes@),
            body@ == join_lines(parts.take(i as int)),
        decreases nodes.len() - i,
    {
        proof {
            assert(parts.take(i + 1).drop_last() =~= parts.take(i as int));
            assert(parts.take(i + 1).last() == nodes@[i as int]@);
        }
        if i > 0 {
            body.push('\n');
            body.append(nodes[i].as_str());
        } else {
            body.append(nodes[i].as_str());
            assert(body@ =~= nodes@[0]@);
        }
        i = i + 1;
    }
    proof {
        assert(parts.take(i as int) =~= parts);
    }
    body
}

/// The first text node, or the empty string where there is none.
pub fn first_text_node(nodes: &Vec<String>) -> (teaser: String)
    ensures
        teaser@ == first_or_empty(texts(nodes@)),
{
    if nodes.len() == 0 {
        String::new()
    } else {
        nodes[0].clone()
    }
}

/// The first line of a text is a prefix of the text, and all of the text
/// where the text has no line break.
pub proof fn lemma_first_line_is_prefix(text: Seq<char>)
    ensures
        first_line(text).is_prefix_of(text),
        !text.contains('\n') ==> first_line(text) == text,
        !first_line(text).contains('\n'),
    decreases text.len(),
{
    if text.len() == 0 || text[0] == '\n' {
        if text.len() > 0 {
            assert(text.contains('\n'));
        } else {
            assert(first_line(text) =~= text);
        }
    } else {
        let tail = text.skip(1);
        lemma_first_line_is_prefix(tail);
        let line = first_line(text);
        assert(line =~= text.subrange(0, line.len() as int)) by {
            assert forall|k: int| 0 <= k < line.len() implies line[k] == text[k] by {
                if k > 0 {
                    let shorter = first_line(tail);
                    assert(shorter[k - 1] == tail.subrange(0, shorter.len() as int)[k - 1]);
                }
            }
        }
        if !text.contains('\n') {
            assert(!tail.contains('\n')) by {
                if tail.contains('\n') {
                    let k = choose|k: int| 0 <= k < tail.len() && tail[k] == '\n';
                    assert(text[k + 1] == '\n');
                }
            }
            assert(line =~= text);
        }
        assert(!line.contains('\n')) by {
            if line.contains('\n') {
                let k = choose|k: int| 0 <= k < line.len() && line[k] == '\n';
                if k > 0 {
                    assert(first_line(tail)[k - 1] == '\n');
                }
            }
        }
    }
}

/// What follows a line break does not reach the first line.
pub proof fn lemma_first_line_stops_at_break(head: Seq<char>, tail: Seq<char>)
    ensures
        first_line(head + seq!['\n'] + tail) == first_line(head),
    decreases head.len(),
{
    let whole = head + seq!['\n'] + tail;
    if head.len() == 0 {
        assert(whole[0] == '\n');
    } else {
        assert(whole[0] == head[0]);
        if head[0] != '\n' {
            assert(whole.skip(1) =~= head.skip(1) + seq!['\n'] + tail);
            lemma_first_line_stops_at_break(head.skip(1), tail);
        }
    }
}

/// A joined text begins with its first part, and goes on, if at all, with
/// a line break.
pub proof fn lemma_join_lines_head(parts: Seq<Seq<char>>)
    requires
        parts.len() > 0,
    ensures
        parts.len() == 1 ==> join_lines(parts) == parts[0],
        parts.len() > 1 ==> exists|tail: Seq<char>|
            join_lines(parts) == parts[0] + seq!['\n'] + tail,
    decreases parts.len(),
{
    if parts.len() == 2 {
        assert(join_lines(parts.drop_last()) == parts[0]);
        assert(join_lines(parts) == parts[0] + seq!['\n'] + parts.last());
    } else if parts.len() > 2 {
        let head = parts.drop_last();
        lemma_join_lines_head(head);
        let tail = choose|tail: Seq<char>| join_lines(head) == head[0] + seq!['\n'] + tail;
        assert(join_lines(parts) =~= parts[0] + seq!['\n'] + (tail + seq!['\n'] + parts.last()));
    }
}

/// The teaser and the body of a comment begin alike: up to the first line
/// break they are the same text. So the first line of the body is a prefix
/// of the teaser, and it is the whole teaser where the teaser has no line
/// break in it; and a comment without text has the empty teaser and the
/// empty body.
pub proof fn lemma_teaser_opens_body(comment: Seq<char>)
    ensures
        first_line(body_text(comment)) == first_line(teaser_text(comment)),
        first_line(body_text(comment)).is_prefix_of(teaser_text(comment)),
        !teaser_text(comment).contains('\n') ==> teaser_text(comment) == first_line(
            body_text(comment),
        ),
        comment_nodes(comment).len() == 0 ==> teaser_text(comment).len() == 0 && body_text(
            comment,
        ).len() == 0,
{
    let parts = comment_nodes(comment);
    if parts.len() > 0 {
        lemma_join_lines_head(parts);
        if parts.len() > 1 {
            let tail = choose|tail: Seq<char>| join_lines(parts) == parts[0] + seq!['\n'] + tail;
            lemma_first_line_stops_at_break(parts[0], tail);
        }
    }
    lemma_first_line_is_prefix(teaser_text(comment));
}

} // verus!
