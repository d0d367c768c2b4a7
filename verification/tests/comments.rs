use dvach::markup::{comment_text_nodes, first_text_node, join_text_nodes};
use dvach::posts::parse_comment;
use dvach::threads::parse_thread_comment;

fn first_line(text: &str) -> &str {
    match text.find('\n') {
        Some(at) => &text[..at],
        None => text,
    }
}

#[test]
fn body_of_empty_comment_is_empty() {
    assert_eq!(parse_comment(""), "");
}

#[test]
fn body_joins_text_nodes_with_newlines() {
    assert_eq!(parse_comment("<span>a</span><br><span>b</span>"), "a\nb");
}

#[test]
fn teaser_of_empty_comment_is_empty() {
    assert_eq!(parse_thread_comment(""), "");
}

#[test]
fn teaser_is_the_first_text_node() {
    assert_eq!(parse_thread_comment("<span>a</span><br><span>b</span>"), "a");
    assert_eq!(parse_thread_comment("first<br>second"), "first");
    assert_eq!(parse_thread_comment("<b><i>deep</i></b> tail"), "deep");
}

#[test]
fn comment_without_text_has_empty_teaser_and_body() {
    assert_eq!(parse_thread_comment("<br>"), "");
    assert_eq!(parse_comment("<br>"), "");
    assert_eq!(parse_comment("<span></span><br><br>"), "");
}

#[test]
fn tags_leave_no_text_of_their_own() {
    assert_eq!(parse_comment("plain"), "plain");
    assert_eq!(parse_comment("<a href=\"/b/res/1.html\">&gt;&gt;1</a><br>ok"), ">>1\nok");
    assert_eq!(parse_comment("one<br>two<br>three"), "one\ntwo\nthree");
}

#[test]
fn malformed_markup_still_renders() {
    assert_eq!(parse_comment("<span>open <b>bold"), "open \nbold");
    assert_eq!(parse_comment("text</div></span>more"), "textmore");
    assert_eq!(parse_comment("<unknown-tag>x</unknown-tag>"), "x");
    assert_eq!(parse_thread_comment("<span>open <b>bold"), "open ");
    assert_eq!(parse_comment("a < b"), "a < b");
}

#[test]
fn text_nodes_come_in_document_order() {
    let nodes = comment_text_nodes("<span>a</span><br><span>b</span>c");
    assert_eq!(nodes, vec!["a".to_string(), "b".to_string(), "c".to_string()]);
    assert_eq!(comment_text_nodes(""), Vec::<String>::new());
}

#[test]
fn join_text_nodes_puts_one_newline_between_neighbours() {
    let none: Vec<String> = vec![];
    assert_eq!(join_text_nodes(&none), "");
    assert_eq!(join_text_nodes(&vec!["a".to_string()]), "a");
    assert_eq!(join_text_nodes(&vec!["a".to_string(), "b".to_string()]), "a\nb");
    assert_eq!(
        join_text_nodes(&vec!["a".to_string(), "".to_string(), "b".to_string()]),
        "a\n\nb"
    );
}

#[test]
fn first_text_node_is_empty_without_nodes() {
    let none: Vec<String> = vec![];
    assert_eq!(first_text_node(&none), "");
    assert_eq!(first_text_node(&vec!["x".to_string(), "y".to_string()]), "x");
}

#[test]
fn teaser_and_body_share_their_first_line() {
    for comment in [
        "",
        "<br>",
        "plain text",
        "<span>a</span><br><span>b</span>",
        "first<br>second<br>third",
        "line one\nline two<br>next",
        "<b>x</b>y",
        "<span>unclosed",
    ] {
        let teaser = parse_thread_comment(comment);
        let body = parse_comment(comment);
        assert_eq!(first_line(&body), first_line(&teaser));
        assert!(teaser.starts_with(first_line(&body)));
        if !teaser.contains('\n') {
            assert_eq!(teaser, first_line(&body));
        }
    }
}

#[test]
fn teaser_with_a_line_break_is_longer_than_the_first_line_of_the_body() {
    let comment = "line one\nline two<br>next";
    assert_eq!(parse_thread_comment(comment), "line one\nline two");
    assert_eq!(parse_comment(comment), "line one\nline two\nnext");
}
