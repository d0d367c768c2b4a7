use dvach::layout::{indent, layout, DEFAULT_WIDTH, INDENT};

#[test]
fn defaults() {
    assert_eq!(DEFAULT_WIDTH, 80);
    assert_eq!(INDENT, "  ");
}

#[test]
fn short_lines_come_back_indented_and_unsplit() {
    assert_eq!(layout("one\ntwo", 80, "  "), "  one\n  two");
    assert_eq!(layout("a b c\nd e f\ng", 7, "  "), "  a b c\n  d e f\n  g");
    assert_eq!(layout("hello", 80, INDENT), "  hello");
}

#[test]
fn every_short_line_gets_the_prefix() {
    let text = "alpha beta\ngamma\n\ndelta epsilon zeta\nend";
    let width = 40;
    for line in text.lines() {
        assert!(line.chars().count() <= width - 2);
    }
    let out = layout(text, width, "  ");
    let got: Vec<&str> = out.split('\n').collect();
    let want: Vec<String> = text.split('\n').map(|l| format!("  {}", l)).collect();
    assert_eq!(got, want);
}

#[test]
fn short_lines_keep_their_inner_and_leading_blanks() {
    assert_eq!(layout("  lead\n\ttab\na  b", 10, "  "), "    lead\n  \ttab\n  a  b");
    assert_eq!(layout("123456789", 10, "  "), "  123456789");
    assert_eq!(layout("1234567\n12345678\n123456789", 10, "> "), "> 1234567\n> 12345678\n> 123456789");
    assert_eq!(layout("\n\nx\n\n", 2, "  "), "  \n  \n  x\n  \n");
}

#[test]
fn spaces_at_the_end_of_a_line_are_dropped_by_wrapping() {
    assert_eq!(layout("a \nb", 10, "  "), "  a\n  b");
    assert_eq!(layout("word   ", 80, "  "), "  word");
}

#[test]
fn empty_lines_are_indented_too() {
    assert_eq!(layout("one\n\ntwo", 80, "  "), "  one\n  \n  two");
    assert_eq!(indent("one\n\n\ntwo", "  "), "  one\n  \n  \n  two");
    assert_eq!(indent("\n", "> "), "> \n");
}

#[test]
fn a_final_line_break_ends_the_last_line() {
    assert_eq!(indent("one\ntwo\n", "  "), "  one\n  two\n");
    assert_eq!(layout("one\ntwo\n", 80, "  "), "  one\n  two\n");
}

#[test]
fn empty_text_has_no_line() {
    assert_eq!(indent("", "  "), "");
    assert_eq!(layout("", 80, "  "), "");
}

#[test]
fn indent_with_other_prefixes() {
    assert_eq!(indent("a\nb", ""), "a\nb");
    assert_eq!(indent("a\nb", "-> "), "-> a\n-> b");
    assert_eq!(indent("x", "    "), "    x");
}

#[test]
fn long_text_is_wrapped_at_spaces() {
    assert_eq!(
        layout("Memory safety without garbage collection.", 15, "  "),
        "  Memory safety\n  without garbage\n  collection."
    );
    assert_eq!(
        layout("To be, or not to be: that is the question", 10, "  "),
        "  To be, or\n  not to be:\n  that is\n  the\n  question"
    );
}

#[test]
fn wrapped_lines_fit_the_width_before_indenting() {
    let text = "the quick brown fox jumps over the lazy dog and keeps on running far away";
    for width in [10, 16, 20, 33, 80] {
        let out = layout(text, width, "  ");
        for line in out.split('\n') {
            assert!(line.starts_with("  "));
            assert!(line.chars().count() <= width + 2);
        }
        let words_out: Vec<&str> = out.split_whitespace().collect();
        let words_in: Vec<&str> = text.split_whitespace().collect();
        assert_eq!(words_out, words_in);
    }
}

#[test]
fn a_word_longer_than_the_width_stays_whole_on_its_own_line() {
    assert_eq!(layout("aaaaaaaaaaaaaaaaaaaa bb", 5, "  "), "  aaaaaaaaaaaaaaaaaaaa\n  bb");
    assert_eq!(layout("x averyveryverylongword y", 6, "  "), "  x\n  averyveryverylongword\n  y");
    assert_eq!(layout("well-known-hyphenated-word", 8, "  "), "  well-known-hyphenated-word");
}

#[test]
fn existing_line_breaks_are_kept_when_wrapping() {
    assert_eq!(
        layout("first line is long\nsecond", 10, "  "),
        "  first line\n  is long\n  second"
    );
}

#[test]
fn width_zero_puts_every_word_on_its_own_line() {
    assert_eq!(layout("a b c", 0, "  "), "  a\n  b\n  c");
}

/// A small generator of numbers that look random and are the same on every
/// run.
struct Dice(u64);

impl Dice {
    fn roll(&mut self, sides: u64) -> u64 {
        self.0 = self.0.wrapping_mul(6364136223846793005).wrapping_add(1442695040888963407);
        (self.0 >> 33) % sides
    }
}

fn fits(text: &str, width: usize) -> bool {
    width > 0
        && text.is_ascii()
        && text.split('\n').all(|line| line.len() < width && !line.ends_with(' '))
}

#[test]
fn texts_that_fit_are_only_indented() {
    let alphabet = ['a', 'b', 'Z', '7', ' ', ' ', '\n', '\t', '-', '.'];
    let mut dice = Dice(2019);
    let mut tried = 0;
    for _ in 0..4000 {
        let len = dice.roll(24) as usize;
        let text: String = (0..len).map(|_| alphabet[dice.roll(10) as usize]).collect();
        let width = 1 + dice.roll(12) as usize;
        if !fits(&text, width) {
            continue;
        }
        tried += 1;
        let out = layout(&text, width, "  ");
        assert_eq!(out, indent(&text, "  "), "text {:?} at width {}", text, width);
        let lines_out: Vec<&str> = out.lines().collect();
        let lines_in: Vec<String> = text.lines().map(|line| format!("  {}", line)).collect();
        assert_eq!(lines_out, lines_in, "text {:?} at width {}", text, width);
    }
    assert!(tried > 300);
}

#[test]
fn indent_goes_line_by_line() {
    let alphabet = ['a', ' ', '\n', '\n', 'x', 'я'];
    let mut dice = Dice(7);
    for _ in 0..2000 {
        let len = dice.roll(16) as usize;
        let text: String = (0..len).map(|_| alphabet[dice.roll(6) as usize]).collect();
        let out = indent(&text, "> ");
        let lines_out: Vec<&str> = out.lines().collect();
        let lines_in: Vec<String> = text.lines().map(|line| format!("> {}", line)).collect();
        assert_eq!(lines_out, lines_in, "text {:?}", text);
        assert_eq!(out.ends_with('\n'), text.ends_with('\n'));
    }
}
