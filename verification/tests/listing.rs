use dvach::boards::{board_entries, board_entry, collect_boards, format_board, Board};
use dvach::error::SessionError;
use dvach::filter::ListEntry;
use dvach::paint::{tinted, Palette, Tint};
use dvach::posts::{
    first_thread_posts, format_image, format_images, format_post, join_hints, Image, Post,
};
use dvach::threads::{format_thread, thread_entries, thread_entry, Thread};

fn board(id: &str, category: &str, name: &str) -> Board {
    Board { id: id.to_string(), category: category.to_string(), name: name.to_string() }
}

fn thread(id: &str, subject: &str, comment: &str) -> Thread {
    Thread { id: id.to_string(), subject: subject.to_string(), comment: comment.to_string() }
}

fn image(name: &str, fullname: &str, path: &str) -> Image {
    Image { name: name.to_string(), fullname: fullname.to_string(), path: path.to_string() }
}

fn post(id: usize, comment: &str, date: &str, images: Vec<Image>) -> Post {
    Post { id, comment: comment.to_string(), date: date.to_string(), images }
}

fn entry(label: &str, key: &str) -> ListEntry {
    ListEntry { label: label.to_string(), key: key.to_string() }
}

#[test]
fn board_line_has_its_fields_in_columns() {
    let b = board("pr", "Техника", "Программирование");
    assert_eq!(format_board(&b), format!("{:>10} {:20} {}", b.id, b.category, b.name));
    assert_eq!(format_board(&b), "        pr Техника              Программирование");
}

#[test]
fn board_line_leaves_long_fields_whole() {
    let b = board("averylongboardid", "a category of more than twenty letters", "n");
    assert_eq!(
        format_board(&b),
        "averylongboardid a category of more than twenty letters n"
    );
    let e = board("", "", "");
    assert_eq!(format_board(&e), format!("{:>10} {:20} {}", "", "", ""));
}

#[test]
fn boards_of_all_groups_are_collected_in_order() {
    let groups = vec![
        vec![board("a", "x", "A"), board("b", "x", "B")],
        vec![],
        vec![board("c", "y", "C")],
    ];
    assert_eq!(
        collect_boards(&groups),
        vec![board("a", "x", "A"), board("b", "x", "B"), board("c", "y", "C")]
    );
    assert_eq!(collect_boards(&vec![]), vec![]);
}

#[test]
fn board_entries_are_ids_in_ascending_order() {
    let boards = vec![board("pr", "t", "P"), board("b", "r", "B"), board("vg", "g", "V")];
    assert_eq!(board_entry(&boards[0]), entry("pr", "pr"));
    assert_eq!(
        board_entries(&boards),
        vec![entry("b", "b"), entry("pr", "pr"), entry("vg", "vg")]
    );
}

#[test]
fn thread_entry_shows_id_and_teaser() {
    let t = thread("1299618", "subject", "<b>Hello</b> there<br>more");
    assert_eq!(thread_entry(&t), entry("1299618 Hello", "1299618"));
    let no_text = thread("5", "s", "");
    assert_eq!(thread_entry(&no_text), entry("5 ", "5"));
}

#[test]
fn thread_entries_are_sorted_by_id() {
    let threads = vec![
        thread("300", "c", "third"),
        thread("100", "a", "first"),
        thread("200", "b", "<i>second</i> one"),
    ];
    assert_eq!(
        thread_entries(&threads),
        vec![entry("100 first", "100"), entry("200 second", "200"), entry("300 third", "300")]
    );
    assert_eq!(thread_entries(&vec![]), vec![]);
}

#[test]
fn thread_block_without_colour() {
    let t = thread("42", "On wrapping", "a teaser that is rather long<br>and a second node");
    assert_eq!(
        format_thread(&t, 12, Palette::Plain),
        "42 On wrapping\n  a teaser\n  that is\n  rather long"
    );
    assert_eq!(format_thread(&thread("7", "", ""), 80, Palette::Plain), "7 \n");
}

#[test]
fn image_hint_is_a_command_to_copy() {
    let i = image("15500.jpg", "cat.jpg", "/pr/src/1/15500.jpg");
    assert_eq!(
        format_image("cat.jpg", &i),
        "cat.jpg\n  dvach --download /pr/src/1/15500.jpg > 15500.jpg && xdg-open 15500.jpg\n  "
    );
    assert_eq!(
        format_image("shown", &i),
        format!(
            "{}\n  dvach --download {} > {name} && xdg-open {name}\n  ",
            "shown",
            i.path,
            name = i.name
        )
    );
}

#[test]
fn images_block_is_empty_without_images() {
    assert_eq!(format_images(&vec![], Palette::Plain), "");
    assert_eq!(join_hints(&vec![]), "");
}

#[test]
fn images_block_lists_every_image() {
    let images = vec![image("1.png", "one.png", "/b/src/1.png"), image("2.png", "two.png", "/b/src/2.png")];
    assert_eq!(
        format_images(&images, Palette::Plain),
        "\n  one.png\n  dvach --download /b/src/1.png > 1.png && xdg-open 1.png\n  \ntwo.png\n  dvach --download /b/src/2.png > 2.png && xdg-open 2.png\n  "
    );
    assert_eq!(join_hints(&vec!["a".to_string(), "b".to_string()]), "\n  a\nb");
}

#[test]
fn post_block_without_colour() {
    let p = post(1299618, "<span>a</span><br><span>b</span>", "12/03/19", vec![]);
    assert_eq!(format_post(&p, 80, Palette::Plain), "1299618 12/03/19\n  a\n  b");
    let with_image = post(5, "text", "today", vec![image("n.jpg", "full.jpg", "/p/n.jpg")]);
    assert_eq!(
        format_post(&with_image, 80, Palette::Plain),
        "5 today\n  full.jpg\n  dvach --download /p/n.jpg > n.jpg && xdg-open n.jpg\n  \n  text"
    );
    assert_eq!(format_post(&post(0, "", "", vec![]), 80, Palette::Plain), "0 \n");
}

#[test]
fn post_body_is_wrapped_at_the_width() {
    let p = post(9, "Memory safety without garbage collection.", "d", vec![]);
    assert_eq!(
        format_post(&p, 15, Palette::Plain),
        "9 d\n  Memory safety\n  without garbage\n  collection."
    );
}

#[test]
fn plain_palette_leaves_text_alone() {
    assert_eq!(tinted("text", Tint::Blue, Palette::Plain), "text");
    assert_eq!(tinted("", Tint::Yellow, Palette::Plain), "");
}

#[test]
fn first_thread_record_holds_the_posts() {
    let records = vec![
        vec![post(1, "a", "d", vec![]), post(2, "b", "d", vec![])],
        vec![post(3, "c", "d", vec![])],
    ];
    assert_eq!(
        first_thread_posts(records),
        Ok(vec![post(1, "a", "d", vec![]), post(2, "b", "d", vec![])])
    );
    assert_eq!(first_thread_posts(vec![vec![]]), Ok(vec![]));
}

#[test]
fn answer_without_thread_record_is_an_invariant_violation() {
    assert_eq!(first_thread_posts(vec![]), Err(SessionError::InvariantViolation));
}

#[test]
fn every_failure_has_a_message() {
    assert_eq!(SessionError::FetchFailure.describe(), "cannot fetch from the service");
    assert_eq!(SessionError::DecodeFailure.describe(), "cannot decode the answer of the service");
    assert_eq!(SessionError::InvariantViolation.describe(), "threads must be present");
    assert_eq!(SessionError::SelectionOutOfRange.describe(), "selection out of range");
}
