use dvach::paint::{tinted, Palette, Tint};
use dvach::posts::{format_images, format_post, Image, Post};
use dvach::threads::{format_thread, Thread};

// Every test in this file switches colour on for the whole process, so that
// what comes out does not depend on where the tests run.

#[test]
fn tints_wrap_text_in_escape_codes() {
    colored::control::set_override(true);
    assert_eq!(tinted("id", Tint::Blue, Palette::Terminal), "\u{1b}[34mid\u{1b}[0m");
    assert_eq!(tinted("date", Tint::Green, Palette::Terminal), "\u{1b}[32mdate\u{1b}[0m");
    assert_eq!(tinted("name", Tint::Yellow, Palette::Terminal), "\u{1b}[33mname\u{1b}[0m");
}

#[test]
fn plain_palette_ignores_colour() {
    colored::control::set_override(true);
    assert_eq!(tinted("id", Tint::Blue, Palette::Plain), "id");
}

#[test]
fn thread_block_with_colour() {
    colored::control::set_override(true);
    let t = Thread {
        id: "42".to_string(),
        subject: "subject".to_string(),
        comment: "teaser<br>rest".to_string(),
    };
    assert_eq!(
        format_thread(&t, 80, Palette::Terminal),
        "\u{1b}[34m42\u{1b}[0m subject\n  teaser"
    );
}

#[test]
fn post_block_with_colour() {
    colored::control::set_override(true);
    let p = Post {
        id: 7,
        comment: "<span>a</span><br><span>b</span>".to_string(),
        date: "12/03/19".to_string(),
        images: vec![Image {
            name: "n.jpg".to_string(),
            fullname: "full.jpg".to_string(),
            path: "/p/n.jpg".to_string(),
        }],
    };
    assert_eq!(
        format_post(&p, 80, Palette::Terminal),
        "\u{1b}[34m7\u{1b}[0m \u{1b}[32m12/03/19\u{1b}[0m\n  \u{1b}[33mfull.jpg\u{1b}[0m\n  dvach --download /p/n.jpg > n.jpg && xdg-open n.jpg\n  \n  a\n  b"
    );
    assert_eq!(
        format_images(&p.images, Palette::Terminal),
        "\n  \u{1b}[33mfull.jpg\u{1b}[0m\n  dvach --download /p/n.jpg > n.jpg && xdg-open n.jpg\n  "
    );
}
