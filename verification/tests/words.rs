use minigrep::compass::direction_from_char;
use minigrep::excerpt::{get_static_str, ImportantExcerpt};
use minigrep::points::{Point, PointMixed};
use minigrep::words::{first_word, last_char_of_first_line, longest};

#[test]
fn first_word_ends_at_the_first_space() {
    assert_eq!(first_word("hello world"), "hello");
    assert_eq!(first_word("hello"), "hello");
    assert_eq!(first_word(""), "");
    assert_eq!(first_word(" leading"), "");
    assert_eq!(first_word("two  spaces"), "two");
    assert_eq!(first_word("日本語 のテキスト"), "日本語");
    assert_eq!(first_word("tab\tis no space"), "tab\tis");
}

#[test]
fn longest_goes_by_bytes_and_prefers_the_first() {
    assert_eq!(longest("long string", "xyz"), "long string");
    assert_eq!(longest("xyz", "long string"), "long string");
    assert_eq!(longest("abc", "xyz"), "abc");
    assert_eq!(longest("", ""), "");
    assert_eq!(longest("長い", "abcde"), "長い");
}

#[test]
fn last_character_of_the_first_line() {
    assert_eq!(last_char_of_first_line("Hello\nWorld"), Some('o'));
    assert_eq!(last_char_of_first_line(""), None);
    assert_eq!(last_char_of_first_line("\nhi"), None);
    assert_eq!(last_char_of_first_line("Hello\r\nWorld"), Some('o'));
    assert_eq!(last_char_of_first_line("one line"), Some('e'));
    assert_eq!(last_char_of_first_line("最初\n次"), Some('初'));
    assert_eq!(last_char_of_first_line("a\r"), Some('\r'));
}

#[test]
fn directions_by_their_letters() {
    assert_eq!(direction_from_char('N'), "北");
    assert_eq!(direction_from_char('S'), "南");
    assert_eq!(direction_from_char('E'), "東");
    assert_eq!(direction_from_char('W'), "西");
}

#[test]
fn excerpts_are_of_level_three() {
    let novel = String::from("Call me Ishmael. Some years ago...");
    let excerpt = ImportantExcerpt {
        part: first_sentence(&novel),
    };
    assert_eq!(excerpt.level(), 3);
    assert_eq!(excerpt.part, "Call me Ishmael");
}

fn first_sentence(text: &str) -> &str {
    let end = text.find('.').unwrap_or(text.len());
    &text[..end]
}

#[test]
fn static_text() {
    assert_eq!(
        get_static_str(),
        "私は 'static ライフタイムを持つ文字列リテラルです"
    );
}

#[test]
fn mixup_takes_one_coordinate_of_each() {
    let p1 = PointMixed { x: 5, y: 10.4 };
    let p2 = PointMixed { x: "Hello", y: 'c' };
    let p3 = p1.mixup(p2);
    assert_eq!(p3.x, 5);
    assert_eq!(p3.y, 'c');
}

#[test]
fn first_coordinate() {
    let p = Point { x: 5, y: 10 };
    assert_eq!(*p.x(), 5);
}
