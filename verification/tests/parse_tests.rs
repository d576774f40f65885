use bible_site::bible::BookSlug;
use bible_site::verse_line::{parse_verse_line, Layout};
use bible_site::verse_text::parse_verse_text;

fn fields(line: &str, layout: Layout) -> Option<(String, usize, usize, String)> {
    parse_verse_line(line, layout).map(|f| (f.book, f.chapter, f.section, f.text))
}

fn some(b: &str, c: usize, s: usize, t: &str) -> Option<(String, usize, usize, String)> {
    Some((b.to_string(), c, s, t.to_string()))
}

#[test]
fn compact_line_parses() {
    assert_eq!(fields("Ge1:1 In the beginning", Layout::Compact), some("Ge", 1, 1, "In the beginning"));
    assert_eq!(fields("1Jo3:16\tFor God", Layout::Compact), some("1Jo", 3, 16, "For God"));
    assert_eq!(fields("Ps119:176I have gone astray", Layout::Compact), some("Ps", 119, 176, "I have gone astray"));
}

#[test]
fn spaced_line_parses() {
    assert_eq!(fields("Genesis 1:1 In the beginning", Layout::Spaced), some("Genesis", 1, 1, "In the beginning"));
    assert_eq!(fields("1 John 3:16 For God", Layout::Spaced), some("1 John", 3, 16, "For God"));
}

#[test]
fn verse_starts_at_first_place_it_can() {
    assert_eq!(
        fields("Song of Solomon 1:1 The song", Layout::Spaced),
        some("Solomon", 1, 1, "The song")
    );
    assert_eq!(fields("12Ge1:1 x", Layout::Compact), some("2Ge", 1, 1, "x"));
    assert_eq!(fields("-- Ge1:1 x", Layout::Compact), some("Ge", 1, 1, "x"));
}

#[test]
fn text_gives_back_to_be_nonempty() {
    assert_eq!(fields("Ge1:12", Layout::Compact), some("Ge", 1, 1, "2"));
    assert_eq!(fields("Ge1:1  ", Layout::Compact), some("Ge", 1, 1, " "));
    assert_eq!(fields("Ge1:1", Layout::Compact), None);
}

#[test]
fn malformed_lines_do_not_parse() {
    assert_eq!(fields("", Layout::Compact), None);
    assert_eq!(fields("Genesis", Layout::Compact), None);
    assert_eq!(fields("Ge:1 x", Layout::Compact), None);
    assert_eq!(fields("Ge1 1 x", Layout::Compact), None);
    assert_eq!(fields("Genesis1:1 x", Layout::Spaced), None);
}

#[test]
fn numbers_too_large_do_not_parse() {
    assert_eq!(fields("Ge99999999999999999999999:1 x", Layout::Compact), None);
    assert_eq!(fields("Ge1:99999999999999999999999 x", Layout::Compact), None);
    let max = format!("Ge{}:1 x", usize::MAX);
    assert_eq!(fields(&max, Layout::Compact), some("Ge", usize::MAX, 1, "x"));
}

#[test]
fn text_skips_header_and_splits_lines() {
    let text = "header\r\nGe1:1 a\r\nGe1:2 b\n";
    let fs = parse_verse_text(text, 1, Layout::Compact).unwrap();
    let got: Vec<(String, usize, usize, String)> =
        fs.into_iter().map(|f| (f.book, f.chapter, f.section, f.text)).collect();
    assert_eq!(
        got,
        vec![("Ge".to_string(), 1, 1, "a".to_string()), ("Ge".to_string(), 1, 2, "b".to_string())]
    );
}

#[test]
fn text_with_bad_line_or_short_header_fails() {
    assert!(parse_verse_text("header\nGe1:1 a\n\n", 1, Layout::Compact).is_none());
    assert!(parse_verse_text("", 1, Layout::Compact).is_none());
    assert!(parse_verse_text("only one", 2, Layout::Spaced).is_none());
    assert_eq!(parse_verse_text("h1\nh2", 2, Layout::Spaced).unwrap().len(), 0);
}

#[test]
fn last_line_keeps_lone_carriage_return() {
    let fs = parse_verse_text("h\nGe1:1 a\r", 1, Layout::Compact).unwrap();
    assert_eq!(fs[0].text, "a\r");
}

#[test]
fn kjv_load_builds_bible() {
    let text = "The King James Bible\nGe1:1 In the beginning \nGe1:2 And the earth\nEx1:1 Now these\n";
    let bible = bible_site::kjv::load(text).unwrap();
    let order: Vec<&str> = bible.order.iter().map(|s| s.0.as_str()).collect();
    assert_eq!(order, vec!["ge", "ex"]);
    let ge = bible.get(&BookSlug("ge".to_string())).unwrap();
    assert_eq!(ge.name.0, "Ge");
    assert_eq!(ge.chapters[&1][&1].0, "In the beginning");
    assert!(bible_site::kjv::load("").is_none());
    assert!(bible_site::kjv::load("h\nnot a verse").is_none());
}

#[test]
fn web_load_lowercases_books() {
    let text = "World English Bible\n\n1 John 3:16 For God so loved \nSong of Solomon 1:1 The song";
    let bible = bible_site::web::load(text).unwrap();
    let order: Vec<&str> = bible.order.iter().map(|s| s.0.as_str()).collect();
    assert_eq!(order, vec!["1-john", "solomon"]);
    let john = bible.get(&BookSlug("1-john".to_string())).unwrap();
    assert_eq!(john.name.0, "1 john");
    assert_eq!(john.chapters[&3][&16].0, "For God so loved ");
    assert!(bible_site::web::load("one line").is_none());
}

#[test]
fn written_numbers_read_back() {
    for (c, s) in [(0usize, 0usize), (9, 10), (119, 176), (1000000, 42)] {
        let line = format!("Ps{}:{} x", c, s);
        assert_eq!(fields(&line, Layout::Compact), some("Ps", c, s, "x"));
        let line = format!("Psalms {}:{} x", c, s);
        assert_eq!(fields(&line, Layout::Spaced), some("Psalms", c, s, "x"));
    }
}

#[test]
fn book_prefix_may_be_any_decimal_digit() {
    assert_eq!(fields("\u{661}Ge1:1 x", Layout::Compact), some("\u{661}Ge", 1, 1, "x"));
    assert_eq!(fields("\u{966} John 3:16 x", Layout::Spaced), some("\u{966} John", 3, 16, "x"));
    let bible = bible_site::kjv::load("header\n\u{661}Ge1:1 x").unwrap();
    assert_eq!(bible.order[0].0, "\u{661}ge");
    assert_eq!(bible.books[0].1.name.0, "\u{661}Ge");
}

#[test]
fn non_ascii_digits_in_numbers_do_not_read() {
    assert_eq!(fields("Ge\u{661}:1 x", Layout::Compact), None);
    assert_eq!(fields("Ge1:\u{661} x", Layout::Compact), None);
    assert_eq!(fields("Ge1:1\u{661}", Layout::Compact), some("Ge", 1, 1, "\u{661}"));
    assert!(bible_site::kjv::load("header\nGe\u{661}:1 x").is_none());
}
