use bible_site::bible::{Bible, BookName, BookSlug, Chapter, Section, Text, Verse};
use bible_site::views::{first_book_href, BookView};

fn verse(book: &str, chapter: usize, section: usize, text: &str) -> Verse {
    Verse {
        book: BookName::new(book),
        chapter: Chapter(chapter),
        section: Section(section),
        text: Text::new(text),
    }
}

fn sample() -> Bible {
    Bible::from_verses(vec![
        verse("Genesis", 1, 1, "g1"),
        verse("Exodus", 10, 2, "e10.2"),
        verse("Exodus", 2, 1, "e2.1"),
        verse("Exodus", 10, 1, "e10.1"),
        verse("Song of Solomon", 1, 1, "s1"),
    ])
}

#[test]
fn book_view_lists_chapters_and_verses_in_order() {
    let bible = sample();
    let book = bible.get(&BookSlug("exodus".to_string())).unwrap();
    let view = BookView::new(&bible, book);
    assert_eq!(view.title.0, "Exodus");
    let numbers: Vec<usize> = view.chapters.iter().map(|c| c.number.0).collect();
    assert_eq!(numbers, vec![2, 10]);
    assert_eq!(view.chapters[0].id, "c2");
    assert_eq!(view.chapters[1].id, "c10");
    let verses: Vec<(usize, &str, &str)> = view.chapters[1]
        .verses
        .iter()
        .map(|v| (v.number.0, v.text.0.as_str(), v.id.as_str()))
        .collect();
    assert_eq!(verses, vec![(1, "e10.1", "c10v1"), (2, "e10.2", "c10v2")]);
}

#[test]
fn book_view_links_to_itself_and_neighbours() {
    let bible = sample();
    let book = bible.get(&BookSlug("exodus".to_string())).unwrap();
    let view = BookView::new(&bible, book);
    assert_eq!(view.link.display, "Exodus");
    assert_eq!(view.link.href, "/book/exodus");
    let prev = view.prev.unwrap();
    assert_eq!((prev.display.as_str(), prev.href.as_str()), ("Genesis", "/book/genesis"));
    let next = view.next.unwrap();
    assert_eq!(
        (next.display.as_str(), next.href.as_str()),
        ("Song of Solomon", "/book/song-of-solomon")
    );
}

#[test]
fn book_view_index_lists_every_book() {
    let bible = sample();
    let book = bible.get(&BookSlug("genesis".to_string())).unwrap();
    let view = BookView::new(&bible, book);
    let index: Vec<(&str, &str)> =
        view.index.iter().map(|l| (l.display.as_str(), l.href.as_str())).collect();
    assert_eq!(
        index,
        vec![
            ("Genesis", "/book/genesis"),
            ("Exodus", "/book/exodus"),
            ("Song of Solomon", "/book/song-of-solomon")
        ]
    );
    assert!(view.prev.is_none());
    assert_eq!(view.next.unwrap().href, "/book/exodus");
}

#[test]
fn book_view_of_last_book_has_no_next() {
    let bible = sample();
    let book = bible.get(&BookSlug("song-of-solomon".to_string())).unwrap();
    let view = BookView::new(&bible, book);
    assert!(view.next.is_none());
    assert_eq!(view.prev.unwrap().display, "Exodus");
}

#[test]
fn verse_anchor_has_large_numbers() {
    let bible = Bible::from_verses(vec![verse("Psalms", 119, 176, "x")]);
    let book = bible.get(&BookSlug("psalms".to_string())).unwrap();
    let view = BookView::new(&bible, book);
    assert_eq!(view.chapters[0].id, "c119");
    assert_eq!(view.chapters[0].verses[0].id, "c119v176");
    let bible = Bible::from_verses(vec![verse("Psalms", 0, 1000000, "x")]);
    let book = bible.get(&BookSlug("psalms".to_string())).unwrap();
    let view = BookView::new(&bible, book);
    assert_eq!(view.chapters[0].verses[0].id, "c0v1000000");
}

#[test]
fn first_book_href_is_first_in_order() {
    let bible = sample();
    assert_eq!(first_book_href(&bible), "/book/genesis");
}
