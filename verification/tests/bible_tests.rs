use bible_site::bible::{Bible, BookName, BookSlug, Chapter, Section, Text, Verse};

fn verse(book: &str, chapter: usize, section: usize, text: &str) -> Verse {
    Verse {
        book: BookName::new(book),
        chapter: Chapter(chapter),
        section: Section(section),
        text: Text::new(text),
    }
}

fn slug(s: &str) -> BookSlug {
    BookSlug(s.to_string())
}

fn sample() -> Bible {
    Bible::from_verses(vec![
        verse("Genesis", 1, 1, "In the beginning"),
        verse("Genesis", 1, 2, "And the earth"),
        verse("Genesis", 2, 1, "Thus the heavens"),
        verse("Exodus", 1, 1, "Now these are the names"),
        verse("Song of Solomon", 1, 1, "The song of songs"),
    ])
}

#[test]
fn text_new_trims_whitespace() {
    assert_eq!(Text::new("  In the beginning \t\r\n").0, "In the beginning");
    assert_eq!(Text::new("\u{3000}word\u{a0}").0, "word");
    assert_eq!(Text::new("   ").0, "");
}

#[test]
fn text_new_is_idempotent() {
    let once = Text::new("  a b  ");
    let twice = Text::new(&once.0);
    assert_eq!(once.0, twice.0);
}

#[test]
fn book_name_new_trims_whitespace() {
    assert_eq!(BookName::new(" Genesis ").0, "Genesis");
}

#[test]
fn slug_lowercases_and_hyphenates() {
    assert_eq!(BookName::new("Song of Solomon").slug().0, "song-of-solomon");
    assert_eq!(BookName::new("1 John").slug().0, "1-john");
    assert_eq!(BookName("ÉSAÏE".to_string()).slug().0, "ésaïe");
    assert_eq!(BookName("Ge".to_string()).slug().0, "ge");
}

#[test]
fn slug_has_no_space() {
    let s = BookName("A  B C".to_string()).slug();
    assert!(!s.0.contains(' '));
    assert_eq!(s.0, "a--b-c");
}

#[test]
fn from_verses_orders_books_by_runs() {
    let bible = sample();
    let order: Vec<&str> = bible.order.iter().map(|s| s.0.as_str()).collect();
    assert_eq!(order, vec!["genesis", "exodus", "song-of-solomon"]);
    assert_eq!(bible.books.len(), 3);
}

#[test]
fn from_verses_repeats_a_book_that_comes_back() {
    let bible = Bible::from_verses(vec![
        verse("Genesis", 1, 1, "a"),
        verse("Exodus", 1, 1, "b"),
        verse("Genesis", 1, 2, "c"),
    ]);
    let order: Vec<&str> = bible.order.iter().map(|s| s.0.as_str()).collect();
    assert_eq!(order, vec!["genesis", "exodus", "genesis"]);
    assert_eq!(bible.books.len(), 2);
    let genesis = bible.get(&slug("genesis")).unwrap();
    assert_eq!(genesis.chapters[&1].len(), 2);
}

#[test]
fn from_verses_files_texts_by_chapter_and_section() {
    let bible = sample();
    let genesis = bible.get(&slug("genesis")).unwrap();
    assert_eq!(genesis.name.0, "Genesis");
    assert_eq!(genesis.chapters.len(), 2);
    assert_eq!(genesis.chapters[&1][&2].0, "And the earth");
    assert_eq!(genesis.chapters[&2][&1].0, "Thus the heavens");
}

#[test]
fn from_verses_later_verse_replaces_earlier() {
    let bible = Bible::from_verses(vec![
        verse("Genesis", 1, 1, "first"),
        verse("Genesis", 1, 1, "second"),
    ]);
    let genesis = bible.get(&slug("genesis")).unwrap();
    assert_eq!(genesis.chapters[&1][&1].0, "second");
    assert_eq!(genesis.chapters[&1].len(), 1);
}

#[test]
fn from_verses_names_book_by_first_verse() {
    let bible = Bible::from_verses(vec![
        verse("GENESIS", 1, 1, "a"),
        verse("Genesis", 1, 2, "b"),
    ]);
    assert_eq!(bible.books.len(), 1);
    let genesis = bible.get(&slug("genesis")).unwrap();
    assert_eq!(genesis.name.0, "GENESIS");
    assert_eq!(bible.order.len(), 1);
}

#[test]
fn from_verses_of_nothing_is_empty() {
    let bible = Bible::from_verses(vec![]);
    assert!(bible.order.is_empty());
    assert!(bible.books.is_empty());
}

#[test]
fn get_finds_only_filed_books() {
    let bible = sample();
    assert!(bible.get(&slug("exodus")).is_some());
    assert!(bible.get(&slug("Exodus")).is_none());
    assert!(bible.get(&slug("leviticus")).is_none());
}

#[test]
fn previous_and_next_follow_reading_order() {
    let bible = sample();
    let (name, s) = bible.previous(&slug("exodus")).unwrap();
    assert_eq!((name.0.as_str(), s.0.as_str()), ("Genesis", "genesis"));
    let (name, s) = bible.next(&slug("exodus")).unwrap();
    assert_eq!((name.0.as_str(), s.0.as_str()), ("Song of Solomon", "song-of-solomon"));
    assert!(bible.previous(&slug("genesis")).is_none());
    assert!(bible.next(&slug("song-of-solomon")).is_none());
    assert!(bible.previous(&slug("leviticus")).is_none());
    assert!(bible.next(&slug("leviticus")).is_none());
}

#[test]
fn previous_undoes_next() {
    let bible = sample();
    let (_, after) = bible.next(&slug("genesis")).unwrap();
    let (_, back) = bible.previous(after).unwrap();
    assert_eq!(back.0, "genesis");
}

#[test]
fn previous_uses_first_and_next_uses_last_place() {
    let bible = Bible::from_verses(vec![
        verse("A", 1, 1, "a"),
        verse("B", 1, 1, "b"),
        verse("C", 1, 1, "c"),
        verse("B", 1, 2, "b2"),
        verse("D", 1, 1, "d"),
    ]);
    assert_eq!(bible.previous(&slug("b")).unwrap().1 .0, "a");
    assert_eq!(bible.next(&slug("b")).unwrap().1 .0, "d");
}

#[test]
fn book_new_has_no_chapters() {
    let book = bible_site::bible::Book::new(BookName::new("Ruth"));
    assert_eq!(book.name.0, "Ruth");
    assert!(book.chapters.is_empty());
}

#[test]
fn from_records_trims_and_files() {
    let records: &[bible_site::bible::VerseRecord] =
        &[("Genesis ", 1, 1, " In the beginning "), ("1 John", 3, 16, "For God")];
    let bible = Bible::from_records(records);
    let order: Vec<&str> = bible.order.iter().map(|s| s.0.as_str()).collect();
    assert_eq!(order, vec!["genesis", "1-john"]);
    assert_eq!(bible.get(&slug("genesis")).unwrap().chapters[&1][&1].0, "In the beginning");
    assert_eq!(bible.get(&slug("genesis")).unwrap().name.0, "Genesis");
}

#[test]
fn erv_load_builds_from_records() {
    let records: &[bible_site::bible::VerseRecord] = &[("Ruth", 1, 1, "In the days")];
    let bible = bible_site::erv::load(records);
    assert_eq!(bible.order.len(), 1);
    assert_eq!(bible.get(&slug("ruth")).unwrap().chapters[&1][&1].0, "In the days");
}

#[test]
fn every_book_is_filed_under_its_own_slug() {
    let bible = sample();
    for (key, book) in bible.books.iter() {
        assert_eq!(book.name.slug().0, key.0);
    }
}

#[test]
fn reading_order_lists_exactly_the_filed_books() {
    let bible = sample();
    for s in bible.order.iter() {
        assert!(bible.get(s).is_some());
    }
    for (key, _) in bible.books.iter() {
        assert!(bible.order.iter().any(|s| s.0 == key.0));
    }
    for pair in bible.order.windows(2) {
        assert_ne!(pair[0].0, pair[1].0);
    }
}

#[test]
fn slug_and_name_display_their_text() {
    assert_eq!(slug("song-of-solomon").text(), "song-of-solomon");
    assert_eq!(BookName::new("Song of Solomon").text(), "Song of Solomon");
}

#[test]
fn reading_order_no_longer_than_verses_and_books_not_empty() {
    let bible = sample();
    assert!(bible.order.len() <= 5);
    for (_, book) in bible.books.iter() {
        assert!(!book.chapters.is_empty());
        for (_, sections) in book.chapters.iter() {
            assert!(!sections.is_empty());
        }
    }
}
