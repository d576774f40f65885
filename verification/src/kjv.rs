//! The King James Version text: one header line, then verses in the
//! compact layout (`Ge1:1 In the beginning...`).
use vstd::prelude::*;
use crate::bible::{
    slug_of, books_model, slug_order, verse_models, Bible, BookName, Chapter, Section, Text, Verse,
    VerseModel,
};
use crate::strings::{is_white_space, lemma_trim_no_white, trim_seq};
use crate::bible_laws::{law_last_verse_wins, same_reference};
use crate::verse_line::{ascii_alphabetic, law_line_reads_back, line_fields, written_line_gap};
use crate::verse_text::lines_of;
use crate::verse_line::{Layout, LineFields};
use crate::verse_text::{fields_view, parse_verse_text, text_fields};

verus! {

/// The verse that a KJV line says: book name and text trimmed.
pub open spec fn kjv_verse(f: (Seq<char>, nat, nat, Seq<char>)) -> VerseModel {
    VerseModel { book: trim_seq(f.0), chapter: f.1 as usize, section: f.2 as usize, text: trim_seq(f.3) }
}

/// The verses of a KJV text, when every line after the header holds one.
pub open spec fn kjv_verses(t: Seq<char>) -> Option<Seq<VerseModel>> {
    match text_fields(t, 1, Layout::Compact) {
        Some(fs) => Some(fs.map_values(|f: (Seq<char>, nat, nat, Seq<char>)| kjv_verse(f))),
        None => None,
    }
}

/// The Bible of a KJV text; `None` when the text has no header line or a
/// later line holds no verse (or a number too large for a `usize`).
pub fn load(text: &str) -> (r: Option<Bible>)
    ensures
        match kjv_verses(text@) {
            Some(vs) => {
                &&& r is Some
                &&& r->0.wf()
                &&& r->0.order_view() == slug_order(vs)
                &&& r->0.books_view() == books_model(vs)
            },
            None => r is None,
        },
{
    match parse_verse_text(text, 1, Layout::Compact) {
        None => None,
        Some(fields) => {
            let mut verses: Vec<Verse> = Vec::new();
            let mut i: usize = 0;
            while i < fields.len()
                invariant
                    i <= fields@.len(),
                    verses@.len() == i,
                    forall|k: int|
                        0 <= k < i ==> (#[trigger] verses@[k])@ == kjv_verse(fields_view(fields@[k])),
                decreases fields@.len() - i,
            {
                let f: &LineFields = &fields[i];
                let verse = Verse {
                    book: BookName::new(f.book.as_str()),
                    chapter: Chapter(f.chapter),
                    section: Section(f.section),
                    text: Text::new(f.text.as_str()),
                };
                verses.push(verse);
                i += 1;
            }
            proof {
                let fs = fields@.map_values(|f: LineFields| fields_view(f));
                assert(verse_models(verses@) =~= fs.map_values(
                    |f: (Seq<char>, nat, nat, Seq<char>)| kjv_verse(f),
                ));
            }
            Some(Bible::from_verses(verses))
        },
    }
}


/// A line after the header, written as a book name of ASCII letters, a
/// chapter number, `:`, a section number, a run of whitespace and a text,
/// is read as the verse of that book at that chapter and section, with the
/// text trimmed; and unless a later verse gives the same reference, the
/// loaded Bible files that text under the book's slug at that chapter and
/// section.
pub proof fn law_kjv_reads_written_lines(
    t: Seq<char>,
    i: int,
    book: Seq<char>,
    chapter: usize,
    section: usize,
    gap: Seq<char>,
    text: Seq<char>,
)
    requires
        kjv_verses(t) is Some,
        1 <= i < lines_of(t).len(),
        lines_of(t)[i] == written_line_gap(book, chapter as nat, section as nat, gap, text, Layout::Compact),
        book.len() > 0,
        ascii_alphabetic(book),
        gap.len() > 0,
        forall|k: int| 0 <= k < gap.len() ==> is_white_space(#[trigger] gap[k]),
        text.len() > 0,
        !is_white_space(text[0]),
    ensures
        kjv_verses(t)->0[i - 1] == (VerseModel {
            book: book,
            chapter: chapter,
            section: section,
            text: trim_seq(text),
        }),
        ({
            let vs = kjv_verses(t)->0;
            let m = books_model(vs);
            (forall|j: int| i - 1 < j < vs.len() ==> !same_reference(#[trigger] vs[j], vs[i - 1])) ==> {
                &&& m.contains_key(slug_of(book))
                &&& m[slug_of(book)].chapters.contains_key(chapter)
                &&& m[slug_of(book)].chapters[chapter].contains_key(section)
                &&& m[slug_of(book)].chapters[chapter][section] == trim_seq(text)
            }
        }),
{
    let ls = lines_of(t);
    law_line_reads_back(book, chapter, section, gap, text, Layout::Compact);
    assert(line_fields(ls[i], Layout::Compact) == Some((book, chapter as nat, section as nat, text)));
    let fs = text_fields(t, 1, Layout::Compact)->0;
    assert(fs[i - 1] == line_fields(ls[1 + (i - 1)], Layout::Compact)->0);
    lemma_trim_no_white(book);
    let vs = kjv_verses(t)->0;
    if forall|j: int| i - 1 < j < vs.len() ==> !same_reference(#[trigger] vs[j], vs[i - 1]) {
        law_last_verse_wins(vs, i - 1);
    }
}

} // verus!
