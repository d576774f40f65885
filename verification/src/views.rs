//! The page view of a book: its chapters and verses in order, with anchors,
//! and links to every book and to the books before and after it.
use std::collections::BTreeMap;
use vstd::prelude::*;
use vstd::std_specs::iter::IteratorSpec;
use vstd::std_specs::cmp::OrdSpec;
use crate::bible::{
    lookup, next_position, previous_position, slug_of, Bible, Book, BookName,
    Chapter, Section, Text,
};
use crate::strings::{decimal, push_char, push_decimal};

verus! {

broadcast use vstd::std_specs::btree::group_btree_axioms;

/// A book laid out for its page.
pub struct BookView {
    pub title: BookName,
    pub chapters: Vec<ChapterView>,
    pub link: BookNameView,
    pub index: Vec<BookNameView>,
    pub prev: Option<BookNameView>,
    pub next: Option<BookNameView>,
}

/// A link to a book: the name shown and the path it leads to.
pub struct BookNameView {
    pub display: String,
    pub href: String,
}

/// A chapter laid out: its number, its verses, its anchor.
pub struct ChapterView {
    pub number: Chapter,
    pub verses: Vec<VerseView>,
    pub id: String,
}

/// A verse laid out: its number, its text, its anchor.
pub struct VerseView {
    pub number: Section,
    pub text: Text,
    pub id: String,
}

/// The path of the page of the book with slug `slug`: `/book/<slug>`.
pub open spec fn book_href(slug: Seq<char>) -> Seq<char> {
    seq!['/', 'b', 'o', 'o', 'k', '/'] + slug
}

/// The anchor of chapter `c`: `c<c>`.
pub open spec fn chapter_id(c: nat) -> Seq<char> {
    seq!['c'] + decimal(c)
}

/// The anchor of section `s` of chapter `c`: `c<c>v<s>`.
pub open spec fn verse_id(c: nat, s: nat) -> Seq<char> {
    seq!['c'] + decimal(c) + seq!['v'] + decimal(s)
}

/// `link` shows `display` and leads to the page of `slug`.
pub open spec fn links_to(link: BookNameView, display: Seq<char>, slug: Seq<char>) -> bool {
    link.display@ == display && link.href@ == book_href(slug)
}

/// `verses` lists the sections of `sections` (chapter `c`) in increasing
/// order, each with its text and anchor.
pub open spec fn verses_listed(verses: Seq<VerseView>, c: nat, sections: Map<usize, Text>) -> bool {
    &&& forall|i: int, j: int|
        0 <= i < j < verses.len() ==> #[trigger] verses[i].number.0 < #[trigger] verses[j].number.0
    &&& forall|i: int|
        0 <= i < verses.len() ==> {
            let s = #[trigger] verses[i].number.0;
            &&& sections.contains_key(s)
            &&& verses[i].text.0@ == sections[s].0@
            &&& verses[i].id@ == verse_id(c, s as nat)
        }
    &&& forall|s: usize|
        #[trigger] sections.contains_key(s) ==> exists|i: int|
            0 <= i < verses.len() && #[trigger] verses[i].number.0 == s
}

/// `chapters` lists the chapters of `book` in increasing order, each with
/// its verses and anchor.
pub open spec fn chapters_listed(
    chapters: Seq<ChapterView>,
    book: Map<usize, BTreeMap<usize, Text>>,
) -> bool {
    &&& forall|i: int, j: int|
        0 <= i < j < chapters.len() ==> #[trigger] chapters[i].number.0
            < #[trigger] chapters[j].number.0
    &&& forall|i: int|
        0 <= i < chapters.len() ==> {
            let c = #[trigger] chapters[i].number.0;
            &&& book.contains_key(c)
            &&& chapters[i].id@ == chapter_id(c as nat)
            &&& verses_listed(chapters[i].verses@, c as nat, book[c]@)
        }
    &&& forall|c: usize|
        #[trigger] book.contains_key(c) ==> exists|i: int|
            0 <= i < chapters.len() && #[trigger] chapters[i].number.0 == c
}

/// The path `/book/<slug>`.
fn href_of(slug: &String) -> (h: String)
    ensures
        h@ == book_href(slug@),
{
    let mut h = String::new();
    push_char(&mut h, '/');
    push_char(&mut h, 'b');
    push_char(&mut h, 'o');
    push_char(&mut h, 'o');
    push_char(&mut h, 'k');
    push_char(&mut h, '/');
    let cs = crate::strings::chars_of(slug.as_str());
    let mut i: usize = 0;
    while i < cs.len()
        invariant
            i <= cs.len(),
            cs@ == slug@,
            h@ == seq!['/', 'b', 'o', 'o', 'k', '/'] + cs@.take(i as int),
        decreases cs.len() - i,
    {
        push_char(&mut h, cs[i]);
        assert(cs@.take(i + 1) == cs@.take(i as int).push(cs@[i as int]));
        i += 1;
    }
    assert(cs@.take(cs.len() as int) == cs@);
    h
}

/// A link showing `display` and leading to the page of `slug`.
fn link(display: &String, slug: &String) -> (l: BookNameView)
    ensures
        links_to(l, display@, slug@),
{
    BookNameView { display: display.clone(), href: href_of(slug) }
}


/// The keys that a `BTreeMap` iterator yields strictly increase.
proof fn lemma_increasing_keys(keys: Seq<usize>)
    requires
        vstd::std_specs::btree::increasing_seq(keys),
    ensures
        forall|i: int, j: int| 0 <= i < j < keys.len() ==> #[trigger] keys[i] < #[trigger] keys[j],
{
    assert(vstd::laws_cmp::obeys_cmp::<usize>());
    assert forall|i: int, j: int| 0 <= i < j < keys.len() implies #[trigger] keys[i]
        < #[trigger] keys[j] by {
        assert(keys[i].cmp_spec(&keys[j]) is Less);
    }
}

/// The anchor `c<c>`.
fn chapter_anchor(c: usize) -> (id: String)
    ensures
        id@ == chapter_id(c as nat),
{
    let mut id = String::new();
    push_char(&mut id, 'c');
    push_decimal(&mut id, c);
    id
}

/// The anchor `c<c>v<s>`.
fn verse_anchor(c: usize, s: usize) -> (id: String)
    ensures
        id@ == verse_id(c as nat, s as nat),
{
    let mut id = String::new();
    push_char(&mut id, 'c');
    push_decimal(&mut id, c);
    push_char(&mut id, 'v');
    push_decimal(&mut id, s);
    id
}

/// The verses of chapter `c`, in increasing order of section.
fn lay_out_verses(c: usize, sections: &BTreeMap<usize, Text>) -> (verses: Vec<VerseView>)
    ensures
        verses_listed(verses@, c as nat, sections@),
{
    let mut verses: Vec<VerseView> = Vec::new();
    for kv in it: sections.iter()
        invariant
            verses@.len() == it.index(),
            it.seq() == vstd::std_specs::btree::spec_btree_map_iter(sections).remaining(),
            forall|i: int|
                0 <= i < verses@.len() ==> {
                    &&& (#[trigger] verses@[i]).number.0 == *it.seq()[i].0
                    &&& verses@[i].text.0@ == it.seq()[i].1.0@
                    &&& verses@[i].id@ == verse_id(c as nat, verses@[i].number.0 as nat)
                },
    {
        let (s, t) = kv;
        let v = VerseView { number: Section(*s), text: Text(t.0.clone()), id: verse_anchor(c, *s) };
        verses.push(v);
    }
    proof {
        let r = vstd::std_specs::btree::spec_btree_map_iter(sections).remaining();
        let keys = r.map_values(|kv: (&usize, &Text)| *kv.0);
        lemma_increasing_keys(keys);
        assert forall|i: int, j: int| 0 <= i < j < verses@.len() implies
            #[trigger] verses@[i].number.0 < #[trigger] verses@[j].number.0 by {
            assert(keys[i] == verses@[i].number.0);
            assert(keys[j] == verses@[j].number.0);
        }
        assert forall|s: usize| #[trigger] sections@.contains_key(s) implies exists|i: int|
            0 <= i < verses@.len() && #[trigger] verses@[i].number.0 == s by {
            assert(r.contains((&s, &sections@[s])));
            let i = choose|i: int| 0 <= i < r.len() && r[i] == (&s, &sections@[s]);
            assert(verses@[i].number.0 == s);
        }
    }
    verses
}


/// The chapters of `book`, in increasing order of chapter number.
fn lay_out_chapters(book: &Book) -> (chapters: Vec<ChapterView>)
    ensures
        chapters_listed(chapters@, book.chapters@),
{
    let mut chapters: Vec<ChapterView> = Vec::new();
    for kv in it: book.chapters.iter()
        invariant
            chapters@.len() == it.index(),
            it.seq() == vstd::std_specs::btree::spec_btree_map_iter(&book.chapters).remaining(),
            forall|i: int|
                0 <= i < chapters@.len() ==> {
                    &&& (#[trigger] chapters@[i]).number.0 == *it.seq()[i].0
                    &&& chapters@[i].id@ == chapter_id(chapters@[i].number.0 as nat)
                    &&& verses_listed(
                        chapters@[i].verses@,
                        chapters@[i].number.0 as nat,
                        it.seq()[i].1@,
                    )
                },
    {
        let (c, sections) = kv;
        let view = ChapterView {
            id: chapter_anchor(*c),
            number: Chapter(*c),
            verses: lay_out_verses(*c, sections),
        };
        chapters.push(view);
    }
    proof {
        let r = vstd::std_specs::btree::spec_btree_map_iter(&book.chapters).remaining();
        let keys = r.map_values(|kv: (&usize, &BTreeMap<usize, Text>)| *kv.0);
        lemma_increasing_keys(keys);
        assert forall|i: int, j: int| 0 <= i < j < chapters@.len() implies
            #[trigger] chapters@[i].number.0 < #[trigger] chapters@[j].number.0 by {
            assert(keys[i] == chapters@[i].number.0);
            assert(keys[j] == chapters@[j].number.0);
        }
        assert forall|i: int| 0 <= i < chapters@.len() implies {
            let c = #[trigger] chapters@[i].number.0;
            &&& book.chapters@.contains_key(c)
            &&& chapters@[i].id@ == chapter_id(c as nat)
            &&& verses_listed(chapters@[i].verses@, c as nat, book.chapters@[c]@)
        } by {
            assert(book.chapters@.contains_key(*r[i].0));
            assert(book.chapters@[*r[i].0] == *r[i].1);
        }
        assert forall|c: usize| #[trigger] book.chapters@.contains_key(c) implies exists|i: int|
            0 <= i < chapters@.len() && #[trigger] chapters@[i].number.0 == c by {
            assert(r.contains((&c, &book.chapters@[c])));
            let i = choose|i: int| 0 <= i < r.len() && r[i] == (&c, &book.chapters@[c]);
            assert(chapters@[i].number.0 == c);
        }
    }
    chapters
}


/// The name shown for the book filed under `slug`.
pub open spec fn shown_name(bible: Bible, slug: Seq<char>) -> Seq<char> {
    lookup(bible.books@, slug)->0.name.0@
}

/// `index` links to every book of `bible`, in reading order.
pub open spec fn index_listed(index: Seq<BookNameView>, bible: Bible) -> bool {
    &&& index.len() == bible.order@.len()
    &&& forall|i: int|
        0 <= i < index.len() ==> links_to(
            #[trigger] index[i],
            shown_name(bible, bible.order@[i].0@),
            bible.order@[i].0@,
        )
}

/// `l` links to the book at `pos` in the reading order of `bible`, or is
/// absent when there is no such position.
pub open spec fn neighbour_listed(l: Option<BookNameView>, bible: Bible, pos: Option<int>) -> bool {
    match pos {
        Some(p) => l is Some && links_to(
            l->0,
            shown_name(bible, bible.order@[p].0@),
            bible.order@[p].0@,
        ),
        None => l is None,
    }
}

impl BookView {
    /// The page view of `book` within `bible`: its title and own link; its
    /// chapters and verses in increasing order with their anchors; links to
    /// every book in reading order; and links to the books read before and
    /// after it, found by the slug of its name.
    pub fn new(bible: &Bible, book: &Book) -> (view: BookView)
        requires
            bible.wf(),
        ensures
            view.title.0@ == book.name.0@,
            links_to(view.link, book.name.0@, slug_of(book.name.0@)),
            chapters_listed(view.chapters@, book.chapters@),
            index_listed(view.index@, *bible),
            neighbour_listed(
                view.prev,
                *bible,
                previous_position(bible.order_view(), slug_of(book.name.0@)),
            ),
            neighbour_listed(
                view.next,
                *bible,
                next_position(bible.order_view(), slug_of(book.name.0@)),
            ),
    {
        let slug = book.name.slug();
        let mut index: Vec<BookNameView> = Vec::new();
        let mut i: usize = 0;
        while i < bible.order.len()
            invariant
                bible.wf(),
                i <= bible.order@.len(),
                index@.len() == i,
                forall|k: int|
                    0 <= k < i ==> links_to(
                        #[trigger] index@[k],
                        shown_name(*bible, bible.order@[k].0@),
                        bible.order@[k].0@,
                    ),
            decreases bible.order@.len() - i,
        {
            let s = &bible.order[i];
            proof {
                assert(bible.books_view().contains_key(bible.order@[i as int].0@));
            }
            match bible.get(s) {
                Some(found) => {
                    index.push(link(&found.name.0, &s.0));
                },
                None => {
                    assert(false);
                },
            }
            i += 1;
        }
        proof {
            bible.lemma_wf_neighbour_filed(slug.0@);
        }
        let prev = match bible.previous(&slug) {
            Some((name, before)) => Some(link(&name.0, &before.0)),
            None => None,
        };
        let next = match bible.next(&slug) {
            Some((name, after)) => Some(link(&name.0, &after.0)),
            None => None,
        };
        BookView {
            title: BookName(book.name.0.clone()),
            chapters: lay_out_chapters(book),
            link: link(&book.name.0, &slug.0),
            index,
            prev,
            next,
        }
    }
}


/// The path of the page of the first book in reading order, where the
/// site's front page leads.
pub fn first_book_href(bible: &Bible) -> (h: String)
    requires
        bible.order@.len() > 0,
    ensures
        h@ == book_href(bible.order@[0].0@),
{
    href_of(&bible.order[0].0)
}

} // verus!
