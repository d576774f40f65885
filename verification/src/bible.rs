//! The Bible as books of chapters of sections: how verses are filed into
//! books, and how a book is found and its neighbours in reading order.
use std::collections::BTreeMap;
use vstd::prelude::*;
use crate::strings::{chars_of, lowercase, push_char, to_lowercase, trim, trim_seq};

verus! {

broadcast use vstd::std_specs::btree::group_btree_axioms;

/// One verse: a section of a chapter of a book, with its text.
#[derive(Debug)]
pub struct Verse {
    pub book: BookName,
    pub chapter: Chapter,
    pub section: Section,
    pub text: Text,
}

/// The text of a verse.
#[derive(Debug, Clone)]
pub struct Text(pub String);

impl Text {
    /// The text `source` without leading and trailing whitespace.
    pub fn new(source: &str) -> (t: Text)
        ensures
            t.0@ == trim_seq(source@),
    {
        Text(trim(source))
    }
}

/// The name by which a book is found in a path: see `BookName::slug`.
#[derive(Debug, Clone, PartialEq, Eq, Hash)]
pub struct BookSlug(pub String);

/// The name of a book as it is shown.
#[derive(Debug, Clone, PartialEq, Eq, Hash)]
pub struct BookName(pub String);

impl BookSlug {
    /// The slug as it is displayed: its text.
    pub fn text(&self) -> (s: String)
        ensures
            s@ == self.0@,
    {
        self.0.clone()
    }
}

/// `name` with every space turned into a hyphen.
pub open spec fn hyphenate(name: Seq<char>) -> Seq<char> {
    name.map_values(|c: char| if c == ' ' { '-' } else { c })
}

/// The slug of a book name: the name in lowercase, spaces turned into hyphens.
pub open spec fn slug_of(name: Seq<char>) -> Seq<char> {
    hyphenate(lowercase(name))
}

impl BookName {
    /// The name as it is displayed: its text.
    pub fn text(&self) -> (s: String)
        ensures
            s@ == self.0@,
    {
        self.0.clone()
    }

    /// The name `source` without leading and trailing whitespace.
    pub fn new(source: &str) -> (n: BookName)
        ensures
            n.0@ == trim_seq(source@),
    {
        BookName(trim(source))
    }

    /// The slug of this name: lowercase, with each space replaced by a hyphen.
    pub fn slug(&self) -> (s: BookSlug)
        ensures
            s.0@ == slug_of(self.0@),
    {
        let lower = to_lowercase(self.0.as_str());
        let cs = chars_of(lower.as_str());
        let mut out = String::new();
        let mut i: usize = 0;
        while i < cs.len()
            invariant
                i <= cs.len(),
                cs@ == lowercase(self.0@),
                out@ == hyphenate(cs@.take(i as int)),
            decreases cs.len() - i,
        {
            let c = cs[i];
            if c == ' ' {
                push_char(&mut out, '-');
            } else {
                push_char(&mut out, c);
            }
            assert(cs@.take(i + 1) == cs@.take(i as int).push(c));
            assert(hyphenate(cs@.take(i + 1)) == hyphenate(cs@.take(i as int)).push(
                if c == ' ' { '-' } else { c },
            ));
            i += 1;
        }
        assert(cs@.take(cs.len() as int) == cs@);
        BookSlug(out)
    }
}

/// The number of a verse within its chapter.
#[derive(Debug, Clone, Copy, PartialEq, Eq, Hash, PartialOrd, Ord)]
pub struct Section(pub usize);

/// The number of a chapter within its book.
#[derive(Debug, Clone, Copy, PartialEq, Eq, Hash, PartialOrd, Ord)]
pub struct Chapter(pub usize);

/// A book: its name and, by chapter number, the texts of its sections by
/// section number.
#[derive(Debug)]
pub struct Book {
    pub name: BookName,
    pub chapters: BTreeMap<usize, BTreeMap<usize, Text>>,
}

/// What a verse says: book name, chapter, section, text.
pub struct VerseModel {
    pub book: Seq<char>,
    pub chapter: usize,
    pub section: usize,
    pub text: Seq<char>,
}

/// What a book holds: its name, and the section texts by chapter and section.
pub struct BookModel {
    pub name: Seq<char>,
    pub chapters: Map<usize, Map<usize, Seq<char>>>,
}

impl View for Verse {
    type V = VerseModel;

    open spec fn view(&self) -> VerseModel {
        VerseModel {
            book: self.book.0@,
            chapter: self.chapter.0,
            section: self.section.0,
            text: self.text.0@,
        }
    }
}

/// The texts of a chapter, by section number.
pub open spec fn sections_model(m: Map<usize, Text>) -> Map<usize, Seq<char>> {
    m.map_values(|t: Text| t.0@)
}

/// The texts of a book, by chapter and section number.
pub open spec fn chapters_model(m: Map<usize, BTreeMap<usize, Text>>) -> Map<
    usize,
    Map<usize, Seq<char>>,
> {
    m.map_values(|s: BTreeMap<usize, Text>| sections_model(s@))
}

impl View for Book {
    type V = BookModel;

    open spec fn view(&self) -> BookModel {
        BookModel { name: self.name.0@, chapters: chapters_model(self.chapters@) }
    }
}

impl Book {
    /// A book with this name and no chapters.
    pub fn new(name: BookName) -> (b: Book)
        ensures
            b.name == name,
            b.chapters@ == Map::<usize, BTreeMap<usize, Text>>::empty(),
    {
        Book { name, chapters: BTreeMap::new() }
    }
}


/// The books of a Bible: `order` lists the slugs in reading order, `books`
/// files each book under its slug.
#[derive(Debug)]
pub struct Bible {
    pub order: Vec<BookSlug>,
    pub books: Vec<(BookSlug, Book)>,
}

/// The book filed first under `key` in `entries`.
pub open spec fn lookup(entries: Seq<(BookSlug, Book)>, key: Seq<char>) -> Option<Book>
    decreases entries.len(),
{
    if entries.len() == 0 {
        None
    } else if entries[0].0.0@ == key {
        Some(entries[0].1)
    } else {
        lookup(entries.drop_first(), key)
    }
}

/// The books of `entries`, by slug.
pub open spec fn entries_view(entries: Seq<(BookSlug, Book)>) -> Map<Seq<char>, BookModel> {
    Map::new(|k: Seq<char>| lookup(entries, k) is Some, |k: Seq<char>| lookup(entries, k)->0@)
}

/// No slug is filed twice.
pub open spec fn keys_distinct(entries: Seq<(BookSlug, Book)>) -> bool {
    forall|i: int, j: int|
        0 <= i < j < entries.len() ==> #[trigger] entries[i].0.0@ != #[trigger] entries[j].0.0@
}

impl Bible {
    /// The reading order, as slugs.
    pub open spec fn order_view(&self) -> Seq<Seq<char>> {
        self.order@.map_values(|s: BookSlug| s.0@)
    }

    /// The books, by slug.
    pub open spec fn books_view(&self) -> Map<Seq<char>, BookModel> {
        entries_view(self.books@)
    }

    /// Each slug is filed once, and each slug of the reading order names a
    /// filed book.
    pub open spec fn wf(&self) -> bool {
        &&& keys_distinct(self.books@)
        &&& forall|i: int|
            0 <= i < self.order@.len() ==> self.books_view().contains_key(
                #[trigger] self.order@[i].0@,
            )
    }
}

/// When no entry before `i` has `key` and entry `i` has it, the lookup
/// finds entry `i`; when no entry has it, nothing is found.
pub proof fn lemma_lookup_at(entries: Seq<(BookSlug, Book)>, key: Seq<char>, i: int)
    requires
        0 <= i <= entries.len(),
        forall|j: int| 0 <= j < i ==> #[trigger] entries[j].0.0@ != key,
        i < entries.len() ==> entries[i].0.0@ == key,
    ensures
        i < entries.len() ==> lookup(entries, key) == Some(entries[i].1),
        i == entries.len() ==> lookup(entries, key) is None,
    decreases i,
{
    if i > 0 {
        let t = entries.drop_first();
        assert(entries[0].0.0@ != key);
        assert forall|j: int| 0 <= j < i - 1 implies #[trigger] t[j].0.0@ != key by {
            assert(t[j] == entries[j + 1]);
        }
        lemma_lookup_at(t, key, i - 1);
    }
}

/// With distinct slugs, entry `i` is what its own slug finds.
pub proof fn lemma_lookup_distinct(entries: Seq<(BookSlug, Book)>, i: int)
    requires
        keys_distinct(entries),
        0 <= i < entries.len(),
    ensures
        lookup(entries, entries[i].0.0@) == Some(entries[i].1),
{
    let key = entries[i].0.0@;
    assert forall|j: int| 0 <= j < i implies #[trigger] entries[j].0.0@ != key by {
        assert(entries[j].0.0@ != entries[i].0.0@);
    }
    lemma_lookup_at(entries, key, i);
}

/// Lookups agree on two entry lists with the same slugs, position by
/// position, and the same books wherever the slug is `key`.
pub proof fn lemma_lookup_congruent(
    a: Seq<(BookSlug, Book)>,
    b: Seq<(BookSlug, Book)>,
    key: Seq<char>,
)
    requires
        a.len() == b.len(),
        forall|j: int| 0 <= j < a.len() ==> #[trigger] a[j].0.0@ == b[j].0.0@,
        forall|j: int| 0 <= j < a.len() && #[trigger] a[j].0.0@ == key ==> a[j].1 == b[j].1,
    ensures
        lookup(a, key) == lookup(b, key),
    decreases a.len(),
{
    if a.len() > 0 {
        let ta = a.drop_first();
        let tb = b.drop_first();
        assert(a[0].0.0@ == b[0].0.0@);
        assert forall|j: int| 0 <= j < ta.len() implies #[trigger] ta[j].0.0@ == tb[j].0.0@ by {
            assert(ta[j] == a[j + 1]);
            assert(tb[j] == b[j + 1]);
        }
        assert forall|j: int| 0 <= j < ta.len() && #[trigger] ta[j].0.0@ == key implies ta[j].1
            == tb[j].1 by {
            assert(ta[j] == a[j + 1]);
            assert(tb[j] == b[j + 1]);
        }
        lemma_lookup_congruent(ta, tb, key);
    }
}

/// Appending an entry with a new slug files it and changes nothing else.
pub proof fn lemma_lookup_push(entries: Seq<(BookSlug, Book)>, e: (BookSlug, Book), key: Seq<char>)
    requires
        lookup(entries, e.0.0@) is None,
    ensures
        lookup(entries.push(e), key) == if key == e.0.0@ {
            Some(e.1)
        } else {
            lookup(entries, key)
        },
    decreases entries.len(),
{
    let p = entries.push(e);
    if entries.len() == 0 {
        assert(p[0] == e);
        assert(p.drop_first() =~= Seq::<(BookSlug, Book)>::empty());
        assert(lookup(p.drop_first(), key) is None);
    } else {
        assert(p[0] == entries[0]);
        assert(p.drop_first() =~= entries.drop_first().push(e));
        assert(entries[0].0.0@ != e.0.0@);
        lemma_lookup_push(entries.drop_first(), e, key);
        if entries[0].0.0@ != key {
            assert(lookup(p, key) == lookup(p.drop_first(), key));
            assert(lookup(entries, key) == lookup(entries.drop_first(), key));
        }
    }
}

/// Searches `books` for the entry filed under `slug`.
fn find_book(books: &Vec<(BookSlug, Book)>, slug: &BookSlug) -> (r: Option<usize>)
    ensures
        match r {
            Some(j) => j < books@.len() && books@[j as int].0.0@ == slug.0@ && forall|k: int|
                0 <= k < j ==> #[trigger] books@[k].0.0@ != slug.0@,
            None => forall|k: int| 0 <= k < books@.len() ==> #[trigger] books@[k].0.0@ != slug.0@,
        },
{
    let mut j: usize = 0;
    while j < books.len()
        invariant
            j <= books@.len(),
            forall|k: int| 0 <= k < j ==> #[trigger] books@[k].0.0@ != slug.0@,
        decreases books.len() - j,
    {
        if books[j].0.0 == slug.0 {
            return Some(j);
        }
        j += 1;
    }
    None
}

impl Bible {
    /// The book filed under `book`, if any.
    pub fn get(&self, book: &BookSlug) -> (r: Option<&Book>)
        ensures
            match r {
                Some(b) => lookup(self.books@, book.0@) == Some(*b),
                None => lookup(self.books@, book.0@) is None,
            },
            r is Some <==> self.books_view().contains_key(book.0@),
            r matches Some(b) ==> b@ == self.books_view()[book.0@],
    {
        match find_book(&self.books, book) {
            Some(j) => {
                proof {
                    lemma_lookup_at(self.books@, book.0@, j as int);
                }
                Some(&self.books[j].1)
            },
            None => {
                proof {
                    lemma_lookup_at(self.books@, book.0@, self.books@.len() as int);
                }
                None
            },
        }
    }
}


/// The reading order of the books of `vs`: the slug of each verse's book,
/// written once for each run of verses of the same book.
pub open spec fn slug_order(vs: Seq<VerseModel>) -> Seq<Seq<char>>
    decreases vs.len(),
{
    if vs.len() == 0 {
        Seq::empty()
    } else {
        let prev = slug_order(vs.drop_last());
        let s = slug_of(vs.last().book);
        if prev.len() > 0 && prev.last() == s {
            prev
        } else {
            prev.push(s)
        }
    }
}

/// `books` with verse `v` filed: its book (named as `v` names it when the
/// slug is new) gets the text `v.text` at `v`'s chapter and section.
pub open spec fn file_verse(books: Map<Seq<char>, BookModel>, v: VerseModel) -> Map<
    Seq<char>,
    BookModel,
> {
    let s = slug_of(v.book);
    let b = if books.contains_key(s) {
        books[s]
    } else {
        BookModel { name: v.book, chapters: Map::empty() }
    };
    let secs = if b.chapters.contains_key(v.chapter) {
        b.chapters[v.chapter]
    } else {
        Map::empty()
    };
    books.insert(
        s,
        BookModel { name: b.name, chapters: b.chapters.insert(v.chapter, secs.insert(v.section, v.text)) },
    )
}

/// The books of `vs`, each verse filed in turn.
pub open spec fn books_model(vs: Seq<VerseModel>) -> Map<Seq<char>, BookModel>
    decreases vs.len(),
{
    if vs.len() == 0 {
        Map::empty()
    } else {
        file_verse(books_model(vs.drop_last()), vs.last())
    }
}

/// What a sequence of verses says.
pub open spec fn verse_models(verses: Seq<Verse>) -> Seq<VerseModel> {
    verses.map_values(|v: Verse| v@)
}

/// Files `verse` (whose book has slug `slug`) into `books`.
fn file_into(books: &mut Vec<(BookSlug, Book)>, verse: &Verse, slug: &BookSlug)
    requires
        keys_distinct(old(books)@),
        slug.0@ == slug_of(verse.book.0@),
    ensures
        keys_distinct(final(books)@),
        entries_view(final(books)@) == file_verse(entries_view(old(books)@), verse@),
{
    let ghost orig = books@;
    let ghost before = entries_view(books@);
    let ghost s = slug.0@;
    let j: usize;
    match find_book(books, slug) {
        Some(k) => {
            proof {
                lemma_lookup_at(books@, s, k as int);
            }
            j = k;
        },
        None => {
            proof {
                lemma_lookup_at(books@, s, books@.len() as int);
            }
            let e = (BookSlug(slug.0.clone()), Book::new(BookName(verse.book.0.clone())));
            let ghost prev = books@;
            books.push(e);
            proof {
                assert forall|k: Seq<char>| #[trigger]
                    lookup(books@, k) == if k == s {
                        Some(e.1)
                    } else {
                        lookup(prev, k)
                    } by {
                    lemma_lookup_push(prev, e, k);
                }
                assert forall|a: int, b: int|
                    0 <= a < b < books@.len() implies #[trigger] books@[a].0.0@
                    != #[trigger] books@[b].0.0@ by {
                    if b == prev.len() {
                        assert(books@[a] == prev[a]);
                    } else {
                        assert(books@[a] == prev[a]);
                        assert(books@[b] == prev[b]);
                    }
                }
            }
            j = books.len() - 1;
        },
    }
    let ghost mid = books@;
    proof {
        lemma_lookup_distinct(mid, j as int);
        assert(entries_view(mid).contains_key(s));
        assert(entries_view(mid)[s] == mid[j as int].1@);
        assert(entries_view(mid)[s] == if before.contains_key(s) {
            before[s]
        } else {
            BookModel { name: verse.book.0@, chapters: Map::empty() }
        }) by {
            if !before.contains_key(s) {
                assert(mid[j as int].1.chapters@ == Map::<usize, BTreeMap<usize, Text>>::empty());
                assert(chapters_model(mid[j as int].1.chapters@) =~= Map::empty());
            }
        }
        assert forall|k: Seq<char>| k != s implies #[trigger] lookup(mid, k) == lookup(orig, k)
            by {
            if mid.len() != orig.len() {
                assert(lookup(mid, k) == if k == s {
                    Some(mid[j as int].1)
                } else {
                    lookup(orig, k)
                });
            }
        }
    }
    let (key, mut book) = books.remove(j);
    let ghost old_chapters = book.chapters@;
    let ch = verse.chapter.0;
    let sec = verse.section.0;
    let mut sections = match book.chapters.remove(&ch) {
        Some(found) => found,
        None => BTreeMap::new(),
    };
    let ghost old_sections = sections@;
    sections.insert(sec, Text(verse.text.0.clone()));
    book.chapters.insert(ch, sections);
    books.insert(j, (key, book));
    proof {
        assert(books@ =~= mid.update(j as int, (key, book)));
        let b = entries_view(mid)[s];
        let secs = if b.chapters.contains_key(ch) {
            b.chapters[ch]
        } else {
            Map::empty()
        };
        assert(sections_model(old_sections) =~= secs);
        assert(book.chapters@ =~= old_chapters.insert(ch, sections));
        assert(sections_model(sections@) =~= secs.insert(sec, verse.text.0@));
        assert(chapters_model(book.chapters@) =~= b.chapters.insert(
            ch,
            secs.insert(sec, verse.text.0@),
        ));
        assert forall|a: int, c: int|
            0 <= a < c < books@.len() implies #[trigger] books@[a].0.0@
            != #[trigger] books@[c].0.0@ by {
            assert(books@[a].0.0@ == mid[a].0.0@);
            assert(books@[c].0.0@ == mid[c].0.0@);
        }
        lemma_lookup_distinct(books@, j as int);
        assert forall|k: Seq<char>| k != s implies #[trigger] lookup(books@, k) == lookup(mid, k) by {
            lemma_lookup_congruent(mid, books@, k);
        }
        assert forall|k: Seq<char>| k != s implies #[trigger] lookup(books@, k) == lookup(orig, k)
            by {
            assert(lookup(books@, k) == lookup(mid, k));
        }
        assert(entries_view(books@) =~= file_verse(before, verse@));
    }
}


impl Bible {
    /// The Bible that `verses` make, read in order: the reading order lists
    /// each book once per run of its verses, and each verse's text is filed
    /// under its book's slug, chapter and section, a later verse replacing
    /// an earlier one with the same reference.
    pub fn from_verses(verses: Vec<Verse>) -> (b: Bible)
        ensures
            b.wf(),
            b.order_view() == slug_order(verse_models(verses@)),
            b.books_view() == books_model(verse_models(verses@)),
    {
        let ghost vs = verse_models(verses@);
        let mut order: Vec<BookSlug> = Vec::new();
        let mut books: Vec<(BookSlug, Book)> = Vec::new();
        let n = verses.len();
        let mut i: usize = 0;
        proof {
            assert(vs.take(0) =~= Seq::<VerseModel>::empty());
            assert(entries_view(books@) =~= Map::<Seq<char>, BookModel>::empty());
            assert(order@.map_values(|s: BookSlug| s.0@) =~= Seq::<Seq<char>>::empty());
        }
        while i < n
            invariant
                n == verses.len(),
                vs == verse_models(verses@),
                i <= n,
                keys_distinct(books@),
                order@.map_values(|s: BookSlug| s.0@) == slug_order(vs.take(i as int)),
                entries_view(books@) == books_model(vs.take(i as int)),
                forall|k: int|
                    0 <= k < order@.len() ==> entries_view(books@).contains_key(
                        #[trigger] order@[k].0@,
                    ),
            decreases n - i,
        {
            let verse = &verses[i];
            let slug = verse.book.slug();
            let ghost prev_order = order@;
            let push = if order.len() == 0 {
                true
            } else {
                !(order[order.len() - 1].0 == slug.0)
            };
            if push {
                order.push(BookSlug(slug.0.clone()));
            }
            file_into(&mut books, verse, &slug);
            proof {
                let pre = vs.take(i as int);
                let post = vs.take(i + 1);
                assert(post.drop_last() =~= pre);
                assert(post.last() == verse@);
                let po = prev_order.map_values(|s: BookSlug| s.0@);
                if push {
                    assert(order@.map_values(|s: BookSlug| s.0@) =~= po.push(slug.0@));
                } else {
                    assert(po.last() == prev_order.last().0@);
                    assert(order@ == prev_order);
                }
                assert forall|k: int|
                    0 <= k < order@.len() implies entries_view(books@).contains_key(
                    #[trigger] order@[k].0@,
                ) by {
                    if k < prev_order.len() {
                        assert(order@[k] == prev_order[k]);
                    }
                }
            }
            i += 1;
        }
        proof {
            assert(vs.take(n as int) =~= vs);
        }
        Bible { order, books }
    }
}


/// The first position at or after `from` that holds `k` in `s`.
pub open spec fn first_index_from(s: Seq<Seq<char>>, k: Seq<char>, from: int) -> Option<int>
    decreases s.len() - from,
{
    if from < 0 || from >= s.len() {
        None
    } else if s[from] == k {
        Some(from)
    } else {
        first_index_from(s, k, from + 1)
    }
}

/// The last position before `end` that holds `k` in `s`.
pub open spec fn last_index_before(s: Seq<Seq<char>>, k: Seq<char>, end: int) -> Option<int>
    decreases end,
{
    if end <= 0 || end > s.len() {
        None
    } else if s[end - 1] == k {
        Some(end - 1)
    } else {
        last_index_before(s, k, end - 1)
    }
}

/// A position that `first_index_from` finds holds the key and is in range.
pub proof fn lemma_first_index_found(s: Seq<Seq<char>>, k: Seq<char>, from: int)
    requires
        first_index_from(s, k, from) is Some,
    ensures
        0 <= from <= first_index_from(s, k, from)->0 < s.len(),
        s[first_index_from(s, k, from)->0] == k,
    decreases s.len() - from,
{
    if !(from < 0 || from >= s.len()) && s[from] != k {
        lemma_first_index_found(s, k, from + 1);
    }
}

/// A position that `last_index_before` finds holds the key and is in range.
pub proof fn lemma_last_index_found(s: Seq<Seq<char>>, k: Seq<char>, end: int)
    requires
        last_index_before(s, k, end) is Some,
    ensures
        0 <= last_index_before(s, k, end)->0 < end <= s.len(),
        s[last_index_before(s, k, end)->0] == k,
    decreases end,
{
    if !(end <= 0 || end > s.len()) && s[end - 1] != k {
        lemma_last_index_found(s, k, end - 1);
    }
}

/// `first_index_from` is the first match at or after `from`.
pub proof fn lemma_first_index_from(s: Seq<Seq<char>>, k: Seq<char>, from: int, i: int)
    requires
        0 <= from <= i <= s.len(),
        forall|j: int| from <= j < i ==> #[trigger] s[j] != k,
        i < s.len() ==> s[i] == k,
    ensures
        first_index_from(s, k, from) == if i < s.len() {
            Some(i)
        } else {
            None::<int>
        },
    decreases i - from,
{
    if from < i {
        lemma_first_index_from(s, k, from + 1, i);
    }
}

/// `last_index_before` is the last match before `end`.
pub proof fn lemma_last_index_before(s: Seq<Seq<char>>, k: Seq<char>, end: int, i: int)
    requires
        -1 <= i < end <= s.len(),
        forall|j: int| i < j < end ==> #[trigger] s[j] != k,
        i >= 0 ==> s[i] == k,
    ensures
        last_index_before(s, k, end) == if i >= 0 {
            Some(i)
        } else {
            None::<int>
        },
    decreases end - i,
{
    if i < end - 1 {
        lemma_last_index_before(s, k, end - 1, i);
    }
}

/// Where the book read before `k` stands in `order`: just before the first
/// place, past the front, that holds `k`.
pub open spec fn previous_position(order: Seq<Seq<char>>, k: Seq<char>) -> Option<int> {
    match first_index_from(order, k, 1) {
        Some(i) => Some(i - 1),
        None => None,
    }
}

/// Where the book read after `k` stands in `order`: just after the last
/// place, short of the end, that holds `k`.
pub open spec fn next_position(order: Seq<Seq<char>>, k: Seq<char>) -> Option<int> {
    match last_index_before(order, k, order.len() - 1) {
        Some(i) => Some(i + 1),
        None => None,
    }
}

impl Bible {
    /// The book at `pos` of the reading order, if there is a position, is
    /// filed.
    pub open spec fn neighbour_filed(&self, pos: Option<int>) -> bool {
        match pos {
            Some(p) => 0 <= p < self.order@.len() && self.books_view().contains_key(
                self.order@[p].0@,
            ),
            None => true,
        }
    }

    /// A well-formed Bible has each neighbour it names filed.
    pub proof fn lemma_wf_neighbour_filed(&self, k: Seq<char>)
        requires
            self.wf(),
        ensures
            self.neighbour_filed(previous_position(self.order_view(), k)),
            self.neighbour_filed(next_position(self.order_view(), k)),
    {
        if first_index_from(self.order_view(), k, 1) is Some {
            lemma_first_index_found(self.order_view(), k, 1);
        }
        if last_index_before(self.order_view(), k, self.order_view().len() - 1) is Some {
            lemma_last_index_found(self.order_view(), k, self.order_view().len() - 1);
        }
    }

    /// The book read before `book`: the one just before the first place,
    /// past the front of the reading order, that holds `book`.
    pub fn previous(&self, book: &BookSlug) -> (r: Option<(&BookName, &BookSlug)>)
        requires
            self.neighbour_filed(previous_position(self.order_view(), book.0@)),
        ensures
            match previous_position(self.order_view(), book.0@) {
                Some(p) => {
                    &&& r is Some
                    &&& *(r->0).1 == self.order@[p]
                    &&& lookup(self.books@, self.order@[p].0@) is Some
                    &&& *(r->0).0 == lookup(self.books@, self.order@[p].0@)->0.name
                },
                None => r is None,
            },
    {
        let n = self.order.len();
        let mut c: usize = 0;
        while n > 0 && c < n - 1
            invariant
                self.neighbour_filed(previous_position(self.order_view(), book.0@)),
                n == self.order@.len(),
                c < n || n == 0,
                forall|j: int| 1 <= j < c + 1 ==> #[trigger] self.order@[j].0@ != book.0@,
            decreases n - c,
        {
            if self.order[c + 1].0 == book.0 {
                proof {
                    lemma_first_index_from(self.order_view(), book.0@, 1, c + 1);
                }
                let prev = &self.order[c];
                proof {
                    assert(self.books_view().contains_key(self.order@[c as int].0@));
                }
                match self.get(prev) {
                    Some(found) => {
                        return Some((&found.name, prev));
                    },
                    None => {
                        assert(false);
                        return None;
                    },
                }
            }
            c += 1;
        }
        proof {
            if n > 0 {
                lemma_first_index_from(self.order_view(), book.0@, 1, n as int);
            }
        }
        None
    }

    /// The book read after `book`: the one just after the last place,
    /// short of the end of the reading order, that holds `book`.
    pub fn next(&self, book: &BookSlug) -> (r: Option<(&BookName, &BookSlug)>)
        requires
            self.neighbour_filed(next_position(self.order_view(), book.0@)),
        ensures
            match next_position(self.order_view(), book.0@) {
                Some(p) => {
                    &&& r is Some
                    &&& *(r->0).1 == self.order@[p]
                    &&& lookup(self.books@, self.order@[p].0@) is Some
                    &&& *(r->0).0 == lookup(self.books@, self.order@[p].0@)->0.name
                },
                None => r is None,
            },
    {
        let n = self.order.len();
        let mut c: usize = n;
        while c > 1
            invariant
                self.neighbour_filed(next_position(self.order_view(), book.0@)),
                n == self.order@.len(),
                c <= n,
                forall|j: int| c - 1 <= j < n - 1 ==> #[trigger] self.order@[j].0@ != book.0@,
            decreases c,
        {
            c -= 1;
            if self.order[c - 1].0 == book.0 {
                proof {
                    lemma_last_index_before(self.order_view(), book.0@, n - 1, c - 1);
                }
                let next = &self.order[c];
                proof {
                    assert(self.books_view().contains_key(self.order@[c as int].0@));
                }
                match self.get(next) {
                    Some(found) => {
                        return Some((&found.name, next));
                    },
                    None => {
                        assert(false);
                        return None;
                    },
                }
            }
        }
        proof {
            if n > 0 {
                lemma_last_index_before(self.order_view(), book.0@, n - 1, -1);
            }
        }
        None
    }
}


/// A verse as a generated verse table writes it: book name, chapter,
/// section, text.
pub type VerseRecord<'a> = (&'a str, usize, usize, &'a str);

/// The verse that a record says: book name and text trimmed.
pub open spec fn record_model(r: VerseRecord<'_>) -> VerseModel {
    VerseModel { book: trim_seq(r.0@), chapter: r.1, section: r.2, text: trim_seq(r.3@) }
}

impl Bible {
    /// The Bible that the verse records make, read in order, as
    /// `from_verses` makes it.
    pub fn from_records(records: &[VerseRecord<'_>]) -> (b: Bible)
        ensures
            b.wf(),
            b.order_view() == slug_order(records@.map_values(|r: VerseRecord<'_>| record_model(r))),
            b.books_view() == books_model(records@.map_values(|r: VerseRecord<'_>| record_model(r))),
    {
        let mut verses: Vec<Verse> = Vec::new();
        let mut i: usize = 0;
        while i < records.len()
            invariant
                i <= records@.len(),
                verses@.len() == i,
                forall|k: int|
                    0 <= k < i ==> (#[trigger] verses@[k])@ == record_model(records@[k]),
            decreases records@.len() - i,
        {
            let r = records[i];
            verses.push(
                Verse {
                    book: BookName::new(r.0),
                    chapter: Chapter(r.1),
                    section: Section(r.2),
                    text: Text::new(r.3),
                },
            );
            i += 1;
        }
        proof {
            assert(verse_models(verses@) =~= records@.map_values(|r: VerseRecord<'_>| record_model(r)));
        }
        Bible::from_verses(verses)
    }
}

} // verus!
