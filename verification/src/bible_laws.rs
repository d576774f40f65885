//! What holds of every Bible that verses make, and of the reading order.
use vstd::prelude::*;
use crate::strings::trim_seq;
use crate::bible::{
    books_model, last_index_before, lemma_first_index_from,
    lemma_last_index_before, lemma_last_index_found, next_position, previous_position, record_model,
    slug_of, slug_order, VerseRecord,
    VerseModel,
};

verus! {

/// Two verses give the same reference: same book slug, chapter and section.
pub open spec fn same_reference(a: VerseModel, b: VerseModel) -> bool {
    &&& slug_of(a.book) == slug_of(b.book)
    &&& a.chapter == b.chapter
    &&& a.section == b.section
}

/// A book is filed under slug `k` exactly when some verse's book has slug `k`.
pub proof fn law_books_are_verse_books(vs: Seq<VerseModel>, k: Seq<char>)
    ensures
        books_model(vs).contains_key(k) <==> exists|i: int|
            0 <= i < vs.len() && #[trigger] slug_of(vs[i].book) == k,
    decreases vs.len(),
{
    if vs.len() > 0 {
        let pre = vs.drop_last();
        law_books_are_verse_books(pre, k);
        if books_model(vs).contains_key(k) {
            if slug_of(vs.last().book) == k {
                assert(slug_of(vs[vs.len() - 1].book) == k);
            } else {
                let i = choose|i: int| 0 <= i < pre.len() && #[trigger] slug_of(pre[i].book) == k;
                assert(vs[i] == pre[i]);
                assert(slug_of(vs[i].book) == k);
            }
        } else {
            assert forall|i: int| 0 <= i < vs.len() implies #[trigger] slug_of(vs[i].book) != k by {
                if i < vs.len() - 1 {
                    assert(vs[i] == pre[i]);
                    if slug_of(vs[i].book) == k {
                        assert(slug_of(pre[i].book) == k);
                    }
                }
            }
        }
    }
}

/// Every book is filed under the slug of its own name.
pub proof fn law_books_filed_under_own_slug(vs: Seq<VerseModel>, k: Seq<char>)
    requires
        books_model(vs).contains_key(k),
    ensures
        slug_of(books_model(vs)[k].name) == k,
    decreases vs.len(),
{
    let pre = vs.drop_last();
    if books_model(pre).contains_key(k) {
        law_books_filed_under_own_slug(pre, k);
    }
}

/// A book takes its name from the first verse of that book (by slug).
pub proof fn law_book_named_by_first_verse(vs: Seq<VerseModel>, i: int)
    requires
        0 <= i < vs.len(),
        forall|j: int| 0 <= j < i ==> #[trigger] slug_of(vs[j].book) != slug_of(vs[i].book),
    ensures
        books_model(vs).contains_key(slug_of(vs[i].book)),
        books_model(vs)[slug_of(vs[i].book)].name == vs[i].book,
    decreases vs.len(),
{
    let pre = vs.drop_last();
    let s = slug_of(vs[i].book);
    if i == vs.len() - 1 {
        law_books_are_verse_books(pre, s);
        if books_model(pre).contains_key(s) {
            let j = choose|j: int| 0 <= j < pre.len() && #[trigger] slug_of(pre[j].book) == s;
            assert(pre[j] == vs[j]);
            assert(slug_of(vs[j].book) != s);
        }
    } else {
        assert forall|j: int| 0 <= j < i implies #[trigger] slug_of(pre[j].book) != slug_of(
            pre[i].book,
        ) by {
            assert(pre[j] == vs[j]);
            assert(pre[i] == vs[i]);
        }
        law_book_named_by_first_verse(pre, i);
        assert(pre[i] == vs[i]);
    }
}

/// A verse's text is filed at its book, chapter and section, unless a
/// later verse gives the same reference.
pub proof fn law_last_verse_wins(vs: Seq<VerseModel>, i: int)
    requires
        0 <= i < vs.len(),
        forall|j: int| i < j < vs.len() ==> !same_reference(#[trigger] vs[j], vs[i]),
    ensures
        ({
            let m = books_model(vs);
            let s = slug_of(vs[i].book);
            &&& m.contains_key(s)
            &&& m[s].chapters.contains_key(vs[i].chapter)
            &&& m[s].chapters[vs[i].chapter].contains_key(vs[i].section)
            &&& m[s].chapters[vs[i].chapter][vs[i].section] == vs[i].text
        }),
    decreases vs.len(),
{
    let pre = vs.drop_last();
    if i < vs.len() - 1 {
        assert forall|j: int| i < j < pre.len() implies !same_reference(#[trigger] pre[j], pre[i]) by {
            assert(pre[j] == vs[j]);
            assert(pre[i] == vs[i]);
        }
        law_last_verse_wins(pre, i);
        assert(pre[i] == vs[i]);
        assert(!same_reference(vs[vs.len() - 1], vs[i]));
    }
}

/// Every filed text comes from a verse with that book, chapter and section.
pub proof fn law_filed_texts_come_from_verses(vs: Seq<VerseModel>, k: Seq<char>, c: usize, s: usize)
    requires
        books_model(vs).contains_key(k),
        books_model(vs)[k].chapters.contains_key(c),
        books_model(vs)[k].chapters[c].contains_key(s),
    ensures
        exists|i: int|
            0 <= i < vs.len() && slug_of(vs[i].book) == k && vs[i].chapter == c && vs[i].section == s
                && #[trigger] vs[i].text == books_model(vs)[k].chapters[c][s],
    decreases vs.len(),
{
    let pre = vs.drop_last();
    let v = vs.last();
    if slug_of(v.book) == k && v.chapter == c && v.section == s {
        assert(vs[vs.len() - 1] == v);
    } else {
        let pm = books_model(pre);
        if !(pm.contains_key(k) && pm[k].chapters.contains_key(c) && pm[k].chapters[c].contains_key(s)) {
            assert(false);
        }
        law_filed_texts_come_from_verses(pre, k, c, s);
        let i = choose|i: int|
            0 <= i < pre.len() && slug_of(pre[i].book) == k && pre[i].chapter == c && pre[i].section
                == s && #[trigger] pre[i].text == pm[k].chapters[c][s];
        assert(vs[i] == pre[i]);
    }
}

/// The reading order never lists a book twice in a row, and lists exactly
/// the filed books.
pub proof fn law_reading_order(vs: Seq<VerseModel>)
    ensures
        forall|i: int|
            0 <= i < slug_order(vs).len() - 1 ==> #[trigger] slug_order(vs)[i] != slug_order(vs)[i + 1],
        forall|k: Seq<char>| slug_order(vs).contains(k) <==> books_model(vs).contains_key(k),
    decreases vs.len(),
{
    if vs.len() > 0 {
        let pre = vs.drop_last();
        law_reading_order(pre);
        let po = slug_order(pre);
        let s = slug_of(vs.last().book);
        assert forall|k: Seq<char>| slug_order(vs).contains(k) <==> books_model(vs).contains_key(k) by {
            if po.len() > 0 && po.last() == s {
                assert(po.contains(s));
            } else {
                if slug_order(vs).contains(k) && k != s {
                    let j = choose|j: int| 0 <= j < slug_order(vs).len() && slug_order(vs)[j] == k;
                    assert(po[j] == k);
                }
                if po.contains(k) {
                    let j = choose|j: int| 0 <= j < po.len() && po[j] == k;
                    assert(slug_order(vs)[j] == k);
                }
                assert(slug_order(vs)[po.len() as int] == s);
            }
        }
        assert forall|i: int|
            0 <= i < slug_order(vs).len() - 1 implies #[trigger] slug_order(vs)[i] != slug_order(
            vs,
        )[i + 1] by {
            if !(po.len() > 0 && po.last() == s) && i == po.len() - 1 {
                assert(slug_order(vs)[i] == po.last());
            } else if !(po.len() > 0 && po.last() == s) {
                assert(slug_order(vs)[i] == po[i]);
                assert(slug_order(vs)[i + 1] == po[i + 1]);
            }
        }
    }
}

/// In a reading order that lists no book twice, the book before the one at
/// `i` is the one at `i - 1`, and the book after it is the one at `i + 1`.
pub proof fn law_neighbours(order: Seq<Seq<char>>, i: int)
    requires
        order.no_duplicates(),
        0 <= i < order.len(),
    ensures
        previous_position(order, order[i]) == if i > 0 {
            Some(i - 1)
        } else {
            None::<int>
        },
        next_position(order, order[i]) == if i + 1 < order.len() {
            Some(i + 1)
        } else {
            None::<int>
        },
{
    let k = order[i];
    if i > 0 {
        lemma_first_index_from(order, k, 1, i);
    } else {
        assert forall|j: int| 1 <= j < order.len() implies #[trigger] order[j] != k by {}
        lemma_first_index_from(order, k, 1, order.len() as int);
    }
    if i + 1 < order.len() {
        lemma_last_index_before(order, k, order.len() - 1, i);
    } else {
        lemma_last_index_before(order, k, order.len() - 1, -1);
    }
}

/// In a reading order that lists no book twice, going to the next book and
/// then to the previous one comes back.
pub proof fn law_previous_undoes_next(order: Seq<Seq<char>>, k: Seq<char>)
    requires
        order.no_duplicates(),
        next_position(order, k) is Some,
    ensures
        ({
            let j = next_position(order, k)->0;
            &&& 0 < j < order.len()
            &&& previous_position(order, order[j]) == Some(j - 1)
            &&& order[j - 1] == k
        }),
{
    let i = last_index_before(order, k, order.len() - 1)->0;
    lemma_last_index_found(order, k, order.len() - 1);
    law_neighbours(order, i);
    law_neighbours(order, i + 1);
}

/// Two verse records name the same place: their trimmed book names have one
/// slug, and they agree on the chapter (second field) and the section (third
/// field).
pub open spec fn same_record_place(a: VerseRecord<'_>, b: VerseRecord<'_>) -> bool {
    &&& slug_of(trim_seq(a.0@)) == slug_of(trim_seq(b.0@))
    &&& a.1 == b.1
    &&& a.2 == b.2
}

/// A verse record `(book, chapter, section, text)` is filed at its second
/// field as chapter and its third as section: unless a later record names the
/// same place, the books that the records make hold its trimmed text under
/// the slug of its trimmed book name, at that chapter and section.
pub proof fn law_records_filed<'a>(rs: Seq<VerseRecord<'a>>, i: int)
    requires
        0 <= i < rs.len(),
        forall|j: int| i < j < rs.len() ==> !same_record_place(#[trigger] rs[j], rs[i]),
    ensures
        ({
            let m = books_model(rs.map_values(|r: VerseRecord<'a>| record_model(r)));
            let s = slug_of(trim_seq(rs[i].0@));
            &&& m.contains_key(s)
            &&& m[s].chapters.contains_key(rs[i].1)
            &&& m[s].chapters[rs[i].1].contains_key(rs[i].2)
            &&& m[s].chapters[rs[i].1][rs[i].2] == trim_seq(rs[i].3@)
        }),
{
    let vs = rs.map_values(|r: VerseRecord<'a>| record_model(r));
    assert forall|j: int| i < j < vs.len() implies !same_reference(#[trigger] vs[j], vs[i]) by {
        assert(!same_record_place(rs[j], rs[i]));
    }
    law_last_verse_wins(vs, i);
}

} // verus!
