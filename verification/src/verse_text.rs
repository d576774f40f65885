//! A Bible text file: a few header lines, then one verse per line.
use vstd::prelude::*;
use crate::strings::chars_of;
use crate::verse_line::{fields_of_chars, line_fields, Layout, LineFields};

verus! {

/// The pieces of `t` between line feeds (one more than there are line feeds).
pub open spec fn split_lf(t: Seq<char>) -> Seq<Seq<char>>
    decreases t.len(),
{
    if t.len() == 0 {
        seq![Seq::empty()]
    } else {
        let p = split_lf(t.drop_last());
        if t.last() == '\n' {
            p.push(Seq::empty())
        } else {
            p.update(p.len() - 1, p.last().push(t.last()))
        }
    }
}

/// `s` without a final carriage return.
pub open spec fn strip_cr(s: Seq<char>) -> Seq<char> {
    if s.len() > 0 && s.last() == '\r' {
        s.drop_last()
    } else {
        s
    }
}

/// The lines of `t` as `str::lines` gives them: split at each line feed,
/// a carriage return just before a line feed dropped, and no empty line
/// after a final line feed.
pub open spec fn lines_of(t: Seq<char>) -> Seq<Seq<char>> {
    let p = split_lf(t);
    let ended = p.drop_last().map_values(|x: Seq<char>| strip_cr(x));
    if p.last().len() == 0 {
        ended
    } else {
        ended.push(p.last())
    }
}

/// `split_lf` always gives at least one piece.
pub proof fn lemma_split_lf_nonempty(t: Seq<char>)
    ensures
        split_lf(t).len() >= 1,
    decreases t.len(),
{
    if t.len() > 0 {
        lemma_split_lf_nonempty(t.drop_last());
    }
}

/// The lines of `text`, as `str::lines` gives them, each as its characters.
fn lines_of_chars(text: &Vec<char>) -> (lines: Vec<Vec<char>>)
    ensures
        lines@.map_values(|v: Vec<char>| v@) == lines_of(text@),
{
    let mut done: Vec<Vec<char>> = Vec::new();
    let mut cur: Vec<char> = Vec::new();
    let mut i: usize = 0;
    proof {
        assert(text@.take(0) =~= Seq::<char>::empty());
        assert(done@.map_values(|v: Vec<char>| v@) =~= split_lf(text@.take(0)).drop_last().map_values(
            |x: Seq<char>| strip_cr(x),
        ));
    }
    while i < text.len()
        invariant
            i <= text.len(),
            split_lf(text@.take(i as int)).len() >= 1,
            done@.map_values(|v: Vec<char>| v@) == split_lf(text@.take(i as int)).drop_last().map_values(
                |x: Seq<char>| strip_cr(x),
            ),
            cur@ == split_lf(text@.take(i as int)).last(),
        decreases text.len() - i,
    {
        let c = text[i];
        let ghost pre = text@.take(i as int);
        let ghost post = text@.take(i + 1);
        let ghost old_done = done@;
        proof {
            assert(post.drop_last() =~= pre);
            assert(post.last() == c);
            lemma_split_lf_nonempty(post);
        }
        if c == '\n' {
            let ghost cur_old = cur@;
            let mut line = cur;
            if line.len() > 0 && line[line.len() - 1] == '\r' {
                line.pop();
                assert(line@ =~= cur_old.drop_last());
            }
            assert(line@ == strip_cr(cur_old));
            let ghost line_view = line@;
            done.push(line);
            assert(done@.map_values(|v: Vec<char>| v@) =~= old_done.map_values(|v: Vec<char>| v@).push(
                line_view,
            ));
            cur = Vec::new();
            proof {
                let p = split_lf(pre);
                assert(split_lf(post) == p.push(Seq::empty()));
                assert(split_lf(post).drop_last() =~= p);
                assert(p =~= p.drop_last().push(p.last()));
                assert(done@.map_values(|v: Vec<char>| v@) =~= split_lf(post).drop_last().map_values(
                    |x: Seq<char>| strip_cr(x),
                ));
            }
        } else {
            cur.push(c);
            proof {
                let p = split_lf(pre);
                assert(split_lf(post).drop_last() =~= p.drop_last());
            }
        }
        i += 1;
    }
    let ghost p = split_lf(text@);
    proof {
        assert(text@.take(text@.len() as int) =~= text@);
    }
    if cur.len() > 0 {
        done.push(cur);
        proof {
            assert(done@.map_values(|v: Vec<char>| v@) =~= lines_of(text@));
        }
    } else {
        proof {
            assert(done@.map_values(|v: Vec<char>| v@) =~= lines_of(text@));
        }
    }
    done
}


/// What a verse line says: book name, chapter, section, text.
pub open spec fn fields_view(f: LineFields) -> (Seq<char>, nat, nat, Seq<char>) {
    (f.book@, f.chapter as nat, f.section as nat, f.text@)
}

/// The verses of text `t` after its first `header` lines, when it has that
/// many lines and every later line holds a verse whose numbers fit in a
/// `usize`.
pub open spec fn text_fields(t: Seq<char>, header: nat, layout: Layout) -> Option<
    Seq<(Seq<char>, nat, nat, Seq<char>)>,
> {
    let ls = lines_of(t);
    if ls.len() < header {
        None
    } else if forall|i: int| header <= i < ls.len() ==> (#[trigger] line_fields(ls[i], layout)) is Some {
        Some(
            Seq::new((ls.len() - header) as nat, |i: int| line_fields(ls[header + i], layout)->0),
        )
    } else {
        None
    }
}

/// The verses of `text` after its first `header_lines` lines, or `None`
/// when it has fewer lines or a later line holds no verse.
pub fn parse_verse_text(text: &str, header_lines: usize, layout: Layout) -> (r: Option<
    Vec<LineFields>,
>)
    ensures
        match r {
            Some(fs) => text_fields(text@, header_lines as nat, layout) == Some(
                fs@.map_values(|f: LineFields| fields_view(f)),
            ),
            None => text_fields(text@, header_lines as nat, layout) is None,
        },
{
    let chars = chars_of(text);
    let lines = lines_of_chars(&chars);
    let ghost ls = lines_of(text@);
    if lines.len() < header_lines {
        return None;
    }
    let mut out: Vec<LineFields> = Vec::new();
    let mut i = header_lines;
    while i < lines.len()
        invariant
            header_lines <= i <= lines@.len(),
            ls == lines_of(text@),
            lines@.map_values(|v: Vec<char>| v@) == ls,
            out@.len() == i - header_lines,
            forall|k: int| header_lines <= k < i ==> (#[trigger] line_fields(ls[k], layout)) is Some,
            forall|k: int|
                0 <= k < out@.len() ==> fields_view(#[trigger] out@[k]) == line_fields(
                    ls[header_lines + k],
                    layout,
                )->0,
        decreases lines@.len() - i,
    {
        assert(lines@[i as int]@ == ls[i as int]);
        match fields_of_chars(&lines[i], layout) {
            Some(f) => {
                out.push(f);
            },
            None => {
                proof {
                    assert(line_fields(ls[i as int], layout) is None);
                    assert(!(forall|k: int|
                        header_lines <= k < ls.len() ==> (#[trigger] line_fields(ls[k], layout)) is Some));
                }
                return None;
            },
        }
        i += 1;
    }
    proof {
        assert(out@.map_values(|f: LineFields| fields_view(f)) =~= Seq::new(
            (ls.len() - header_lines) as nat,
            |k: int| line_fields(ls[header_lines + k], layout)->0,
        ));
    }
    Some(out)
}

} // verus!
