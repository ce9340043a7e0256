//! Splitting an instruction file into its lines and joining them back.
//!
//! `split_lines` and `join_lines` are exact inverses: splitting at every
//! newline keeps a trailing empty line when the text ends with a newline, so
//! joining with newline separators restores the text byte for byte.

use vstd::prelude::*;

use crate::text::NL;
use crate::text::find_byte;
use crate::text::lemma_find_byte;
use crate::text::push_range;

verus! {

/// The lines of `s`, split at every newline byte. Splitting never drops a
/// byte other than the separators, and always yields at least one line.
pub open spec fn split_lines(s: Seq<u8>) -> Seq<Seq<u8>>
    decreases s.len(),
{
    if s.len() == 0 {
        seq![Seq::<u8>::empty()]
    } else if s[0] == NL {
        seq![Seq::<u8>::empty()] + split_lines(s.drop_first())
    } else {
        let rest = split_lines(s.drop_first());
        seq![seq![s[0]] + rest[0]] + rest.drop_first()
    }
}

/// The lines joined with a newline between each neighbouring pair.
pub open spec fn join_lines(ls: Seq<Seq<u8>>) -> Seq<u8>
    decreases ls.len(),
{
    if ls.len() == 0 {
        Seq::empty()
    } else if ls.len() == 1 {
        ls[0]
    } else {
        ls[0] + seq![NL] + join_lines(ls.drop_first())
    }
}

/// Splitting yields at least one line.
pub proof fn lemma_split_lines_nonempty(s: Seq<u8>)
    ensures
        split_lines(s).len() >= 1,
    decreases s.len(),
{
    if s.len() == 0 {
    } else if s[0] == NL {
        lemma_split_lines_nonempty(s.drop_first());
    } else {
        lemma_split_lines_nonempty(s.drop_first());
    }
}

/// A text without a newline is a single line.
pub proof fn lemma_split_no_newline(s: Seq<u8>)
    requires
        forall|k: int| 0 <= k < s.len() ==> s[k] != NL,
    ensures
        split_lines(s) == seq![s],
    decreases s.len(),
{
    if s.len() == 0 {
        assert(s =~= Seq::<u8>::empty());
        assert(split_lines(s) =~= seq![s]);
    } else {
        lemma_split_no_newline(s.drop_first());
        let rest = split_lines(s.drop_first());
        assert(rest == seq![s.drop_first()]);
        assert(seq![s[0]] + rest[0] =~= s);
        assert(rest.drop_first() =~= Seq::<Seq<u8>>::empty());
        assert(split_lines(s) =~= seq![s]);
    }
}

/// Splitting at the first newline: a newline-free prefix becomes the first
/// line, and the remainder is split on its own.
pub proof fn lemma_split_at_newline(s1: Seq<u8>, s2: Seq<u8>)
    requires
        forall|k: int| 0 <= k < s1.len() ==> s1[k] != NL,
    ensures
        split_lines(s1 + seq![NL] + s2) == seq![s1] + split_lines(s2),
    decreases s1.len(),
{
    let s = s1 + seq![NL] + s2;
    if s1.len() == 0 {
        assert(s[0] == NL);
        assert(s.drop_first() =~= s2);
        assert(s1 =~= Seq::<u8>::empty());
        assert(seq![Seq::<u8>::empty()] + split_lines(s2) =~= seq![s1] + split_lines(s2));
    } else {
        let s1p = s1.drop_first();
        assert(s.drop_first() =~= s1p + seq![NL] + s2);
        lemma_split_at_newline(s1p, s2);
        let rest = split_lines(s.drop_first());
        assert(rest == seq![s1p] + split_lines(s2));
        lemma_split_lines_nonempty(s2);
        assert(rest[0] == s1p);
        assert(seq![s[0]] + rest[0] =~= s1);
        assert(rest.drop_first() =~= split_lines(s2));
        assert(split_lines(s) =~= seq![s1] + split_lines(s2));
    }
}

/// Appending one more line to a join appends a separator and that line.
pub proof fn lemma_join_push(ls: Seq<Seq<u8>>, x: Seq<u8>)
    requires
        ls.len() >= 1,
    ensures
        join_lines(ls.push(x)) == join_lines(ls) + seq![NL] + x,
    decreases ls.len(),
{
    if ls.len() == 1 {
        let p = ls.push(x);
        assert(p.len() == 2);
        assert(p.drop_first() =~= seq![x]);
        assert(join_lines(p.drop_first()) == x);
        assert(join_lines(p) =~= ls[0] + seq![NL] + x);
    } else {
        let p = ls.push(x);
        assert(p.drop_first() =~= ls.drop_first().push(x));
        lemma_join_push(ls.drop_first(), x);
        assert(join_lines(p) == p[0] + seq![NL] + (join_lines(ls.drop_first()) + seq![NL] + x));
        assert(join_lines(ls) + seq![NL] + x =~= p[0] + seq![NL] + (join_lines(ls.drop_first())
            + seq![NL] + x));
    }
}

/// Joining the lines of a text restores the text.
pub proof fn lemma_join_split(s: Seq<u8>)
    ensures
        join_lines(split_lines(s)) == s,
    decreases s.len(),
{
    if s.len() == 0 {
    } else if s[0] == NL {
        lemma_join_split(s.drop_first());
        let r = split_lines(s.drop_first());
        lemma_split_lines_nonempty(s.drop_first());
        let w = seq![Seq::<u8>::empty()] + r;
        assert(w.len() >= 2);
        assert(w.drop_first() =~= r);
        assert(join_lines(w) == w[0] + seq![NL] + join_lines(r));
        assert(join_lines(w) =~= s);
    } else {
        lemma_join_split(s.drop_first());
        let r = split_lines(s.drop_first());
        lemma_split_lines_nonempty(s.drop_first());
        let w = seq![seq![s[0]] + r[0]] + r.drop_first();
        if r.len() == 1 {
            assert(w.len() == 1);
            assert(join_lines(r) == r[0]);
            assert(join_lines(w) == seq![s[0]] + r[0]);
            assert(join_lines(w) =~= s);
        } else {
            assert(w.len() >= 2);
            assert(w.drop_first() =~= r.drop_first());
            assert(join_lines(w) == (seq![s[0]] + r[0]) + seq![NL] + join_lines(r.drop_first()));
            assert(join_lines(r) == r[0] + seq![NL] + join_lines(r.drop_first()));
            assert(join_lines(w) =~= seq![s[0]] + join_lines(r));
            assert(seq![s[0]] + join_lines(r) =~= s);
        }
    }
}

/// A line proper: a byte sequence without the separator.
pub open spec fn newline_free(line: Seq<u8>) -> bool {
    forall|k: int| 0 <= k < line.len() ==> line[k] != NL
}

/// Every line that splitting yields is free of newlines.
pub proof fn lemma_split_lines_newline_free(s: Seq<u8>)
    ensures
        forall|j: int|
            0 <= j < split_lines(s).len() ==> newline_free(#[trigger] split_lines(s)[j]),
    decreases s.len(),
{
    if s.len() == 0 {
    } else if s[0] == NL {
        lemma_split_lines_newline_free(s.drop_first());
        let r = split_lines(s.drop_first());
        assert forall|j: int| 0 <= j < split_lines(s).len() implies newline_free(
            #[trigger] split_lines(s)[j],
        ) by {
            if j >= 1 {
                assert(split_lines(s)[j] == r[j - 1]);
            }
        }
    } else {
        lemma_split_lines_newline_free(s.drop_first());
        let r = split_lines(s.drop_first());
        lemma_split_lines_nonempty(s.drop_first());
        assert forall|j: int| 0 <= j < split_lines(s).len() implies newline_free(
            #[trigger] split_lines(s)[j],
        ) by {
            if j == 0 {
                assert(split_lines(s)[0] == seq![s[0]] + r[0]);
                assert(newline_free(r[0]));
                assert(forall|k: int|
                    1 <= k < (seq![s[0]] + r[0]).len() ==> (seq![s[0]] + r[0])[k] == r[0][k - 1]);
            } else {
                assert(split_lines(s)[j] == r.drop_first()[j - 1]);
                assert(r.drop_first()[j - 1] == r[j]);
            }
        }
    }
}

/// Splitting a join restores the lines, as long as each given line is a
/// line proper and there is at least one of them.
pub proof fn lemma_split_join(ls: Seq<Seq<u8>>)
    requires
        ls.len() >= 1,
        forall|j: int| 0 <= j < ls.len() ==> newline_free(#[trigger] ls[j]),
    ensures
        split_lines(join_lines(ls)) == ls,
    decreases ls.len(),
{
    if ls.len() == 1 {
        lemma_split_no_newline(ls[0]);
        assert(split_lines(join_lines(ls)) =~= ls);
    } else {
        let rest = ls.drop_first();
        assert(forall|j: int| 0 <= j < rest.len() ==> rest[j] == ls[j + 1]);
        lemma_split_join(rest);
        lemma_split_at_newline(ls[0], join_lines(rest));
        assert(split_lines(join_lines(ls)) =~= ls);
    }
}

/// The views of the line vectors, as a sequence of byte sequences.
pub open spec fn line_views(lines: Seq<Vec<u8>>) -> Seq<Seq<u8>> {
    Seq::new(lines.len(), |i: int| lines[i]@)
}

/// Splits `content` at every newline byte.
pub fn split_into_lines(content: &Vec<u8>) -> (lines: Vec<Vec<u8>>)
    ensures
        line_views(lines@) == split_lines(content@),
{
    let mut done: Vec<Vec<u8>> = Vec::new();
    let mut cur: Vec<u8> = Vec::new();
    let mut start: usize = 0;
    let mut i: usize = 0;
    proof {
        assert(line_views(done@) =~= Seq::<Seq<u8>>::empty());
        assert(content@.subrange(0, content@.len() as int) =~= content@);
        assert(cur@ =~= content@.subrange(0, 0));
    }
    while i < content.len()
        invariant
            0 <= start <= i <= content@.len(),
            cur@ == content@.subrange(start as int, i as int),
            forall|k: int| start <= k < i ==> content@[k] != NL,
            line_views(done@) + split_lines(content@.subrange(start as int, content@.len() as int))
                =~= split_lines(content@),
        decreases content@.len() - i,
    {
        if content[i] == NL {
            proof {
                let tail = content@.subrange(start as int, content@.len() as int);
                let next = content@.subrange(i + 1, content@.len() as int);
                assert(tail =~= cur@ + seq![NL] + next);
                lemma_split_at_newline(cur@, next);
                assert(line_views(done@.push(cur)) =~= line_views(done@) + seq![cur@]);
                assert(line_views(done@.push(cur)) + split_lines(next) =~= line_views(done@)
                    + split_lines(tail));
            }
            done.push(cur);
            cur = Vec::new();
            start = i + 1;
            proof {
                assert(cur@ =~= content@.subrange(start as int, start as int));
            }
        } else {
            cur.push(content[i]);
            proof {
                assert(content@.subrange(start as int, i as int) + seq![content@[i as int]]
                    =~= content@.subrange(start as int, i + 1));
            }
        }
        i += 1;
    }
    proof {
        let tail = content@.subrange(start as int, content@.len() as int);
        assert(tail =~= cur@);
        lemma_split_no_newline(cur@);
        assert(line_views(done@.push(cur)) =~= line_views(done@) + seq![cur@]);
        assert(line_views(done@.push(cur)) =~= split_lines(content@));
    }
    done.push(cur);
    done
}

/// Joins `lines` with a newline between each neighbouring pair.
pub fn join_into_text(lines: &Vec<Vec<u8>>) -> (out: Vec<u8>)
    ensures
        out@ == join_lines(line_views(lines@)),
{
    let mut out: Vec<u8> = Vec::new();
    if lines.len() == 0 {
        return out;
    }
    push_range(&mut out, &lines[0], 0, lines[0].len());
    proof {
        assert(lines@[0]@.subrange(0, lines@[0]@.len() as int) =~= lines@[0]@);
        assert(line_views(lines@).subrange(0, 1) =~= seq![lines@[0]@]);
        assert(join_lines(line_views(lines@).subrange(0, 1)) == lines@[0]@);
        assert(out@ =~= join_lines(line_views(lines@).subrange(0, 1)));
    }
    let mut i: usize = 1;
    while i < lines.len()
        invariant
            1 <= i <= lines@.len(),
            out@ == join_lines(line_views(lines@).subrange(0, i as int)),
        decreases lines@.len() - i,
    {
        out.push(NL);
        push_range(&mut out, &lines[i], 0, lines[i].len());
        proof {
            let views = line_views(lines@);
            let pre = views.subrange(0, i as int);
            assert(pre.len() >= 1);
            lemma_join_push(pre, views[i as int]);
            assert(pre.push(views[i as int]) =~= views.subrange(0, i + 1));
            assert(lines@[i as int]@.subrange(0, lines@[i as int]@.len() as int)
                =~= lines@[i as int]@);
            assert(out@ =~= join_lines(views.subrange(0, i + 1)));
        }
        i += 1;
    }
    proof {
        assert(line_views(lines@).subrange(0, lines@.len() as int) =~= line_views(lines@));
    }
    out
}

} // verus!
