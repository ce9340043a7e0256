//! Byte-level primitives: searching for a byte, substring containment, and
//! splitting a line into its leading action token and the remainder.

use vstd::prelude::*;

verus! {

/// The line separator byte (`\n`).
pub const NL: u8 = 10;

/// The token separator byte (a space).
pub const SPACE: u8 = 32;

/// Index of the first occurrence of `b` in `s`, if any.
pub open spec fn find_byte(s: Seq<u8>, b: u8) -> Option<int>
    decreases s.len(),
{
    if s.len() == 0 {
        None
    } else if s[0] == b {
        Some(0)
    } else {
        match find_byte(s.drop_first(), b) {
            None => None,
            Some(i) => Some(i + 1),
        }
    }
}

/// `find_byte` returns the least index holding `b`, or `None` when `b` does
/// not occur at all.
pub proof fn lemma_find_byte(s: Seq<u8>, b: u8)
    ensures
        match find_byte(s, b) {
            Some(i) => 0 <= i < s.len() && s[i] == b && (forall|k: int| 0 <= k < i ==> s[k] != b),
            None => forall|k: int| 0 <= k < s.len() ==> s[k] != b,
        },
    decreases s.len(),
{
    if s.len() == 0 {
    } else if s[0] == b {
    } else {
        lemma_find_byte(s.drop_first(), b);
        assert(forall|k: int| 1 <= k < s.len() ==> s[k] == s.drop_first()[k - 1]);
    }
}

/// `needle` occurs as a contiguous run of bytes somewhere in `hay`.
pub open spec fn contains_seq(hay: Seq<u8>, needle: Seq<u8>) -> bool {
    exists|i: int|
        0 <= i && i + needle.len() <= hay.len() && #[trigger] hay.subrange(
            i,
            i + needle.len() as int,
        ) == needle
}

/// Does `needle` stand at position `pos` of `hay`?
fn match_at(hay: &Vec<u8>, needle: &Vec<u8>, pos: usize) -> (r: bool)
    requires
        pos + needle@.len() <= hay@.len(),
    ensures
        r == (hay@.subrange(pos as int, pos + needle@.len() as int) == needle@),
{
    let ghost piece = hay@.subrange(pos as int, pos + needle@.len() as int);
    let hlen: usize = hay.len();
    let mut j: usize = 0;
    while j < needle.len()
        invariant
            pos + needle@.len() <= hay@.len(),
            hay@.len() == hlen,
            0 <= j <= needle@.len(),
            piece == hay@.subrange(pos as int, pos + needle@.len() as int),
            forall|k: int| 0 <= k < j ==> hay@[pos + k] == needle@[k],
        decreases needle@.len() - j,
    {
        if hay[pos + j] != needle[j] {
            proof {
                assert(piece[j as int] == hay@[pos + j]);
                assert(piece != needle@);
            }
            return false;
        }
        j += 1;
    }
    proof {
        assert(piece =~= needle@);
    }
    true
}

/// Substring search; decides `contains_seq(hay@, needle@)`.
pub fn contains_bytes(hay: &Vec<u8>, needle: &Vec<u8>) -> (r: bool)
    ensures
        r == contains_seq(hay@, needle@),
{
    if needle.len() > hay.len() {
        return false;
    }
    if needle.len() == 0 {
        proof {
            assert(hay@.subrange(0, 0 + needle@.len() as int) =~= needle@);
        }
        return true;
    }
    let bound: usize = hay.len() - needle.len();
    let mut i: usize = 0;
    while i <= bound
        invariant
            1 <= needle@.len() <= hay@.len(),
            hay@.len() <= usize::MAX,
            bound == hay@.len() - needle@.len(),
            0 <= i <= bound + 1,
            forall|k: int|
                0 <= k < i ==> #[trigger] hay@.subrange(k, k + needle@.len() as int) != needle@,
        decreases bound + 1 - i,
    {
        if match_at(hay, needle, i) {
            return true;
        }
        i += 1;
    }
    proof {
        assert forall|k: int| 0 <= k && k + needle@.len() <= hay@.len() implies #[trigger] hay@.subrange(
            k,
            k + needle@.len() as int,
        ) != needle@ by {
            assert(k < i);
        }
    }
    false
}

/// The leading action token of a line: the bytes before the first space, or
/// the whole line when it holds no space.
pub open spec fn first_token(line: Seq<u8>) -> Seq<u8> {
    match find_byte(line, SPACE) {
        Some(i) => line.subrange(0, i),
        None => line,
    }
}

/// Everything from the first space on (the space included), or the empty
/// sequence when the line holds no space.
pub open spec fn after_token(line: Seq<u8>) -> Seq<u8> {
    match find_byte(line, SPACE) {
        Some(i) => line.subrange(i, line.len() as int),
        None => Seq::empty(),
    }
}

/// `line` with its leading action token replaced by `action`; the change
/// identifier and subject after the token are kept byte for byte.
pub open spec fn with_action_token(line: Seq<u8>, action: Seq<u8>) -> Seq<u8> {
    action + after_token(line)
}

/// Replacing the token and then reading it back gives `action`, and leaves
/// the rest of the line untouched, as long as `action` holds no space.
pub proof fn lemma_with_action_token(line: Seq<u8>, action: Seq<u8>)
    requires
        forall|k: int| 0 <= k < action.len() ==> action[k] != SPACE,
    ensures
        first_token(with_action_token(line, action)) == action,
        after_token(with_action_token(line, action)) == after_token(line),
{
    let new = with_action_token(line, action);
    lemma_find_byte(line, SPACE);
    lemma_find_byte(new, SPACE);
    match find_byte(line, SPACE) {
        Some(i) => {
            let alen = action.len() as int;
            assert(new[alen] == line[i]);
            match find_byte(new, SPACE) {
                Some(j) => {
                    assert(forall|k: int| 0 <= k < alen ==> new[k] == action[k]);
                    assert(j == alen);
                    assert(first_token(new) =~= action);
                    assert(after_token(new) =~= after_token(line));
                },
                None => {
                    assert(false);
                },
            }
        },
        None => {
            assert(new =~= action);
            match find_byte(new, SPACE) {
                Some(j) => {
                    assert(false);
                },
                None => {},
            }
        },
    }
}

/// Appends `src[from..to]` to `out`.
pub fn push_range(out: &mut Vec<u8>, src: &Vec<u8>, from: usize, to: usize)
    requires
        from <= to <= old(out)@.len() + src@.len(),
        to <= src@.len(),
    ensures
        final(out)@ == old(out)@ + src@.subrange(from as int, to as int),
{
    let mut j: usize = from;
    while j < to
        invariant
            from <= j <= to <= src@.len(),
            out@ == old(out)@ + src@.subrange(from as int, j as int),
        decreases to - j,
    {
        out.push(src[j]);
        proof {
            assert(old(out)@ + src@.subrange(from as int, j as int) + seq![src@[j as int]]
                =~= old(out)@ + src@.subrange(from as int, j + 1));
        }
        j += 1;
    }
    proof {
        assert(out@ =~= old(out)@ + src@.subrange(from as int, to as int));
    }
}

/// A fresh copy of a byte vector.
pub fn copy_bytes(src: &Vec<u8>) -> (r: Vec<u8>)
    ensures
        r@ == src@,
{
    let mut out: Vec<u8> = Vec::new();
    push_range(&mut out, src, 0, src.len());
    proof {
        assert(src@.subrange(0, src@.len() as int) =~= src@);
        assert(out@ =~= src@);
    }
    out
}

/// Byte-for-byte equality of two vectors.
pub fn bytes_eq(a: &Vec<u8>, b: &Vec<u8>) -> (r: bool)
    ensures
        r == (a@ == b@),
{
    if a.len() != b.len() {
        return false;
    }
    let mut j: usize = 0;
    while j < a.len()
        invariant
            a@.len() == b@.len(),
            0 <= j <= a@.len(),
            forall|k: int| 0 <= k < j ==> a@[k] == b@[k],
        decreases a@.len() - j,
    {
        if a[j] != b[j] {
            return false;
        }
        j += 1;
    }
    proof {
        assert(a@ =~= b@);
    }
    true
}

/// Index of the first space of `line`, following `find_byte`.
pub fn find_space(line: &Vec<u8>) -> (r: Option<usize>)
    ensures
        match r {
            Some(i) => find_byte(line@, SPACE) == Some(i as int),
            None => find_byte(line@, SPACE) is None,
        },
{
    let mut j: usize = 0;
    while j < line.len()
        invariant
            0 <= j <= line@.len(),
            forall|k: int| 0 <= k < j ==> line@[k] != SPACE,
        decreases line@.len() - j,
    {
        if line[j] == SPACE {
            proof {
                lemma_find_byte(line@, SPACE);
            }
            return Some(j);
        }
        j += 1;
    }
    proof {
        lemma_find_byte(line@, SPACE);
    }
    None
}

/// The leading action token of `line`, as a fresh vector.
pub fn first_token_bytes(line: &Vec<u8>) -> (r: Vec<u8>)
    ensures
        r@ == first_token(line@),
{
    let mut out: Vec<u8> = Vec::new();
    match find_space(line) {
        Some(i) => {
            proof {
                lemma_find_byte(line@, SPACE);
            }
            push_range(&mut out, line, 0, i);
        },
        None => {
            push_range(&mut out, line, 0, line.len());
            proof {
                assert(line@.subrange(0, line@.len() as int) =~= line@);
            }
        },
    }
    proof {
        assert(out@ =~= first_token(line@));
    }
    out
}

/// `line` with its leading action token replaced by `action`.
pub fn replace_action_token(line: &Vec<u8>, action: &Vec<u8>) -> (r: Vec<u8>)
    ensures
        r@ == with_action_token(line@, action@),
{
    let mut out = copy_bytes(action);
    match find_space(line) {
        Some(i) => {
            proof {
                lemma_find_byte(line@, SPACE);
            }
            push_range(&mut out, line, i, line.len());
        },
        None => {
        },
    }
    proof {
        assert(out@ =~= with_action_token(line@, action@));
    }
    out
}

} // verus!
