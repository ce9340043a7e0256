//! The instruction-file rewriter.
//!
//! Given the lines of an interactive-rebase instruction file, a target
//! reference and a marker, the rewriter takes the marker entry out of the
//! list, replaces its leading action token, and puts it back directly behind
//! the target line. A marker entry is a line that contains the marker and
//! does not already carry the new action token, so a rewritten file holds no
//! marker entry any more and a second pass reports that the marker is gone.

use vstd::prelude::*;

use crate::lines::join_into_text;
use crate::lines::join_lines;
use crate::lines::line_views;
use crate::lines::split_into_lines;
use crate::lines::split_lines;
use crate::text::SPACE;
use crate::text::bytes_eq;
use crate::text::contains_bytes;
use crate::text::contains_seq;
use crate::text::first_token;
use crate::text::first_token_bytes;
use crate::text::replace_action_token;
use crate::text::with_action_token;

verus! {

/// Why a rewrite was refused.
#[derive(Clone, Copy, Debug, PartialEq, Eq, Structural)]
pub enum RewriteError {
    /// No line contains the target reference.
    TargetNotFound,
    /// No line is a marker entry: none contains the marker without already
    /// carrying the new action token.
    MarkerNotFound,
}

/// The target line: any line whose text contains the target reference.
pub open spec fn is_target_line(line: Seq<u8>, target: Seq<u8>) -> bool {
    contains_seq(line, target)
}

/// A marker entry: a line whose text contains the marker and whose leading
/// action token is not yet `action`.
pub open spec fn is_marker_entry(line: Seq<u8>, marker: Seq<u8>, action: Seq<u8>) -> bool {
    contains_seq(line, marker) && first_token(line) != action
}

/// Index of the first target line, if any.
pub open spec fn target_index(lines: Seq<Seq<u8>>, target: Seq<u8>) -> Option<int>
    decreases lines.len(),
{
    if lines.len() == 0 {
        None
    } else if is_target_line(lines[0], target) {
        Some(0)
    } else {
        match target_index(lines.drop_first(), target) {
            None => None,
            Some(i) => Some(i + 1),
        }
    }
}

/// Index of the first marker entry, if any.
pub open spec fn marker_index(lines: Seq<Seq<u8>>, marker: Seq<u8>, action: Seq<u8>) -> Option<
    int,
>
    decreases lines.len(),
{
    if lines.len() == 0 {
        None
    } else if is_marker_entry(lines[0], marker, action) {
        Some(0)
    } else {
        match marker_index(lines.drop_first(), marker, action) {
            None => None,
            Some(i) => Some(i + 1),
        }
    }
}

/// `target_index` returns the least index of a target line, or `None` when
/// no line contains the target.
pub proof fn lemma_target_index(lines: Seq<Seq<u8>>, target: Seq<u8>)
    ensures
        match target_index(lines, target) {
            Some(i) => 0 <= i < lines.len() && is_target_line(lines[i], target) && (forall|k: int|
                0 <= k < i ==> !is_target_line(#[trigger] lines[k], target)),
            None => forall|k: int|
                0 <= k < lines.len() ==> !is_target_line(#[trigger] lines[k], target),
        },
    decreases lines.len(),
{
    if lines.len() == 0 {
    } else if is_target_line(lines[0], target) {
    } else {
        lemma_target_index(lines.drop_first(), target);
        assert(forall|k: int| 1 <= k < lines.len() ==> lines[k] == lines.drop_first()[k - 1]);
    }
}

/// `marker_index` returns the least index of a marker entry, or `None` when
/// no line is one.
pub proof fn lemma_marker_index(lines: Seq<Seq<u8>>, marker: Seq<u8>, action: Seq<u8>)
    ensures
        match marker_index(lines, marker, action) {
            Some(i) => 0 <= i < lines.len() && is_marker_entry(lines[i], marker, action) && (
            forall|k: int|
                0 <= k < i ==> !is_marker_entry(#[trigger] lines[k], marker, action)),
            None => forall|k: int|
                0 <= k < lines.len() ==> !is_marker_entry(#[trigger] lines[k], marker, action),
        },
    decreases lines.len(),
{
    if lines.len() == 0 {
    } else if is_marker_entry(lines[0], marker, action) {
    } else {
        lemma_marker_index(lines.drop_first(), marker, action);
        assert(forall|k: int| 1 <= k < lines.len() ==> lines[k] == lines.drop_first()[k - 1]);
    }
}

/// Where the rewritten entry lands: directly behind the target line as it
/// stands once the marker entry is taken out.
pub open spec fn relocation_index(t: int, m: int) -> int {
    if m <= t {
        t
    } else {
        t + 1
    }
}

/// The line list after the rewrite, for target line `t` and marker entry `m`:
/// the marker entry is taken out, its action token is replaced, and the new
/// line is put back directly behind the target line.
pub open spec fn relocated(lines: Seq<Seq<u8>>, t: int, m: int, action: Seq<u8>) -> Seq<Seq<u8>> {
    lines.remove(m).insert(relocation_index(t, m), with_action_token(lines[m], action))
}

/// The whole rewrite over a line list: locate, relocate, or refuse. The
/// target is looked for first, so a file missing both reports the target.
pub open spec fn rewrite_lines_spec(
    lines: Seq<Seq<u8>>,
    target: Seq<u8>,
    marker: Seq<u8>,
    action: Seq<u8>,
) -> Result<Seq<Seq<u8>>, RewriteError> {
    match target_index(lines, target) {
        None => Err(RewriteError::TargetNotFound),
        Some(t) => match marker_index(lines, marker, action) {
            None => Err(RewriteError::MarkerNotFound),
            Some(m) => Ok(relocated(lines, t, m, action)),
        },
    }
}

/// The whole rewrite over the file text: split, relocate, join.
pub open spec fn rewrite_spec(
    content: Seq<u8>,
    target: Seq<u8>,
    marker: Seq<u8>,
    action: Seq<u8>,
) -> Result<Seq<u8>, RewriteError> {
    match rewrite_lines_spec(split_lines(content), target, marker, action) {
        Ok(ls) => Ok(join_lines(ls)),
        Err(e) => Err(e),
    }
}

/// The canonical rewritten action token, `fold`.
pub open spec fn fold_action() -> Seq<u8> {
    seq![102u8, 111u8, 108u8, 100u8]
}

/// The canonical rewritten action token, `fold`, as bytes.
pub fn fold_action_bytes() -> (r: Vec<u8>)
    ensures
        r@ == fold_action(),
{
    let mut out: Vec<u8> = Vec::new();
    out.push(102);
    out.push(111);
    out.push(108);
    out.push(100);
    proof {
        assert(out@ =~= fold_action());
    }
    out
}

/// Index of the first line containing `target`, following `target_index`.
pub fn find_target_line(lines: &Vec<Vec<u8>>, target: &Vec<u8>) -> (r: Option<usize>)
    ensures
        match r {
            Some(i) => target_index(line_views(lines@), target@) == Some(i as int),
            None => target_index(line_views(lines@), target@) is None,
        },
{
    let mut i: usize = 0;
    while i < lines.len()
        invariant
            0 <= i <= lines@.len(),
            forall|k: int|
                0 <= k < i ==> !is_target_line(#[trigger] line_views(lines@)[k], target@),
        decreases lines@.len() - i,
    {
        if contains_bytes(&lines[i], target) {
            proof {
                assert(line_views(lines@)[i as int] == lines@[i as int]@);
                lemma_target_index(line_views(lines@), target@);
            }
            return Some(i);
        }
        proof {
            assert(line_views(lines@)[i as int] == lines@[i as int]@);
        }
        i += 1;
    }
    proof {
        lemma_target_index(line_views(lines@), target@);
    }
    None
}

/// Is this line a marker entry for `marker` and `action`?
fn is_marker_entry_line(line: &Vec<u8>, marker: &Vec<u8>, action: &Vec<u8>) -> (r: bool)
    ensures
        r == is_marker_entry(line@, marker@, action@),
{
    if !contains_bytes(line, marker) {
        return false;
    }
    let token = first_token_bytes(line);
    !bytes_eq(&token, action)
}

/// Index of the first marker entry, following `marker_index`.
pub fn find_marker_entry(lines: &Vec<Vec<u8>>, marker: &Vec<u8>, action: &Vec<u8>) -> (r: Option<
    usize,
>)
    ensures
        match r {
            Some(i) => marker_index(line_views(lines@), marker@, action@) == Some(i as int),
            None => marker_index(line_views(lines@), marker@, action@) is None,
        },
{
    let mut i: usize = 0;
    while i < lines.len()
        invariant
            0 <= i <= lines@.len(),
            forall|k: int|
                0 <= k < i ==> !is_marker_entry(
                    #[trigger] line_views(lines@)[k],
                    marker@,
                    action@,
                ),
        decreases lines@.len() - i,
    {
        if is_marker_entry_line(&lines[i], marker, action) {
            proof {
                assert(line_views(lines@)[i as int] == lines@[i as int]@);
                lemma_marker_index(line_views(lines@), marker@, action@);
            }
            return Some(i);
        }
        proof {
            assert(line_views(lines@)[i as int] == lines@[i as int]@);
        }
        i += 1;
    }
    proof {
        lemma_marker_index(line_views(lines@), marker@, action@);
    }
    None
}

/// A fresh copy of a line list.
fn copy_lines(lines: &Vec<Vec<u8>>) -> (r: Vec<Vec<u8>>)
    ensures
        line_views(r@) == line_views(lines@),
{
    let mut out: Vec<Vec<u8>> = Vec::new();
    let mut i: usize = 0;
    while i < lines.len()
        invariant
            0 <= i <= lines@.len(),
            out@.len() == i,
            forall|k: int| 0 <= k < i ==> #[trigger] out@[k]@ == lines@[k]@,
        decreases lines@.len() - i,
    {
        let c = crate::text::copy_bytes(&lines[i]);
        out.push(c);
        i += 1;
    }
    proof {
        assert(line_views(out@) =~= line_views(lines@));
    }
    out
}

/// Relocates the marker entry of `lines` behind the target line and replaces
/// its action token with `action`; refuses when the target or the marker is
/// not found, and says which.
pub fn rewrite_lines(
    lines: &Vec<Vec<u8>>,
    target: &Vec<u8>,
    marker: &Vec<u8>,
    action: &Vec<u8>,
) -> (r: Result<Vec<Vec<u8>>, RewriteError>)
    ensures
        match r {
            Ok(out) => rewrite_lines_spec(line_views(lines@), target@, marker@, action@)
                == Ok::<Seq<Seq<u8>>, RewriteError>(line_views(out@)),
            Err(e) => rewrite_lines_spec(line_views(lines@), target@, marker@, action@)
                == Err::<Seq<Seq<u8>>, RewriteError>(e),
        },
{
    let t: usize = match find_target_line(lines, target) {
        None => {
            return Err(RewriteError::TargetNotFound);
        },
        Some(t) => t,
    };
    let m: usize = match find_marker_entry(lines, marker, action) {
        None => {
            return Err(RewriteError::MarkerNotFound);
        },
        Some(m) => m,
    };
    proof {
        lemma_target_index(line_views(lines@), target@);
        lemma_marker_index(line_views(lines@), marker@, action@);
    }
    let new_line = replace_action_token(&lines[m], action);
    let mut out = copy_lines(lines);
    let ghost before = line_views(out@);
    let _ = out.remove(m);
    proof {
        assert(line_views(out@) =~= before.remove(m as int));
    }
    let pos: usize = if m <= t {
        t
    } else {
        t + 1
    };
    let ghost after_remove = line_views(out@);
    out.insert(pos, new_line);
    proof {
        assert(line_views(out@) =~= after_remove.insert(pos as int, new_line@));
        assert(line_views(out@) =~= relocated(line_views(lines@), t as int, m as int, action@));
    }
    Ok(out)
}

/// Rewrites the file text: splits it into lines, relocates the marker entry
/// behind the target line with its action token replaced by `action`, and
/// joins the lines back; refuses when the target or the marker is not found,
/// and says which.
pub fn rewrite_with_action(
    content: &Vec<u8>,
    target: &Vec<u8>,
    marker: &Vec<u8>,
    action: &Vec<u8>,
) -> (r: Result<Vec<u8>, RewriteError>)
    ensures
        match r {
            Ok(out) => rewrite_spec(content@, target@, marker@, action@) == Ok::<
                Seq<u8>,
                RewriteError,
            >(out@),
            Err(e) => rewrite_spec(content@, target@, marker@, action@) == Err::<
                Seq<u8>,
                RewriteError,
            >(e),
        },
{
    let lines = split_into_lines(content);
    match rewrite_lines(&lines, target, marker, action) {
        Ok(new_lines) => Ok(join_into_text(&new_lines)),
        Err(e) => Err(e),
    }
}

/// Rewrites the file text with the canonical `fold` action token.
pub fn rewrite(content: &Vec<u8>, target: &Vec<u8>, marker: &Vec<u8>) -> (r: Result<
    Vec<u8>,
    RewriteError,
>)
    ensures
        match r {
            Ok(out) => rewrite_spec(content@, target@, marker@, fold_action()) == Ok::<
                Seq<u8>,
                RewriteError,
            >(out@),
            Err(e) => rewrite_spec(content@, target@, marker@, fold_action()) == Err::<
                Seq<u8>,
                RewriteError,
            >(e),
        },
{
    let action = fold_action_bytes();
    rewrite_with_action(content, target, marker, &action)
}

} // verus!
