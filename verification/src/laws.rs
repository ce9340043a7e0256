//! Properties of the rewriter, stated and proved over the line model that
//! `rewrite_lines_spec` is defined on.

use vstd::prelude::*;

use crate::lines::join_lines;
use crate::lines::lemma_split_join;
use crate::lines::lemma_split_lines_newline_free;
use crate::lines::newline_free;
use crate::lines::split_lines;
use crate::rewrite::RewriteError;
use crate::rewrite::is_marker_entry;
use crate::rewrite::is_target_line;
use crate::rewrite::lemma_marker_index;
use crate::rewrite::lemma_target_index;
use crate::rewrite::marker_index;
use crate::rewrite::relocated;
use crate::rewrite::relocation_index;
use crate::rewrite::rewrite_lines_spec;
use crate::rewrite::rewrite_spec;
use crate::rewrite::target_index;
use crate::text::NL;
use crate::text::SPACE;
use crate::text::after_token;
use crate::text::contains_seq;
use crate::text::first_token;
use crate::text::lemma_with_action_token;
use crate::text::with_action_token;

verus! {

/// When a target line and a marker entry are found, the rewrite succeeds and
/// keeps the total line count of the file.
pub proof fn lemma_line_count_preserved(
    lines: Seq<Seq<u8>>,
    target: Seq<u8>,
    marker: Seq<u8>,
    action: Seq<u8>,
    t: int,
    m: int,
)
    requires
        target_index(lines, target) == Some(t),
        marker_index(lines, marker, action) == Some(m),
    ensures
        rewrite_lines_spec(lines, target, marker, action) == Ok::<Seq<Seq<u8>>, RewriteError>(
            relocated(lines, t, m, action),
        ),
        relocated(lines, t, m, action).len() == lines.len(),
{
    lemma_target_index(lines, target);
    lemma_marker_index(lines, marker, action);
}

/// When a target line and a marker entry are found in the file text, the
/// rewrite succeeds, and splitting the output text gives back exactly the
/// relocated line list, so every line-level property carries over to the
/// output text; `action` must be free of newlines.
pub proof fn lemma_rewritten_file_lines(
    content: Seq<u8>,
    target: Seq<u8>,
    marker: Seq<u8>,
    action: Seq<u8>,
    t: int,
    m: int,
)
    requires
        target_index(split_lines(content), target) == Some(t),
        marker_index(split_lines(content), marker, action) == Some(m),
        forall|k: int| 0 <= k < action.len() ==> action[k] != NL,
    ensures
        rewrite_spec(content, target, marker, action) == Ok::<Seq<u8>, RewriteError>(
            join_lines(relocated(split_lines(content), t, m, action)),
        ),
        split_lines(join_lines(relocated(split_lines(content), t, m, action))) == relocated(
            split_lines(content),
            t,
            m,
            action,
        ),
{
    let ll = split_lines(content);
    let out = relocated(ll, t, m, action);
    lemma_line_count_preserved(ll, target, marker, action, t, m);
    lemma_target_index(ll, target);
    lemma_marker_index(ll, marker, action);
    lemma_split_lines_newline_free(content);
    let new_line = with_action_token(ll[m], action);
    let removed = ll.remove(m);
    let pos: int = relocation_index(t, m);
    ll.remove_ensures(m);
    removed.insert_ensures(pos, new_line);
    assert(newline_free(new_line)) by {
        crate::text::lemma_find_byte(ll[m], SPACE);
        assert(newline_free(ll[m]));
        assert(forall|k: int|
            0 <= k < after_token(ll[m]).len() ==> after_token(ll[m])[k] != NL);
    }
    assert forall|j: int| 0 <= j < out.len() implies newline_free(#[trigger] out[j]) by {
        if j != pos {
            let orig = if j < pos {
                if j < m {
                    j
                } else {
                    j + 1
                }
            } else {
                if j - 1 < m {
                    j - 1
                } else {
                    j
                }
            };
            assert(0 <= orig < ll.len() && out[j] == ll[orig]);
        }
    }
    lemma_split_join(out);
}

/// When a target line and a marker entry are found in the file text, the
/// rewrite succeeds and the output text has exactly as many lines as the
/// input text; `action` must be free of newlines.
pub proof fn lemma_file_line_count_preserved(
    content: Seq<u8>,
    target: Seq<u8>,
    marker: Seq<u8>,
    action: Seq<u8>,
    t: int,
    m: int,
)
    requires
        target_index(split_lines(content), target) == Some(t),
        marker_index(split_lines(content), marker, action) == Some(m),
        forall|k: int| 0 <= k < action.len() ==> action[k] != NL,
    ensures
        rewrite_spec(content, target, marker, action) == Ok::<Seq<u8>, RewriteError>(
            join_lines(relocated(split_lines(content), t, m, action)),
        ),
        split_lines(join_lines(relocated(split_lines(content), t, m, action))).len()
            == split_lines(content).len(),
{
    lemma_rewritten_file_lines(content, target, marker, action, t, m);
    lemma_line_count_preserved(split_lines(content), target, marker, action, t, m);
}

/// The relocated entry's action token is exactly the requested one, whatever
/// token it carried before; `action` must itself be a token, free of spaces.
pub proof fn lemma_rewritten_entry_token(
    lines: Seq<Seq<u8>>,
    target: Seq<u8>,
    marker: Seq<u8>,
    action: Seq<u8>,
    t: int,
    m: int,
)
    requires
        target_index(lines, target) == Some(t),
        marker_index(lines, marker, action) == Some(m),
        forall|k: int| 0 <= k < action.len() ==> action[k] != SPACE,
    ensures
        first_token(relocated(lines, t, m, action)[relocation_index(t, m)]) == action,
{
    lemma_target_index(lines, target);
    lemma_marker_index(lines, marker, action);
    let removed = lines.remove(m);
    let pos: int = relocation_index(t, m);
    lines.remove_ensures(m);
    removed.insert_ensures(pos, with_action_token(lines[m], action));
    lemma_with_action_token(lines[m], action);
}

/// Everything of the relocated entry past its action token — the change
/// identifier and the subject — is kept byte for byte.
pub proof fn lemma_rewritten_entry_content(
    lines: Seq<Seq<u8>>,
    target: Seq<u8>,
    marker: Seq<u8>,
    action: Seq<u8>,
    t: int,
    m: int,
)
    requires
        target_index(lines, target) == Some(t),
        marker_index(lines, marker, action) == Some(m),
        forall|k: int| 0 <= k < action.len() ==> action[k] != SPACE,
    ensures
        after_token(relocated(lines, t, m, action)[relocation_index(t, m)]) == after_token(
            lines[m],
        ),
{
    lemma_target_index(lines, target);
    lemma_marker_index(lines, marker, action);
    let removed = lines.remove(m);
    let pos: int = relocation_index(t, m);
    lines.remove_ensures(m);
    removed.insert_ensures(pos, with_action_token(lines[m], action));
    lemma_with_action_token(lines[m], action);
}

/// When the marker entry stands before the target line, the rewritten entry
/// lands directly behind the target line, which itself moves up one place.
pub proof fn lemma_entry_follows_target(
    lines: Seq<Seq<u8>>,
    target: Seq<u8>,
    marker: Seq<u8>,
    action: Seq<u8>,
    t: int,
    m: int,
)
    requires
        target_index(lines, target) == Some(t),
        marker_index(lines, marker, action) == Some(m),
        m < t,
    ensures
        relocated(lines, t, m, action)[t - 1] == lines[t],
        relocated(lines, t, m, action)[t] == with_action_token(lines[m], action),
{
    lemma_target_index(lines, target);
    lemma_marker_index(lines, marker, action);
    let removed = lines.remove(m);
    lines.remove_ensures(m);
    removed.insert_ensures(t, with_action_token(lines[m], action));
}

/// When the marker entry stands behind the target line, the rewritten entry
/// lands directly behind the target line, which keeps its place.
pub proof fn lemma_entry_follows_target_from_behind(
    lines: Seq<Seq<u8>>,
    target: Seq<u8>,
    marker: Seq<u8>,
    action: Seq<u8>,
    t: int,
    m: int,
)
    requires
        target_index(lines, target) == Some(t),
        marker_index(lines, marker, action) == Some(m),
        m > t,
    ensures
        relocated(lines, t, m, action)[t] == lines[t],
        relocated(lines, t, m, action)[t + 1] == with_action_token(lines[m], action),
{
    lemma_target_index(lines, target);
    lemma_marker_index(lines, marker, action);
    let removed = lines.remove(m);
    lines.remove_ensures(m);
    removed.insert_ensures(t + 1, with_action_token(lines[m], action));
}

/// A rewrite consumes the marker entry: when the marker occurs in no other
/// line, a second pass over the output still finds the target but no marker
/// entry any more, and refuses with `MarkerNotFound`.
#[verifier::rlimit(50)]
pub proof fn lemma_rewrite_consumes_marker(
    lines: Seq<Seq<u8>>,
    target: Seq<u8>,
    marker: Seq<u8>,
    action: Seq<u8>,
    t: int,
    m: int,
)
    requires
        target_index(lines, target) == Some(t),
        marker_index(lines, marker, action) == Some(m),
        m != t,
        forall|k: int|
            0 <= k < lines.len() && k != m ==> !contains_seq(#[trigger] lines[k], marker),
        forall|k: int| 0 <= k < action.len() ==> action[k] != SPACE,
    ensures
        rewrite_lines_spec(relocated(lines, t, m, action), target, marker, action) == Err::<
            Seq<Seq<u8>>,
            RewriteError,
        >(RewriteError::MarkerNotFound),
{
    lemma_target_index(lines, target);
    lemma_marker_index(lines, marker, action);
    let new_line = with_action_token(lines[m], action);
    let removed = lines.remove(m);
    let pos: int = relocation_index(t, m);
    let out = relocated(lines, t, m, action);
    lines.remove_ensures(m);
    removed.insert_ensures(pos, new_line);
    lemma_with_action_token(lines[m], action);

    // The entry at `pos` already carries `action`; every other line of the
    // output is a line of the input other than the marker entry, and so does
    // not contain the marker at all.
    assert forall|j: int| 0 <= j < out.len() implies !is_marker_entry(
        #[trigger] out[j],
        marker,
        action,
    ) by {
        if j == pos {
            assert(out[j] == new_line);
            assert(first_token(out[j]) == action);
        } else {
            let orig = if j < pos {
                if j < m {
                    j
                } else {
                    j + 1
                }
            } else {
                if j - 1 < m {
                    j - 1
                } else {
                    j
                }
            };
            assert(0 <= orig < lines.len() && orig != m && out[j] == lines[orig]);
            assert(!contains_seq(out[j], marker));
        }
    }
    lemma_marker_index(out, marker, action);
    assert(marker_index(out, marker, action) is None);

    // The target line survives the relocation, one place up when the marker
    // entry stood before it.
    let tpos = if m < t {
        t - 1
    } else {
        t
    };
    assert(out[tpos] == lines[t]);
    assert(is_target_line(out[tpos], target));
    lemma_target_index(out, target);
    assert(target_index(out, target) is Some);
}

/// A rewrite of the file text consumes the marker entry: re-running the
/// rewrite on its own output with the same target reference still finds the
/// target but refuses with `MarkerNotFound`. This needs the marker to occur
/// in no line but the marker entry, and an `action` that is a token proper,
/// free of spaces and newlines.
pub proof fn lemma_file_rewrite_consumes_marker(
    content: Seq<u8>,
    target: Seq<u8>,
    marker: Seq<u8>,
    action: Seq<u8>,
    t: int,
    m: int,
)
    requires
        target_index(split_lines(content), target) == Some(t),
        marker_index(split_lines(content), marker, action) == Some(m),
        m != t,
        forall|k: int|
            0 <= k < split_lines(content).len() && k != m ==> !contains_seq(
                #[trigger] split_lines(content)[k],
                marker,
            ),
        forall|k: int| 0 <= k < action.len() ==> action[k] != SPACE,
        forall|k: int| 0 <= k < action.len() ==> action[k] != NL,
    ensures
        rewrite_spec(content, target, marker, action) == Ok::<Seq<u8>, RewriteError>(
            join_lines(relocated(split_lines(content), t, m, action)),
        ),
        rewrite_spec(
            join_lines(relocated(split_lines(content), t, m, action)),
            target,
            marker,
            action,
        ) == Err::<Seq<u8>, RewriteError>(RewriteError::MarkerNotFound),
{
    lemma_rewritten_file_lines(content, target, marker, action, t, m);
    lemma_rewrite_consumes_marker(split_lines(content), target, marker, action, t, m);
}

} // verus!
