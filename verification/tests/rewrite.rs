use gitcli::rewrite::RewriteError;
use gitcli::rewrite::rewrite;
use gitcli::rewrite::rewrite_with_action;

fn b(s: &str) -> Vec<u8> {
    s.as_bytes().to_vec()
}

#[test]
fn scenario_marker_after_target() {
    let content = b("apply abc111 first\napply def222 second\napply ghi333 __marker__");
    let out = rewrite(&content, &b("def222"), &b("__marker__")).unwrap();
    assert_eq!(
        out,
        b("apply abc111 first\napply def222 second\nfold ghi333 __marker__")
    );
}

#[test]
fn target_missing_reports_not_found() {
    let content = b("apply abc111 first\napply ghi333 __marker__");
    let r = rewrite(&content, &b("zzz999"), &b("__marker__"));
    assert_eq!(r, Err(RewriteError::TargetNotFound));
    assert_eq!(content, b("apply abc111 first\napply ghi333 __marker__"));
}

#[test]
fn marker_missing_reports_not_found() {
    let content = b("apply abc111 first\napply def222 second");
    let r = rewrite(&content, &b("def222"), &b("__marker__"));
    assert_eq!(r, Err(RewriteError::MarkerNotFound));
}

#[test]
fn both_missing_reports_target_first() {
    let content = b("apply abc111 first");
    let r = rewrite(&content, &b("zzz999"), &b("__marker__"));
    assert_eq!(r, Err(RewriteError::TargetNotFound));
}

#[test]
fn empty_content_reports_target_not_found() {
    let r = rewrite(&b(""), &b("abc"), &b("__marker__"));
    assert_eq!(r, Err(RewriteError::TargetNotFound));
}

#[test]
fn line_count_is_preserved() {
    let content = b("apply a1 one\napply b2 two\napply c3 three\napply d4 __marker__");
    let out = rewrite(&content, &b("b2"), &b("__marker__")).unwrap();
    let lines: Vec<&[u8]> = out.split(|&c| c == b'\n').collect();
    assert_eq!(lines.len(), 4);
}

#[test]
fn action_token_rewritten_whatever_it_was() {
    let content = b("apply a1 one\nedit b2 __marker__");
    let out = rewrite(&content, &b("a1"), &b("__marker__")).unwrap();
    assert_eq!(out, b("apply a1 one\nfold b2 __marker__"));
}

#[test]
fn entry_content_after_token_is_preserved() {
    let content = b("apply a1 one\napply b2  spaced  subject __marker__");
    let out = rewrite(&content, &b("a1"), &b("__marker__")).unwrap();
    assert_eq!(out, b("apply a1 one\nfold b2  spaced  subject __marker__"));
}

#[test]
fn marker_before_target_lands_directly_behind_target() {
    let content = b("apply m0 __marker__\napply a1 one\napply b2 two\napply c3 three");
    let out = rewrite(&content, &b("b2"), &b("__marker__")).unwrap();
    assert_eq!(
        out,
        b("apply a1 one\napply b2 two\nfold m0 __marker__\napply c3 three")
    );
}

#[test]
fn marker_on_last_line_with_target_before_it() {
    let content = b("apply a1 one\napply m0 __marker__");
    let out = rewrite(&content, &b("a1"), &b("__marker__")).unwrap();
    assert_eq!(out, b("apply a1 one\nfold m0 __marker__"));
}

#[test]
fn rerun_on_output_reports_marker_gone() {
    let content = b("apply abc111 first\napply def222 second\napply ghi333 __marker__");
    let once = rewrite(&content, &b("def222"), &b("__marker__")).unwrap();
    let again = rewrite(&once, &b("def222"), &b("__marker__"));
    assert_eq!(again, Err(RewriteError::MarkerNotFound));
}

#[test]
fn first_matching_line_wins() {
    let content = b("apply a1 shared\napply b2 shared\napply c3 __marker__");
    let out = rewrite(&content, &b("shared"), &b("__marker__")).unwrap();
    assert_eq!(
        out,
        b("apply a1 shared\nfold c3 __marker__\napply b2 shared")
    );
}

#[test]
fn entry_already_folded_is_no_marker() {
    let content = b("fold x1 __marker__\napply a1 one\napply m2 __marker__");
    let out = rewrite(&content, &b("a1"), &b("__marker__")).unwrap();
    assert_eq!(
        out,
        b("fold x1 __marker__\napply a1 one\nfold m2 __marker__")
    );
}

#[test]
fn custom_action_token() {
    let content = b("pick 1a2b3c add parser\npick 4d5e6f _amend");
    let out = rewrite_with_action(&content, &b("1a2b3c"), &b("_amend"), &b("fixup")).unwrap();
    assert_eq!(out, b("pick 1a2b3c add parser\nfixup 4d5e6f _amend"));
}

#[test]
fn trailing_newline_is_kept() {
    let content = b("apply a1 one\napply m0 __marker__\n");
    let out = rewrite(&content, &b("a1"), &b("__marker__")).unwrap();
    assert_eq!(out, b("apply a1 one\nfold m0 __marker__\n"));
}
