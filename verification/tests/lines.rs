use gitcli::lines::join_into_text;
use gitcli::lines::split_into_lines;
use gitcli::text::bytes_eq;
use gitcli::text::contains_bytes;
use gitcli::text::first_token_bytes;
use gitcli::text::replace_action_token;

fn b(s: &str) -> Vec<u8> {
    s.as_bytes().to_vec()
}

#[test]
fn split_empty_text_is_one_empty_line() {
    let lines = split_into_lines(&b(""));
    assert_eq!(lines, vec![b("")]);
}

#[test]
fn split_keeps_trailing_empty_line() {
    let lines = split_into_lines(&b("one\ntwo\n"));
    assert_eq!(lines, vec![b("one"), b("two"), b("")]);
}

#[test]
fn split_then_join_restores_text() {
    let texts = ["", "one", "one\ntwo", "one\ntwo\n", "\n\n", "a\n\nb"];
    for t in texts {
        let joined = join_into_text(&split_into_lines(&b(t)));
        assert_eq!(joined, b(t));
    }
}

#[test]
fn contains_finds_runs_of_bytes() {
    assert!(contains_bytes(&b("pick abc123 subject"), &b("abc123")));
    assert!(contains_bytes(&b("pick abc123 subject"), &b("")));
    assert!(!contains_bytes(&b("pick abc123 subject"), &b("abc124")));
    assert!(!contains_bytes(&b("ab"), &b("abc")));
}

#[test]
fn first_token_stops_at_first_space() {
    assert_eq!(first_token_bytes(&b("pick abc subject")), b("pick"));
    assert_eq!(first_token_bytes(&b("lonely")), b("lonely"));
    assert_eq!(first_token_bytes(&b(" leading")), b(""));
}

#[test]
fn replace_token_keeps_the_rest() {
    assert_eq!(
        replace_action_token(&b("pick abc subject"), &b("fixup")),
        b("fixup abc subject")
    );
    assert_eq!(replace_action_token(&b("lonely"), &b("fixup")), b("fixup"));
}

#[test]
fn bytes_eq_is_exact() {
    assert!(bytes_eq(&b("abc"), &b("abc")));
    assert!(!bytes_eq(&b("abc"), &b("abd")));
    assert!(!bytes_eq(&b("abc"), &b("ab")));
}
