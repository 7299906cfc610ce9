use compyrs::build_filter_params;
use compyrs::complete;
use compyrs::decorate;
use compyrs::filter_and_display;
use compyrs::passes_filter;
use compyrs::str_eq;
use compyrs::str_starts_with;

fn strings(items: &[&str]) -> Vec<String> {
    items.iter().map(|s| s.to_string()).collect()
}

#[test]
fn str_helpers() {
    assert!(str_eq("abc", "abc"));
    assert!(!str_eq("abc", "abd"));
    assert!(!str_eq("abc", "ab"));
    assert!(str_eq("", ""));
    assert!(str_starts_with("abcdef", "abc"));
    assert!(str_starts_with("abc", ""));
    assert!(!str_starts_with("abc", "abcd"));
    assert!(!str_starts_with("abc", "b"));
}

#[test]
fn prefix_only_filter() {
    let params = build_filter_params(None, "ab", "", "").unwrap();
    let cands = strings(&["abc", "ab", "b", "abd", ""]);
    let out = filter_and_display(&cands, &params);
    assert_eq!(out, strings(&["abc", "ab", "abd"]));
}

#[test]
fn empty_prefix_keeps_all() {
    let params = build_filter_params(None, "", "", "").unwrap();
    let cands = strings(&["x", "", "yz"]);
    let out = filter_and_display(&cands, &params);
    assert_eq!(out, cands);
}

#[test]
fn glob_default_excludes_matches() {
    let params = build_filter_params(Some("*.txt"), "", "", "").unwrap();
    assert!(!params.keep_filter);
    let cands = strings(&["a.txt", "b.rs", "c.txt", "d.md"]);
    let out = filter_and_display(&cands, &params);
    assert_eq!(out, strings(&["b.rs", "d.md"]));
}

#[test]
fn negated_glob_keeps_matches() {
    let params = build_filter_params(Some("!*.txt"), "", "", "").unwrap();
    assert!(params.keep_filter);
    let cands = strings(&["a.txt", "b.rs", "c.txt", "d.md"]);
    let out = filter_and_display(&cands, &params);
    assert_eq!(out, strings(&["a.txt", "c.txt"]));
}

#[test]
fn filter_is_idempotent_on_its_output() {
    let params = build_filter_params(Some("*.txt"), "a", "", "").unwrap();
    let cands = strings(&["a.txt", "ab", "b.rs", "ac"]);
    let once = filter_and_display(&cands, &params);
    let twice = filter_and_display(&once, &params);
    assert_eq!(once, twice);
    assert_eq!(once, strings(&["ab", "ac"]));
}

#[test]
fn decoration_applies_prepend_and_append() {
    let params = build_filter_params(None, "", "<", ">").unwrap();
    assert_eq!(decorate(&params, "x"), "<x>".to_string());
    let cands = strings(&["a", "b"]);
    let out = filter_and_display(&cands, &params);
    assert_eq!(out, strings(&["<a>", "<b>"]));
}

#[test]
fn decorating_twice_is_additive() {
    let params = build_filter_params(None, "", "p", "s").unwrap();
    let once = decorate(&params, "x");
    let twice = decorate(&params, &once);
    assert_eq!(once, "pxs".to_string());
    assert_eq!(twice, "ppxss".to_string());
}

#[test]
fn passes_filter_agrees_with_pipeline() {
    let params = build_filter_params(Some("*o"), "f", "", "").unwrap();
    assert!(!passes_filter(&params, "foo"));
    assert!(passes_filter(&params, "fat"));
    assert!(!passes_filter(&params, "oat"));
}

#[test]
fn malformed_glob_is_fatal() {
    assert!(build_filter_params(Some("[unterminated"), "", "", "").is_none());
    let cands = strings(&["a", "b"]);
    assert!(complete(Some("[unterminated"), "", "", "", &cands).is_none());
}

#[test]
fn complete_runs_whole_pipeline() {
    let cands = strings(&["apple", "apricot", "banana", "avocado.txt"]);
    let out = complete(Some("*.txt"), "a", "[", "]", &cands).unwrap();
    assert_eq!(out, strings(&["[apple]", "[apricot]"]));
    let all = complete(None, "", "", "", &cands).unwrap();
    assert_eq!(all, cands);
}
