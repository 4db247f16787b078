//! Tests of the scan coordinator's decision logic and of the verified text
//! primitives.

use po_check::coordinate::run_scan;
use po_check::coordinate::CatalogFile;
use po_check::coordinate::RunOutcome;
use po_check::text::contains_str;
use po_check::text::starts_with_str;
use po_check::text::str_eq;

const BRACES: &str = "\\{[^{}]*\\}";

fn file_of(path: &str, texts: &[&str]) -> CatalogFile {
    CatalogFile {
        path: path.to_string(),
        lines: texts.iter().map(|t| t.to_string()).collect(),
    }
}

#[test]
fn invalid_pattern_is_fatal_before_scanning() {
    let files = vec![file_of("a.po", &["msgid \"{x}\"", "msgstr \"no\""])];
    let r = run_scan("", "(", &files);
    assert_eq!(r.outcome, RunOutcome::InvalidPattern);
    assert!(r.reports.is_empty());
}

#[test]
fn no_files_is_a_discovery_error() {
    let files: Vec<CatalogFile> = Vec::new();
    let r = run_scan("", BRACES, &files);
    assert_eq!(r.outcome, RunOutcome::NoCatalogs);
    assert!(r.reports.is_empty());
}

#[test]
fn many_clean_files_succeed_in_any_order() {
    let a = file_of("a.po", &["msgid \"{x}\"", "msgstr \"ok {x}\""]);
    let b = file_of("b.po", &["msgid \"plain\"", "msgstr \"clean\""]);
    let c = file_of("c.po", &["# only a comment"]);
    let fwd = vec![a, b, c];
    let r = run_scan("", BRACES, &fwd);
    assert_eq!(r.outcome, RunOutcome::AllValid);
    assert!(r.reports.is_empty());
    let mut rev = fwd;
    rev.reverse();
    let r2 = run_scan("", BRACES, &rev);
    assert_eq!(r2.outcome, RunOutcome::AllValid);
}

#[test]
fn single_clean_file_succeeds() {
    let files = vec![file_of("one.po", &["msgid \"{x}\"", "msgstr \"{x}\""])];
    let r = run_scan("", BRACES, &files);
    assert_eq!(r.outcome, RunOutcome::AllValid);
}

#[test]
fn one_mismatch_fails_the_run_and_is_reported() {
    let files = vec![
        file_of("good.po", &["msgid \"{x}\"", "msgstr \"{x}\""]),
        file_of("bad.po", &["msgid \"{x}\"", "msgstr \"gone\""]),
    ];
    let r = run_scan("", BRACES, &files);
    assert_eq!(r.outcome, RunOutcome::MismatchesFound);
    assert_eq!(r.reports.len(), 1);
    assert!(r.reports[0].contains("bad.po:2\n"));
}

#[test]
fn reports_merge_in_file_order_and_line_order() {
    let files = vec![
        file_of("p.po", &["msgid \"{a}\"", "msgstr \"x\"", "msgstr \"y\""]),
        file_of("q.po", &["msgid \"{b}\"", "msgstr \"z\""]),
    ];
    let r = run_scan("", BRACES, &files);
    assert_eq!(r.outcome, RunOutcome::MismatchesFound);
    assert_eq!(r.reports.len(), 3);
    assert!(r.reports[0].contains("p.po:2\n"));
    assert!(r.reports[1].contains("p.po:3\n"));
    assert!(r.reports[2].contains("q.po:2\n"));
}

#[test]
fn text_primitives_behave_like_std() {
    assert!(starts_with_str("msgstr \"x\"", "msgstr"));
    assert!(starts_with_str("\"cont\"", "\""));
    assert!(!starts_with_str("msgid \"x\"", "msgstr"));
    assert!(starts_with_str("anything", ""));
    assert!(contains_str("msgstr \"Welcome {user}\"", "{user}"));
    assert!(!contains_str("msgstr \"Welcome\"", "{user}"));
    assert!(contains_str("abc", ""));
    assert!(str_eq("msgstr \"\"", "msgstr \"\""));
    assert!(!str_eq("msgstr \"\"", "\"\""));
}
