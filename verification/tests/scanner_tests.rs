//! Tests of the catalog line scanner: msgid tracking, 1-based line numbers,
//! continuation lines and the exact report format.

use po_check::report::format_report;
use po_check::scanner::scan_lines;

const BRACES: &str = "\\{[^{}]*\\}";

fn lines_of(texts: &[&str]) -> Vec<String> {
    texts.iter().map(|t| t.to_string()).collect()
}

#[test]
fn clean_file_yields_no_reports() {
    let lines = lines_of(&[
        "# a comment",
        "msgid \"Welcome {user}\"",
        "msgstr \"Welkom {user}\"",
    ]);
    let r = scan_lines("", "nl.po", BRACES, &lines);
    assert!(r.is_empty());
}

#[test]
fn mismatch_report_has_exact_text() {
    let lines = lines_of(&["msgid \"Welcome {user}\"", "msgstr \"Welkom\""]);
    let r = scan_lines("", "nl.po", BRACES, &lines);
    assert_eq!(r.len(), 1);
    assert_eq!(
        r[0],
        "\x1b[31m[ERROR] Missing interpolation in nl.po:2\n\tmsgid \"Welcome {user}\"\n\tmsgstr \"Welkom\"\x1b[0m"
    );
}

#[test]
fn context_prefix_is_carried_into_reports() {
    let lines = lines_of(&["msgid \"{x}\"", "msgstr \"nope\""]);
    let r = scan_lines("3/7 ", "de.po", BRACES, &lines);
    assert_eq!(r.len(), 1);
    assert!(r[0].starts_with("3/7 \x1b[31m[ERROR] Missing interpolation in de.po:2"));
}

#[test]
fn line_numbers_are_one_based_and_count_every_line() {
    // Comment, blank and msgid lines all advance the counter.
    let lines = lines_of(&[
        "# comment",
        "",
        "msgid \"{x}\"",
        "msgstr \"nope\"",
    ]);
    let r = scan_lines("", "a.po", BRACES, &lines);
    assert_eq!(r.len(), 1);
    assert!(r[0].contains("a.po:4\n"));
}

#[test]
fn each_failing_continuation_line_gets_its_own_report() {
    // One msgstr and two continuation lines that each individually fail the
    // check against the same msgid; the passing continuation line gets none.
    let lines = lines_of(&[
        "msgid \"Hello {name}\"",
        "msgstr \"\"",
        "\"first part\"",
        "\"second part\"",
        "\"has {name} though\"",
    ]);
    let r = scan_lines("", "multi.po", BRACES, &lines);
    assert_eq!(r.len(), 2);
    assert!(r[0].contains("multi.po:3\n"));
    assert!(r[0].contains("\n\tmsgid \"Hello {name}\"\n\t\"first part\""));
    assert!(r[1].contains("multi.po:4\n"));
    assert!(r[1].contains("\n\tmsgid \"Hello {name}\"\n\t\"second part\""));
}

#[test]
fn msgid_lines_update_the_current_msgid() {
    let lines = lines_of(&[
        "msgid \"{a}\"",
        "msgstr \"{a}\"",
        "msgid \"{b}\"",
        "msgstr \"missing\"",
    ]);
    let r = scan_lines("", "b.po", BRACES, &lines);
    assert_eq!(r.len(), 1);
    assert!(r[0].contains("b.po:4\n"));
    assert!(r[0].contains("\n\tmsgid \"{b}\"\n\t"));
}

#[test]
fn other_lines_are_ignored_without_state_change() {
    let lines = lines_of(&[
        "msgid \"{a}\"",
        "#~ some obsolete entry",
        "msgstr \"still checked against {a}\"",
    ]);
    let r = scan_lines("", "c.po", BRACES, &lines);
    assert!(r.is_empty());
}

#[test]
fn translation_before_any_msgid_is_checked_against_empty() {
    // The initial msgid is empty: zero source placeholders, so any
    // translation line has equal or greater count and never fails.
    let lines = lines_of(&["msgstr \"stray {x}\""]);
    let r = scan_lines("", "d.po", BRACES, &lines);
    assert!(r.is_empty());
}

#[test]
fn report_formatting_renders_line_number_in_decimal() {
    let s = format_report("ctx ", "p.po", 12045, "msgid \"{q}\"", "msgstr \"x\"");
    assert_eq!(
        s,
        "ctx \x1b[31m[ERROR] Missing interpolation in p.po:12045\n\tmsgid \"{q}\"\n\tmsgstr \"x\"\x1b[0m"
    );
}
