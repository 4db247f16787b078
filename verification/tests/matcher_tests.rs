//! Tests of the placeholder matcher on concrete source/translation pairs.

use po_check::matcher::check_pair;
use po_check::matcher::placeholder_outcome;

const BRACES: &str = "\\{[^{}]*\\}";

#[test]
fn equal_counts_match_regardless_of_identity() {
    // Both texts hold two placeholders; the identities differ, yet the
    // count-based criterion alone decides.
    let r = check_pair(
        BRACES,
        "msgid \"Hi {name}, you have {count} items\"",
        "msgstr \"{count} {name}\"",
    );
    assert_eq!(r, None);
}

#[test]
fn equal_counts_match_with_different_placeholders() {
    let r = check_pair(BRACES, "msgid \"{a} {b}\"", "msgstr \"{c} {d}\"");
    assert_eq!(r, None);
}

#[test]
fn unequal_counts_but_all_contained_match() {
    // Source has {a}{b}; the translation has three occurrences but contains
    // both source placeholders literally.
    let r = check_pair(BRACES, "msgid \"{a}{b}\"", "msgstr \"{a}{a}{b}\"");
    assert_eq!(r, None);
}

#[test]
fn empty_msgstr_is_accepted() {
    let r = check_pair(BRACES, "msgid \"Welcome {user}\"", "msgstr \"\"");
    assert_eq!(r, None);
}

#[test]
fn empty_continuation_is_accepted() {
    let r = check_pair(BRACES, "msgid \"Welcome {user}\"", "\"\"");
    assert_eq!(r, None);
}

#[test]
fn missing_placeholder_is_reported() {
    let r = check_pair(BRACES, "msgid \"Welcome {user}\"", "msgstr \"Welcome\"");
    assert_eq!(r, Some(String::from("{user}")));
}

#[test]
fn first_missing_placeholder_is_reported() {
    // {a} is contained, {b} is the first absent one, {c} is absent too.
    let r = check_pair(
        BRACES,
        "msgid \"{a} {b} {c}\"",
        "msgstr \"{a} and nothing else\"",
    );
    assert_eq!(r, Some(String::from("{b}")));
}

#[test]
fn greedy_default_style_pattern_spans_placeholders() {
    // With the greedy default-style pattern one match spans from the first
    // `{` to the last `}` of each text, so the counts agree and the pair
    // passes.
    let r = check_pair(
        po_check::coordinate::default_pattern(),
        "msgid \"Hi {name}, you have {count} items\"",
        "msgstr \"{count} stuks voor {name}\"",
    );
    assert_eq!(r, None);
}

#[test]
fn outcome_on_extracted_placeholders() {
    let src = vec![String::from("{a}"), String::from("{b}")];
    let r = placeholder_outcome(&src, 0, "msgstr \"only {a}\"");
    assert_eq!(r, Some(String::from("{b}")));
    let r2 = placeholder_outcome(&src, 2, "msgstr \"none at all\"");
    assert_eq!(r2, None);
    let r3 = placeholder_outcome(&src, 0, "msgstr \"\"");
    assert_eq!(r3, None);
}

#[test]
fn default_pattern_text_is_exact() {
    assert_eq!(po_check::coordinate::default_pattern(), "\\{\\{.*\\}\\}|\\{.*\\}");
}
