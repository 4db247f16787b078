//! The placeholder matcher: given the placeholders extracted from a source
//! string and from a translation line, decides whether the translation is
//! missing a required placeholder.
//!
//! Equality of placeholder *counts* is the sole positive criterion; with
//! unequal counts, the first source placeholder that does not occur literally
//! in the translation is reported, unless the translation is one of the two
//! intentionally-empty forms.

use vstd::prelude::*;

use crate::patterns::found_in;
use crate::patterns::pattern_valid;
use crate::patterns::regex_find_all;
use crate::text::contains_str;
use crate::text::contains_sub;
use crate::text::str_eq;

verus! {

/// The two recognized intentionally-empty translation forms: a bare
/// `msgstr ""` line, or a bare `""` continuation line.
pub open spec fn is_empty_form(line: Seq<char>) -> bool {
    line == "msgstr \"\""@ || line == "\"\""@
}

/// The first placeholder at position `i` or later in `src` that does not
/// occur literally in `line`, if any.
pub open spec fn first_missing_from(src: Seq<Seq<char>>, line: Seq<char>, i: int) -> Option<
    Seq<char>,
>
    decreases src.len() - i,
{
    if i < 0 || i >= src.len() {
        None
    } else if !contains_sub(line, src[i]) {
        Some(src[i])
    } else {
        first_missing_from(src, line, i + 1)
    }
}

/// The matcher's outcome for a translation line: `None` means the line
/// matches its source; `Some(p)` means placeholder `p` is missing. `src`
/// holds the source string's placeholders in order of appearance, `tcount`
/// the number of placeholders found in the translation line.
pub open spec fn missing_placeholder(src: Seq<Seq<char>>, tcount: nat, line: Seq<char>) -> Option<
    Seq<char>,
> {
    if src.len() == tcount || is_empty_form(line) {
        None
    } else {
        first_missing_from(src, line, 0)
    }
}

/// The matcher on already-extracted placeholders: `src` are the source
/// string's placeholder occurrences in order, `tcount` is how many
/// placeholder occurrences the translation line has, and `line` is the
/// translation line's text. Returns the first missing placeholder, or `None`
/// for a match.
pub fn placeholder_outcome(src: &Vec<String>, tcount: usize, line: &str) -> (r: Option<String>)
    ensures
        r is Some <==> missing_placeholder(
            src@.map_values(|s: String| s@),
            tcount as nat,
            line@,
        ) is Some,
        r matches Some(p) ==> missing_placeholder(
            src@.map_values(|s: String| s@),
            tcount as nat,
            line@,
        ) == Some(p@),
{
    let ghost srcv = src@.map_values(|s: String| s@);
    if src.len() == tcount {
        return None;
    }
    if str_eq(line, "msgstr \"\"") || str_eq(line, "\"\"") {
        return None;
    }
    let mut i: usize = 0;
    while i < src.len()
        invariant
            srcv == src@.map_values(|s: String| s@),
            srcv.len() != tcount as nat,
            !is_empty_form(line@),
            i <= src.len(),
            first_missing_from(srcv, line@, 0) == first_missing_from(srcv, line@, i as int),
        decreases src.len() - i,
    {
        proof {
            assert(srcv[i as int] == src@[i as int]@);
        }
        if !contains_str(line, src[i].as_str()) {
            proof {
                assert(first_missing_from(srcv, line@, i as int) == Some(srcv[i as int]));
            }
            return Some(src[i].clone());
        }
        i = i + 1;
    }
    None
}

/// The full matcher of a source/translation pair: extracts the placeholder
/// occurrences of both texts with the compiled pattern and decides the
/// outcome. `None` means the translation matches; `Some(p)` names the first
/// missing placeholder.
pub fn check_pair(pattern: &str, msgid: &str, line: &str) -> (r: Option<String>)
    requires
        pattern_valid(pattern@),
    ensures
        r is Some <==> missing_placeholder(
            found_in(pattern@, msgid@),
            found_in(pattern@, line@).len(),
            line@,
        ) is Some,
        r matches Some(p) ==> missing_placeholder(
            found_in(pattern@, msgid@),
            found_in(pattern@, line@).len(),
            line@,
        ) == Some(p@),
{
    let src = regex_find_all(pattern, msgid);
    let trans = regex_find_all(pattern, line);
    proof {
        assert(trans@.map_values(|s: String| s@).len() == trans@.len());
    }
    placeholder_outcome(&src, trans.len(), line)
}

proof fn lemma_first_missing_none(src: Seq<Seq<char>>, line: Seq<char>, i: int)
    requires
        0 <= i,
        forall|j: int| i <= j < src.len() ==> contains_sub(line, #[trigger] src[j]),
    ensures
        first_missing_from(src, line, i) is None,
    decreases src.len() - i,
{
    if i < src.len() {
        lemma_first_missing_none(src, line, i + 1);
    }
}

proof fn lemma_first_missing_skip(src: Seq<Seq<char>>, line: Seq<char>, i: int, k: int)
    requires
        0 <= i <= k < src.len(),
        !contains_sub(line, src[k]),
        forall|j: int| i <= j < k ==> contains_sub(line, #[trigger] src[j]),
    ensures
        first_missing_from(src, line, i) == Some(src[k]),
    decreases k - i,
{
    if i < k {
        lemma_first_missing_skip(src, line, i + 1, k);
    }
}

/// Law: when the source and the translation have equally many placeholder
/// occurrences, the matcher reports a match, whatever the placeholders are.
pub proof fn lemma_equal_counts_match(src: Seq<Seq<char>>, tcount: nat, line: Seq<char>)
    requires
        src.len() == tcount,
    ensures
        missing_placeholder(src, tcount, line) is None,
{
}

/// Law: with unequal placeholder counts, if every source placeholder occurs
/// literally in the translation line, the matcher still reports a match.
pub proof fn lemma_all_contained_match(src: Seq<Seq<char>>, tcount: nat, line: Seq<char>)
    requires
        src.len() != tcount,
        forall|j: int| 0 <= j < src.len() ==> contains_sub(line, #[trigger] src[j]),
    ensures
        missing_placeholder(src, tcount, line) is None,
{
    lemma_first_missing_none(src, line, 0);
}

/// Law: with unequal placeholder counts, if the translation line is neither
/// `msgstr ""` nor `""` and `src[k]` is the first source placeholder absent
/// from the line, the matcher reports exactly that placeholder as missing.
pub proof fn lemma_first_absent_reported(
    src: Seq<Seq<char>>,
    tcount: nat,
    line: Seq<char>,
    k: int,
)
    requires
        src.len() != tcount,
        !is_empty_form(line),
        0 <= k < src.len(),
        !contains_sub(line, src[k]),
        forall|j: int| 0 <= j < k ==> contains_sub(line, #[trigger] src[j]),
    ensures
        missing_placeholder(src, tcount, line) == Some(src[k]),
{
    lemma_first_missing_skip(src, line, 0, k);
}

} // verus!
