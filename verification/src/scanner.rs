//! The catalog line scanner: walks the lines of one catalog file, tracks the
//! most recently seen `msgid` line, runs the placeholder matcher on every
//! `msgstr` or quoted continuation line, and collects one formatted error
//! report per failing line.

use vstd::prelude::*;

use crate::matcher::check_pair;
use crate::matcher::missing_placeholder;
use crate::patterns::found_in;
use crate::patterns::pattern_valid;
use crate::report::format_report;
use crate::report::report_text;
use crate::text::has_prefix;
use crate::text::starts_with_str;

verus! {

/// One mismatch found by the scanner: the 1-based line number, the msgid
/// text in effect at that line, and the offending line's text.
pub ghost struct Flag {
    pub idx: int,
    pub msgid: Seq<char>,
    pub line: Seq<char>,
}

/// A line that replaces the current msgid.
pub open spec fn is_msgid_line(line: Seq<char>) -> bool {
    has_prefix(line, "msgid"@)
}

/// A line the scanner checks against the current msgid: a `msgstr` line or
/// a quoted continuation line.
pub open spec fn is_checkable(line: Seq<char>) -> bool {
    has_prefix(line, "msgstr"@) || has_prefix(line, "\""@)
}

/// Whether the matcher reports a missing placeholder for `line` against the
/// source text `msgid` under `pat`.
pub open spec fn line_fails(pat: Seq<char>, msgid: Seq<char>, line: Seq<char>) -> bool {
    missing_placeholder(found_in(pat, msgid), found_in(pat, line).len(), line) is Some
}

/// The mismatches the scanner finds from line position `i` on, with `msgid`
/// as the current msgid.
pub open spec fn scan_from(pat: Seq<char>, lines: Seq<Seq<char>>, i: int, msgid: Seq<char>) -> Seq<
    Flag,
>
    decreases lines.len() - i,
{
    if i < 0 || i >= lines.len() {
        Seq::empty()
    } else if is_msgid_line(lines[i]) {
        scan_from(pat, lines, i + 1, lines[i])
    } else if is_checkable(lines[i]) && line_fails(pat, msgid, lines[i]) {
        seq![Flag { idx: i + 1, msgid: msgid, line: lines[i] }] + scan_from(
            pat,
            lines,
            i + 1,
            msgid,
        )
    } else {
        scan_from(pat, lines, i + 1, msgid)
    }
}

/// All mismatches of one catalog file, scanned from the first line with an
/// empty initial msgid.
pub open spec fn catalog_flags(pat: Seq<char>, lines: Seq<Seq<char>>) -> Seq<Flag> {
    scan_from(pat, lines, 0, Seq::empty())
}

/// The report text of one flag.
pub open spec fn flag_report(ctx: Seq<char>, path: Seq<char>, f: Flag) -> Seq<char> {
    report_text(ctx, path, f.idx as nat, f.msgid, f.line)
}

/// The report texts of a sequence of flags, in order.
pub open spec fn flag_reports(ctx: Seq<char>, path: Seq<char>, flags: Seq<Flag>) -> Seq<Seq<char>> {
    flags.map_values(|f: Flag| flag_report(ctx, path, f))
}

/// Scans the lines of one catalog file and returns the formatted error
/// reports of every mismatch, in line order. `ctx` is the progress-context
/// prefix carried into each report and `path` the file's path as shown in
/// the reports.
pub fn scan_lines(ctx: &str, path: &str, pattern: &str, lines: &Vec<String>) -> (r: Vec<String>)
    requires
        pattern_valid(pattern@),
    ensures
        r@.map_values(|s: String| s@) == flag_reports(
            ctx@,
            path@,
            catalog_flags(pattern@, lines@.map_values(|l: String| l@)),
        ),
{
    let ghost linesv = lines@.map_values(|l: String| l@);
    let mut msgid: String = String::new();
    let mut reports: Vec<String> = Vec::new();
    let mut i: usize = 0;
    while i < lines.len()
        invariant
            pattern_valid(pattern@),
            linesv == lines@.map_values(|l: String| l@),
            i <= lines.len(),
            flag_reports(ctx@, path@, catalog_flags(pattern@, linesv)) =~= reports@.map_values(
                |s: String| s@,
            ) + flag_reports(ctx@, path@, scan_from(pattern@, linesv, i as int, msgid@)),
        decreases lines.len() - i,
    {
        let line: &String = &lines[i];
        proof {
            assert(linesv[i as int] == lines@[i as int]@);
        }
        if starts_with_str(line.as_str(), "msgid") {
            msgid = line.clone();
        } else if starts_with_str(line.as_str(), "msgstr") || starts_with_str(line.as_str(), "\"")
        {
            let outcome = check_pair(pattern, msgid.as_str(), line.as_str());
            if outcome.is_some() {
                let ghost f = Flag { idx: i + 1, msgid: msgid@, line: linesv[i as int] };
                let rep = format_report(ctx, path, (i as u64) + 1, msgid.as_str(), line.as_str());
                proof {
                    assert(scan_from(pattern@, linesv, i as int, msgid@) =~= seq![f] + scan_from(
                        pattern@,
                        linesv,
                        i as int + 1,
                        msgid@,
                    ));
                    assert(flag_reports(
                        ctx@,
                        path@,
                        seq![f] + scan_from(pattern@, linesv, i as int + 1, msgid@),
                    ) =~= seq![rep@] + flag_reports(
                        ctx@,
                        path@,
                        scan_from(pattern@, linesv, i as int + 1, msgid@),
                    ));
                    assert(reports@.push(rep).map_values(|s: String| s@) =~= reports@.map_values(
                        |s: String| s@,
                    ) + seq![rep@]);
                }
                reports.push(rep);
            }
        }
        i = i + 1;
    }
    proof {
        assert(scan_from(pattern@, linesv, i as int, msgid@) =~= Seq::<Flag>::empty());
        assert(flag_reports(ctx@, path@, Seq::<Flag>::empty()) =~= Seq::<Seq<char>>::empty());
        assert(reports@.map_values(|s: String| s@) =~= reports@.map_values(|s: String| s@)
            + Seq::<Seq<char>>::empty());
    }
    reports
}

proof fn lemma_scan_from_indices(pat: Seq<char>, lines: Seq<Seq<char>>, i: int, msgid: Seq<char>)
    requires
        0 <= i,
    ensures
        forall|k: int|
            0 <= k < scan_from(pat, lines, i, msgid).len() ==> i + 1 <= (#[trigger] scan_from(
                pat,
                lines,
                i,
                msgid,
            )[k]).idx <= lines.len() && lines[scan_from(pat, lines, i, msgid)[k].idx - 1]
                == scan_from(pat, lines, i, msgid)[k].line,
    decreases lines.len() - i,
{
    let flags = scan_from(pat, lines, i, msgid);
    if i >= lines.len() {
        assert(flags =~= Seq::<Flag>::empty());
    } else if is_msgid_line(lines[i]) {
        lemma_scan_from_indices(pat, lines, i + 1, lines[i]);
        let rest = scan_from(pat, lines, i + 1, lines[i]);
        assert(flags == rest);
        assert forall|k: int|
            0 <= k < flags.len() implies i + 1 <= (#[trigger] flags[k]).idx <= lines.len()
            && lines[flags[k].idx - 1] == flags[k].line by {
            assert(flags[k] == rest[k]);
        }
    } else if is_checkable(lines[i]) && line_fails(pat, msgid, lines[i]) {
        lemma_scan_from_indices(pat, lines, i + 1, msgid);
        let f0 = Flag { idx: i + 1, msgid: msgid, line: lines[i] };
        let rest = scan_from(pat, lines, i + 1, msgid);
        assert(flags == seq![f0] + rest);
        assert forall|k: int|
            0 <= k < flags.len() implies i + 1 <= (#[trigger] flags[k]).idx <= lines.len()
            && lines[flags[k].idx - 1] == flags[k].line by {
            if k == 0 {
                assert(flags[0] == f0);
            } else {
                assert(flags[k] == rest[k - 1]);
            }
        }
    } else {
        lemma_scan_from_indices(pat, lines, i + 1, msgid);
        let rest = scan_from(pat, lines, i + 1, msgid);
        assert(flags == rest);
        assert forall|k: int|
            0 <= k < flags.len() implies i + 1 <= (#[trigger] flags[k]).idx <= lines.len()
            && lines[flags[k].idx - 1] == flags[k].line by {
            assert(flags[k] == rest[k]);
        }
    }
}

/// Law: line numbers in reports are 1-based and count every physical line,
/// `msgid` lines included: a flag produced for the line at position `k - 1`
/// of the file carries line number `k`, and names exactly that line's text.
pub proof fn lemma_report_line_indices(pat: Seq<char>, lines: Seq<Seq<char>>)
    ensures
        forall|k: int|
            0 <= k < catalog_flags(pat, lines).len() ==> 1 <= (#[trigger] catalog_flags(
                pat,
                lines,
            )[k]).idx <= lines.len() && lines[catalog_flags(pat, lines)[k].idx - 1]
                == catalog_flags(pat, lines)[k].line,
{
    lemma_scan_from_indices(pat, lines, 0, Seq::empty());
}

proof fn lemma_scan_from_monotone(pat: Seq<char>, lines: Seq<Seq<char>>, i: int, msgid: Seq<char>)
    requires
        0 <= i,
    ensures
        forall|k1: int, k2: int|
            0 <= k1 < k2 < scan_from(pat, lines, i, msgid).len() ==> (#[trigger] scan_from(
                pat,
                lines,
                i,
                msgid,
            )[k1]).idx < (#[trigger] scan_from(pat, lines, i, msgid)[k2]).idx,
    decreases lines.len() - i,
{
    let flags = scan_from(pat, lines, i, msgid);
    if i >= lines.len() {
        assert(flags =~= Seq::<Flag>::empty());
    } else if is_msgid_line(lines[i]) {
        lemma_scan_from_monotone(pat, lines, i + 1, lines[i]);
        let rest = scan_from(pat, lines, i + 1, lines[i]);
        assert forall|k1: int, k2: int|
            0 <= k1 < k2 < flags.len() implies (#[trigger] flags[k1]).idx
            < (#[trigger] flags[k2]).idx by {
            assert(flags[k1] == rest[k1] && flags[k2] == rest[k2]);
        }
    } else if is_checkable(lines[i]) && line_fails(pat, msgid, lines[i]) {
        lemma_scan_from_monotone(pat, lines, i + 1, msgid);
        lemma_scan_from_indices(pat, lines, i + 1, msgid);
        let f0 = Flag { idx: i + 1, msgid: msgid, line: lines[i] };
        let rest = scan_from(pat, lines, i + 1, msgid);
        assert(flags == seq![f0] + rest);
        assert forall|k1: int, k2: int|
            0 <= k1 < k2 < flags.len() implies (#[trigger] flags[k1]).idx
            < (#[trigger] flags[k2]).idx by {
            assert(flags[k2] == rest[k2 - 1]);
            if k1 == 0 {
                assert(flags[0] == f0);
            } else {
                assert(flags[k1] == rest[k1 - 1]);
            }
        }
    } else {
        lemma_scan_from_monotone(pat, lines, i + 1, msgid);
        let rest = scan_from(pat, lines, i + 1, msgid);
        assert forall|k1: int, k2: int|
            0 <= k1 < k2 < flags.len() implies (#[trigger] flags[k1]).idx
            < (#[trigger] flags[k2]).idx by {
            assert(flags[k1] == rest[k1] && flags[k2] == rest[k2]);
        }
    }
}

/// Law: report line numbers strictly increase along one file's report list,
/// so no line of the file is ever reported twice in one scan.
pub proof fn lemma_one_report_per_line(pat: Seq<char>, lines: Seq<Seq<char>>)
    ensures
        forall|k1: int, k2: int|
            0 <= k1 < k2 < catalog_flags(pat, lines).len() ==> (#[trigger] catalog_flags(
                pat,
                lines,
            )[k1]).idx < (#[trigger] catalog_flags(pat, lines)[k2]).idx,
{
    lemma_scan_from_monotone(pat, lines, 0, Seq::empty());
}

proof fn lemma_scan_quotes(pat: Seq<char>, lines: Seq<Seq<char>>, i: int, msgid: Seq<char>)
    requires
        0 <= i,
        forall|j: int| i <= j < lines.len() ==> has_prefix(#[trigger] lines[j], "\""@),
    ensures
        forall|k: int|
            0 <= k < scan_from(pat, lines, i, msgid).len() ==> (#[trigger] scan_from(
                pat,
                lines,
                i,
                msgid,
            )[k]).msgid == msgid,
        forall|j: int|
            i <= j < lines.len() ==> (line_fails(pat, msgid, #[trigger] lines[j]) <==> exists|k: int|
                0 <= k < scan_from(pat, lines, i, msgid).len() && (#[trigger] scan_from(
                    pat,
                    lines,
                    i,
                    msgid,
                )[k]).idx == j + 1),
    decreases lines.len() - i,
{
    reveal_strlit("\"");
    reveal_strlit("msgid");
    if i < lines.len() {
        assert(lines[i][0] == '"') by {
            assert(lines[i].subrange(0, "\""@.len() as int)[0] == lines[i][0]);
        }
        assert(!is_msgid_line(lines[i])) by {
            if is_msgid_line(lines[i]) {
                assert(lines[i].subrange(0, "msgid"@.len() as int)[0] == lines[i][0]);
            }
        }
        assert(is_checkable(lines[i]));
        lemma_scan_quotes(pat, lines, i + 1, msgid);
        lemma_scan_from_indices(pat, lines, i + 1, msgid);
        let flags = scan_from(pat, lines, i, msgid);
        let rest = scan_from(pat, lines, i + 1, msgid);
        if line_fails(pat, msgid, lines[i]) {
            let f0 = Flag { idx: i + 1, msgid: msgid, line: lines[i] };
            assert(flags == seq![f0] + rest);
            assert(flags[0] == f0);
            assert forall|j: int|
                i <= j < lines.len() implies (line_fails(pat, msgid, #[trigger] lines[j])
                <==> exists|k: int| 0 <= k < flags.len() && (#[trigger] flags[k]).idx == j + 1) by {
                if j == i {
                    assert(flags[0].idx == j + 1);
                } else {
                    if line_fails(pat, msgid, lines[j]) {
                        let k = choose|k: int| 0 <= k < rest.len() && (#[trigger] rest[k]).idx == j
                            + 1;
                        assert(flags[k + 1] == rest[k]);
                    }
                    if exists|k: int| 0 <= k < flags.len() && (#[trigger] flags[k]).idx == j + 1 {
                        let k = choose|k: int| 0 <= k < flags.len() && (#[trigger] flags[k]).idx
                            == j + 1;
                        assert(k > 0);
                        assert(rest[k - 1] == flags[k]);
                    }
                }
            }
        } else {
            assert(flags == rest);
            assert forall|j: int|
                i <= j < lines.len() implies (line_fails(pat, msgid, #[trigger] lines[j])
                <==> exists|k: int| 0 <= k < flags.len() && (#[trigger] flags[k]).idx == j + 1) by {
                if j == i {
                    if exists|k: int| 0 <= k < flags.len() && (#[trigger] flags[k]).idx == j + 1 {
                        let k = choose|k: int| 0 <= k < flags.len() && (#[trigger] flags[k]).idx
                            == j + 1;
                        assert(rest[k].idx >= i + 2);
                    }
                }
            }
        }
    }
}

/// Law: a multi-line translation — one `msgid` line followed only by quoted
/// continuation lines — yields one independent report per continuation line
/// that fails the check against that same msgid, at that line's own 1-based
/// line number, and no report for a continuation line that passes.
pub proof fn lemma_continuation_lines(pat: Seq<char>, first: Seq<char>, rest: Seq<Seq<char>>)
    requires
        is_msgid_line(first),
        forall|j: int| 0 <= j < rest.len() ==> has_prefix(#[trigger] rest[j], "\""@),
    ensures
        forall|k: int|
            0 <= k < catalog_flags(pat, seq![first] + rest).len() ==> (#[trigger] catalog_flags(
                pat,
                seq![first] + rest,
            )[k]).msgid == first,
        forall|j: int|
            0 <= j < rest.len() ==> (line_fails(pat, first, #[trigger] rest[j]) <==> exists|k: int|
                0 <= k < catalog_flags(pat, seq![first] + rest).len() && (#[trigger] catalog_flags(
                    pat,
                    seq![first] + rest,
                )[k]).idx == j + 2),
{
    let lines = seq![first] + rest;
    assert(lines[0] == first);
    assert forall|j: int| 1 <= j < lines.len() implies has_prefix(
        #[trigger] lines[j],
        "\""@,
    ) by {
        assert(lines[j] == rest[j - 1]);
    }
    lemma_scan_quotes(pat, lines, 1, first);
    assert(catalog_flags(pat, lines) == scan_from(pat, lines, 1, first));
    assert forall|j: int|
        0 <= j < rest.len() implies (line_fails(pat, first, #[trigger] rest[j]) <==> exists|k: int|
        0 <= k < catalog_flags(pat, lines).len() && (#[trigger] catalog_flags(pat, lines)[k]).idx
            == j + 2) by {
        assert(lines[j + 1] == rest[j]);
    }
}

} // verus!
