//! The scan coordinator's decision logic: runs the scanner over every
//! discovered catalog file, merges the per-file reports in the given order,
//! and decides the run's outcome.

use vstd::prelude::*;

use crate::patterns::pattern_valid;
use crate::patterns::regex_pattern_ok;
use crate::scanner::catalog_flags;
use crate::scanner::flag_reports;
use crate::scanner::scan_lines;

verus! {

/// One discovered catalog file, as plain values: its path and its lines.
pub struct CatalogFile {
    pub path: String,
    pub lines: Vec<String>,
}

/// The outcome of a whole run.
#[derive(Clone, Copy, Debug, PartialEq, Eq, Structural)]
pub enum RunOutcome {
    /// The pattern text does not compile as a regular expression.
    InvalidPattern,
    /// No catalog files were found.
    NoCatalogs,
    /// At least one mismatch report was produced.
    MismatchesFound,
    /// Files were found and every translation line passed the check.
    AllValid,
}

/// The outcome of a run together with all merged mismatch reports.
pub struct RunResult {
    pub outcome: RunOutcome,
    pub reports: Vec<String>,
}

/// The reports of one catalog file under pattern `pat` with context `ctx`.
pub open spec fn file_reports(ctx: Seq<char>, pat: Seq<char>, f: CatalogFile) -> Seq<Seq<char>> {
    flag_reports(ctx, f.path@, catalog_flags(pat, f.lines@.map_values(|l: String| l@)))
}

/// The merged reports of `files[i..]`, per-file order preserved.
pub open spec fn reports_from(
    ctx: Seq<char>,
    pat: Seq<char>,
    files: Seq<CatalogFile>,
    i: int,
) -> Seq<Seq<char>>
    decreases files.len() - i,
{
    if i < 0 || i >= files.len() {
        Seq::empty()
    } else {
        file_reports(ctx, pat, files[i]) + reports_from(ctx, pat, files, i + 1)
    }
}

/// The merged reports of all files, in the given file order.
pub open spec fn all_reports(ctx: Seq<char>, pat: Seq<char>, files: Seq<CatalogFile>) -> Seq<
    Seq<char>,
> {
    reports_from(ctx, pat, files, 0)
}

/// A file scans clean: no line of it is flagged under `pat`.
pub open spec fn file_clean(pat: Seq<char>, f: CatalogFile) -> bool {
    catalog_flags(pat, f.lines@.map_values(|l: String| l@)).len() == 0
}

/// Every file of the run scans clean.
pub open spec fn all_clean(pat: Seq<char>, files: Seq<CatalogFile>) -> bool {
    forall|j: int| 0 <= j < files.len() ==> file_clean(pat, #[trigger] files[j])
}

proof fn lemma_reports_from_len(ctx: Seq<char>, pat: Seq<char>, files: Seq<CatalogFile>, i: int)
    requires
        0 <= i,
    ensures
        reports_from(ctx, pat, files, i).len() == 0 <==> forall|j: int|
            i <= j < files.len() ==> file_clean(pat, #[trigger] files[j]),
    decreases files.len() - i,
{
    if i < files.len() {
        lemma_reports_from_len(ctx, pat, files, i + 1);
        assert(file_reports(ctx, pat, files[i]).len() == catalog_flags(
            pat,
            files[i].lines@.map_values(|l: String| l@),
        ).len());
    }
}

/// The default placeholder pattern: matches `{{...}}` or `{...}` greedily.
pub fn default_pattern() -> (r: &'static str)
    ensures
        r@ == "\\{\\{.*\\}\\}|\\{.*\\}"@,
{
    "\\{\\{.*\\}\\}|\\{.*\\}"
}

/// Runs the check over every discovered catalog file: an invalid pattern is
/// rejected before anything is scanned, an empty file list is the
/// no-catalogs outcome, and otherwise the per-file reports are merged in the
/// given order and the run fails exactly when some report was produced.
pub fn run_scan(ctx: &str, pattern: &str, files: &Vec<CatalogFile>) -> (r: RunResult)
    ensures
        r.outcome is InvalidPattern <==> !pattern_valid(pattern@),
        pattern_valid(pattern@) ==> (r.outcome is NoCatalogs <==> files@.len() == 0),
        pattern_valid(pattern@) && files@.len() > 0 ==> r.reports@.map_values(|s: String| s@)
            == all_reports(ctx@, pattern@, files@),
        pattern_valid(pattern@) && files@.len() > 0 ==> (r.outcome is MismatchesFound <==> all_reports(
            ctx@,
            pattern@,
            files@,
        ).len() > 0),
        r.outcome is AllValid <==> pattern_valid(pattern@) && files@.len() > 0 && all_clean(
            pattern@,
            files@,
        ),
        r.outcome is InvalidPattern || r.outcome is NoCatalogs ==> r.reports@.len() == 0,
{
    if !regex_pattern_ok(pattern) {
        return RunResult { outcome: RunOutcome::InvalidPattern, reports: Vec::new() };
    }
    if files.len() == 0 {
        return RunResult { outcome: RunOutcome::NoCatalogs, reports: Vec::new() };
    }
    let mut reports: Vec<String> = Vec::new();
    let mut i: usize = 0;
    while i < files.len()
        invariant
            pattern_valid(pattern@),
            i <= files.len(),
            all_reports(ctx@, pattern@, files@) =~= reports@.map_values(|s: String| s@)
                + reports_from(ctx@, pattern@, files@, i as int),
        decreases files.len() - i,
    {
        let file: &CatalogFile = &files[i];
        let mut file_reps = scan_lines(ctx, file.path.as_str(), pattern, &file.lines);
        proof {
            assert(files@[i as int] == *file);
            assert(file_reps@.map_values(|s: String| s@) == file_reports(
                ctx@,
                pattern@,
                files@[i as int],
            ));
            assert((reports@ + file_reps@).map_values(|s: String| s@) =~= reports@.map_values(
                |s: String| s@,
            ) + file_reps@.map_values(|s: String| s@));
        }
        reports.append(&mut file_reps);
        i = i + 1;
    }
    proof {
        lemma_reports_from_len(ctx@, pattern@, files@, 0);
        assert(reports@.map_values(|s: String| s@) =~= all_reports(ctx@, pattern@, files@));
        assert(reports@.map_values(|s: String| s@).len() == reports@.len());
    }
    if reports.len() > 0 {
        RunResult { outcome: RunOutcome::MismatchesFound, reports }
    } else {
        RunResult { outcome: RunOutcome::AllValid, reports }
    }
}

/// Law: a run over at least one valid catalog file with no mismatches
/// succeeds regardless of how many files there are; and whether any report
/// at all is produced does not depend on the order in which the files are
/// listed.
pub proof fn lemma_outcome_order_independent(
    ctx: Seq<char>,
    pat: Seq<char>,
    a: Seq<CatalogFile>,
    b: Seq<CatalogFile>,
)
    requires
        a.to_multiset() == b.to_multiset(),
    ensures
        a.len() == b.len(),
        (all_reports(ctx, pat, a).len() == 0) == (all_reports(ctx, pat, b).len() == 0),
{
    broadcast use vstd::seq_lib::group_to_multiset_ensures;

    assert(a.len() == a.to_multiset().len());
    assert(b.len() == b.to_multiset().len());
    lemma_reports_from_len(ctx, pat, a, 0);
    lemma_reports_from_len(ctx, pat, b, 0);
    assert(all_clean(pat, a) == all_clean(pat, b)) by {
        if all_clean(pat, a) {
            assert forall|j: int| 0 <= j < b.len() implies file_clean(pat, #[trigger] b[j]) by {
                assert(b.contains(b[j]));
                assert(b.to_multiset().count(b[j]) > 0);
                assert(a.to_multiset().count(b[j]) > 0);
                assert(a.contains(b[j]));
                let k = choose|k: int| 0 <= k < a.len() && a[k] == b[j];
                assert(file_clean(pat, a[k]));
            }
        }
        if all_clean(pat, b) {
            assert forall|j: int| 0 <= j < a.len() implies file_clean(pat, #[trigger] a[j]) by {
                assert(a.contains(a[j]));
                assert(a.to_multiset().count(a[j]) > 0);
                assert(b.to_multiset().count(a[j]) > 0);
                assert(b.contains(a[j]));
                let k = choose|k: int| 0 <= k < b.len() && b[k] == a[j];
                assert(file_clean(pat, b[k]));
            }
        }
    }
}

} // verus!
