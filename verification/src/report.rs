//! Error-report formatting: a verified decimal rendering of line numbers and
//! the exact text of a mismatch report.

use vstd::prelude::*;
use vstd::string::StrSliceExecFns;
use vstd::string::StringExecFns;

verus! {

/// The decimal digit character for a value below ten.
pub open spec fn digit_char(d: nat) -> char {
    if d == 0 {
        '0'
    } else if d == 1 {
        '1'
    } else if d == 2 {
        '2'
    } else if d == 3 {
        '3'
    } else if d == 4 {
        '4'
    } else if d == 5 {
        '5'
    } else if d == 6 {
        '6'
    } else if d == 7 {
        '7'
    } else if d == 8 {
        '8'
    } else {
        '9'
    }
}

/// The decimal representation of `n`, most significant digit first, with no
/// leading zeros (a single `'0'` for zero).
pub open spec fn dec_rep(n: nat) -> Seq<char>
    decreases n,
{
    if n < 10 {
        seq![digit_char(n)]
    } else {
        dec_rep(n / 10).push(digit_char(n % 10))
    }
}

fn digit_str(d: u64) -> (r: &'static str)
    requires
        d < 10,
    ensures
        r@ == seq![digit_char(d as nat)],
{
    if d == 0 {
        proof {
            reveal_strlit("0");
            assert("0"@ =~= seq![digit_char(0)]);
        }
        "0"
    } else if d == 1 {
        proof {
            reveal_strlit("1");
            assert("1"@ =~= seq![digit_char(1)]);
        }
        "1"
    } else if d == 2 {
        proof {
            reveal_strlit("2");
            assert("2"@ =~= seq![digit_char(2)]);
        }
        "2"
    } else if d == 3 {
        proof {
            reveal_strlit("3");
            assert("3"@ =~= seq![digit_char(3)]);
        }
        "3"
    } else if d == 4 {
        proof {
            reveal_strlit("4");
            assert("4"@ =~= seq![digit_char(4)]);
        }
        "4"
    } else if d == 5 {
        proof {
            reveal_strlit("5");
            assert("5"@ =~= seq![digit_char(5)]);
        }
        "5"
    } else if d == 6 {
        proof {
            reveal_strlit("6");
            assert("6"@ =~= seq![digit_char(6)]);
        }
        "6"
    } else if d == 7 {
        proof {
            reveal_strlit("7");
            assert("7"@ =~= seq![digit_char(7)]);
        }
        "7"
    } else if d == 8 {
        proof {
            reveal_strlit("8");
            assert("8"@ =~= seq![digit_char(8)]);
        }
        "8"
    } else {
        proof {
            reveal_strlit("9");
            assert("9"@ =~= seq![digit_char(9)]);
        }
        "9"
    }
}

/// Renders `n` in decimal.
pub fn dec_str(n: u64) -> (r: String)
    ensures
        r@ == dec_rep(n as nat),
    decreases n,
{
    if n < 10 {
        String::from_str(digit_str(n))
    } else {
        let mut s = dec_str(n / 10);
        s.append(digit_str(n % 10));
        proof {
            assert(s@ =~= dec_rep(n as nat));
        }
        s
    }
}

/// The full text of one mismatch report: the progress-context prefix, a
/// red-highlighted header with file path and 1-based line number, then the
/// offending msgid text and translation line, each on an indented line.
pub open spec fn report_text(
    ctx: Seq<char>,
    path: Seq<char>,
    idx: nat,
    msgid: Seq<char>,
    line: Seq<char>,
) -> Seq<char> {
    ctx + "\x1b[31m[ERROR] Missing interpolation in "@ + path + ":"@ + dec_rep(idx) + "\n\t"@
        + msgid + "\n\t"@ + line + "\x1b[0m"@
}

/// Builds the report text for one mismatch.
pub fn format_report(ctx: &str, path: &str, idx: u64, msgid: &str, line: &str) -> (r: String)
    ensures
        r@ == report_text(ctx@, path@, idx as nat, msgid@, line@),
{
    let mut s = String::from_str(ctx);
    s.append("\x1b[31m[ERROR] Missing interpolation in ");
    s.append(path);
    s.append(":");
    let num = dec_str(idx);
    s.append(num.as_str());
    s.append("\n\t");
    s.append(msgid);
    s.append("\n\t");
    s.append(line);
    s.append("\x1b[0m");
    proof {
        assert(s@ =~= report_text(ctx@, path@, idx as nat, msgid@, line@));
    }
    s
}

} // verus!
