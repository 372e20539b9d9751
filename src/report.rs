//! The human-readable run report: the totals of a run between fixed
//! markers, and reading them back.

use crate::common::FlowResults;
use crate::text::{append_decimal, decimal, digit_char};
use vstd::prelude::*;
use vstd::string::StringExecFns;

verus! {

/// Numeric value of a decimal digit character.
pub open spec fn digit_value(c: char) -> nat {
    if c == '0' {
        0
    } else if c == '1' {
        1
    } else if c == '2' {
        2
    } else if c == '3' {
        3
    } else if c == '4' {
        4
    } else if c == '5' {
        5
    } else if c == '6' {
        6
    } else if c == '7' {
        7
    } else if c == '8' {
        8
    } else {
        9
    }
}

pub open spec fn is_digit(c: char) -> bool {
    c == '0' || c == '1' || c == '2' || c == '3' || c == '4' || c == '5' || c == '6' || c == '7'
        || c == '8' || c == '9'
}

/// Value of a string of decimal digits.
pub open spec fn dec_value(s: Seq<char>) -> nat
    decreases s.len(),
{
    if s.len() == 0 {
        0
    } else {
        dec_value(s.drop_last()) * 10 + digit_value(s.last())
    }
}

/// Number of consecutive digits of `s` from `pos` on.
pub open spec fn digits_from(s: Seq<char>, pos: int) -> nat
    decreases s.len() - pos,
{
    if pos < 0 || pos >= s.len() || !is_digit(s[pos]) {
        0
    } else {
        1 + digits_from(s, pos + 1)
    }
}

proof fn lemma_decimal_digits(n: nat)
    ensures
        dec_value(decimal(n)) == n,
        decimal(n).len() >= 1,
        forall|k: int| 0 <= k < decimal(n).len() ==> is_digit(#[trigger] decimal(n)[k]),
        forall|k: int| 0 <= k <= decimal(n).len() ==> dec_value(#[trigger] decimal(n).take(k)) <= n,
    decreases n,
{
    if n < 10 {
        assert(decimal(n).drop_last() =~= Seq::<char>::empty());
        assert(dec_value(Seq::<char>::empty()) == 0);
        assert(digit_value(digit_char(n)) == n);
        assert(dec_value(decimal(n)) == n);
        assert forall|k: int| 0 <= k <= decimal(n).len() implies dec_value(
            #[trigger] decimal(n).take(k),
        ) <= n by {
            if k == 0 {
                assert(decimal(n).take(k) =~= Seq::<char>::empty());
            } else {
                assert(decimal(n).take(k) =~= decimal(n));
            }
        }
    } else {
        let p = decimal(n / 10);
        lemma_decimal_digits(n / 10);
        assert(decimal(n).drop_last() =~= p);
        assert forall|k: int| 0 <= k <= decimal(n).len() implies dec_value(
            #[trigger] decimal(n).take(k),
        ) <= n by {
            if k < decimal(n).len() {
                assert(decimal(n).take(k) =~= p.take(k));
            } else {
                assert(decimal(n).take(k) =~= decimal(n));
            }
        }
    }
}

/// In a text that holds `decimal(n)` at `pos` followed by a non-digit, the
/// digit run at `pos` is exactly `decimal(n)`.
proof fn lemma_digit_run(s: Seq<char>, pos: int, n: nat)
    requires
        0 <= pos,
        pos + decimal(n).len() < s.len(),
        s.subrange(pos, pos + decimal(n).len()) == decimal(n),
        !is_digit(s[pos + decimal(n).len()]),
    ensures
        digits_from(s, pos) == decimal(n).len(),
    decreases decimal(n).len(),
{
    lemma_decimal_digits(n);
    assert forall|k: int| pos <= k < pos + decimal(n).len() implies is_digit(#[trigger] s[k]) by {
        assert(s[k] == s.subrange(pos, pos + decimal(n).len())[k - pos]);
    }
    lemma_digit_run_from(s, pos, decimal(n).len() as int);
}

proof fn lemma_digit_run_from(s: Seq<char>, pos: int, len: int)
    requires
        0 <= pos,
        0 <= len,
        pos + len < s.len(),
        forall|k: int| pos <= k < pos + len ==> is_digit(#[trigger] s[k]),
        !is_digit(s[pos + len]),
    ensures
        digits_from(s, pos) == len,
    decreases len,
{
    if len > 0 {
        lemma_digit_run_from(s, pos + 1, len - 1);
    }
}


proof fn lemma_digits_bound(s: Seq<char>, pos: int)
    requires
        0 <= pos <= s.len(),
    ensures
        pos + digits_from(s, pos) <= s.len(),
    decreases s.len() - pos,
{
    if pos < s.len() && is_digit(s[pos]) {
        lemma_digits_bound(s, pos + 1);
    }
}

proof fn lemma_dec_value_prefix(s: Seq<char>, j: int)
    requires
        0 <= j <= s.len(),
    ensures
        dec_value(s.take(j)) <= dec_value(s),
    decreases s.len(),
{
    if j < s.len() {
        lemma_dec_value_prefix(s.drop_last(), j);
        assert(s.drop_last().take(j) =~= s.take(j));
    } else {
        assert(s.take(j) =~= s);
    }
}

fn digit_of(c: char) -> (r: Option<u64>)
    ensures
        is_digit(c) <==> r is Some,
        r matches Some(d) ==> d == digit_value(c) && d < 10,
{
    match c {
        '0' => Some(0),
        '1' => Some(1),
        '2' => Some(2),
        '3' => Some(3),
        '4' => Some(4),
        '5' => Some(5),
        '6' => Some(6),
        '7' => Some(7),
        '8' => Some(8),
        '9' => Some(9),
        _ => None,
    }
}

/// Reads the digits at `pos`, which must end with a newline: their value
/// and the position after the newline.
fn read_number(text: &str, pos: usize) -> (r: Option<(u64, usize)>)
    requires
        pos <= text@.len(),
    ensures
        ({
            let d = digits_from(text@, pos as int);
            &&& r is Some <==> (d > 0 && pos + d < text@.len() && text@[pos + d] == '\n' && dec_value(
                text@.subrange(pos as int, pos + d),
            ) <= u64::MAX)
            &&& r matches Some(p) ==> p.0 == dec_value(text@.subrange(pos as int, pos + d)) && p.1
                == pos + d + 1
        }),
{
    let n = text.unicode_len();
    let mut i: usize = pos;
    let mut v: u64 = 0;
    assert(text@.subrange(pos as int, pos as int) =~= Seq::<char>::empty());
    loop
        invariant
            n == text@.len(),
            pos <= i <= n,
            forall|k: int| pos <= k < i ==> is_digit(#[trigger] text@[k]),
            digits_from(text@, pos as int) == (i - pos) + digits_from(text@, i as int),
            v == dec_value(text@.subrange(pos as int, i as int)),
        ensures
            pos <= i <= n,
            digits_from(text@, pos as int) == i - pos,
            v == dec_value(text@.subrange(pos as int, i as int)),
        decreases n - i,
    {
        if i >= n {
            break;
        }
        let c = text.get_char(i);
        let d = match digit_of(c) {
            Some(d) => d,
            None => {
                break;
            },
        };
        proof {
            assert(digits_from(text@, i as int) == 1 + digits_from(text@, i + 1));
            lemma_digits_bound(text@, pos as int);
        }
        let ghost run = text@.subrange(pos as int, digits_from(text@, pos as int) + pos);
        assert(text@.subrange(pos as int, i + 1).drop_last() =~= text@.subrange(pos as int, i as int));
        let w = match v.checked_mul(10) {
            Some(m) => m.checked_add(d),
            None => None,
        };
        match w {
            Some(w) => {
                v = w;
            },
            None => {
                proof {
                    assert(digits_from(text@, i + 1) >= 0);
                    assert(run.take(i + 1 - pos) =~= text@.subrange(pos as int, i + 1));
                    lemma_dec_value_prefix(run, i + 1 - pos);
                }
                return None;
            },
        }
        i = i + 1;
    }
    if i == pos || i >= n {
        return None;
    }
    if text.get_char(i) != '\n' {
        return None;
    }
    Some((v, i + 1))
}

/// Whether `lit` stands in `text` at `pos`.
fn has_at(text: &str, pos: usize, lit: &str) -> (r: bool)
    requires
        pos <= text@.len(),
    ensures
        r == (pos + lit@.len() <= text@.len() && text@.subrange(pos as int, pos + lit@.len()) == lit@),
{
    let n = text.unicode_len();
    let m = lit.unicode_len();
    if m > n - pos {
        return false;
    }
    let mut k: usize = 0;
    while k < m
        invariant
            n == text@.len(),
            m == lit@.len(),
            pos + m <= n,
            k <= m,
            text@.subrange(pos as int, pos + k) =~= lit@.take(k as int),
        decreases m - k,
    {
        if text.get_char(pos + k) != lit.get_char(k) {
            assert(text@.subrange(pos as int, pos + m)[k as int] != lit@[k as int]);
            return false;
        }
        k = k + 1;
        assert(text@.subrange(pos as int, pos + k) =~= lit@.take(k as int));
    }
    assert(lit@.take(m as int) =~= lit@);
    true
}


/// A labelled line: the label, a number in decimal, a newline.
pub open spec fn field(label: Seq<char>, n: nat) -> Seq<char> {
    label + decimal(n) + "\n"@
}

/// The report of a run's totals.
pub open spec fn report_text(sent: nat, failed: nat, iterations: nat) -> Seq<char> {
    "---RESULTS--\n"@ + field("total_sent: "@, sent) + field("total_failed: "@, failed) + field(
        "total_iterations: "@,
        iterations,
    ) + "---END RESULTS--\n"@
}

/// Totals read back from a report.
#[derive(Debug, Clone, Copy, PartialEq, Eq, Structural)]
pub struct ReportTotals {
    pub sent: usize,
    pub failed: usize,
    pub iterations: u32,
}

/// Whether `text` is the report of `t`.
pub open spec fn reports(text: Seq<char>, t: ReportTotals) -> bool {
    text == report_text(t.sent as nat, t.failed as nat, t.iterations as nat)
}

/// The totals that `text` reports, if it is a report.
pub open spec fn report_values(text: Seq<char>) -> Option<ReportTotals> {
    if exists|t: ReportTotals| reports(text, t) {
        Some(choose|t: ReportTotals| reports(text, t))
    } else {
        None
    }
}

/// A field stands in `t` at `pos`: its label, then a digit run of exactly
/// the number's length ending in a newline, whose value is the number.
proof fn lemma_field_at(t: Seq<char>, pos: int, label: Seq<char>, n: nat)
    requires
        0 <= pos,
        pos + field(label, n).len() <= t.len(),
        t.subrange(pos, pos + field(label, n).len()) == field(label, n),
    ensures
        t.subrange(pos, pos + label.len()) == label,
        digits_from(t, pos + label.len()) == decimal(n).len(),
        t[pos + label.len() + decimal(n).len()] == '\n',
        t.subrange(pos + label.len(), pos + label.len() + decimal(n).len()) == decimal(n),
        dec_value(decimal(n)) == n,
        field(label, n).len() == label.len() + decimal(n).len() + 1,
{
    reveal_strlit("\n");
    let f = field(label, n);
    let q = pos + label.len();
    let d = decimal(n);
    lemma_decimal_digits(n);
    assert(f.len() == label.len() + d.len() + 1);
    assert(t.subrange(pos, q) =~= label) by {
        assert forall|k: int| 0 <= k < label.len() implies t.subrange(pos, q)[k] == label[k] by {
            assert(t[pos + k] == t.subrange(pos, pos + f.len())[k]);
        }
    }
    assert(t.subrange(q, q + d.len()) =~= d) by {
        assert forall|k: int| 0 <= k < d.len() implies t.subrange(q, q + d.len())[k] == d[k] by {
            assert(t[q + k] == t.subrange(pos, pos + f.len())[label.len() + k]);
        }
    }
    assert(t[q + d.len()] == t.subrange(pos, pos + f.len())[(label.len() + d.len()) as int]);
    lemma_digit_run(t, q, n);
}

/// Two fields with the same label at the same place hold the same number.
proof fn lemma_field_determined(t: Seq<char>, pos: int, label: Seq<char>, a: nat, b: nat)
    requires
        0 <= pos,
        pos + field(label, a).len() <= t.len(),
        t.subrange(pos, pos + field(label, a).len()) == field(label, a),
        pos + field(label, b).len() <= t.len(),
        t.subrange(pos, pos + field(label, b).len()) == field(label, b),
    ensures
        a == b,
{
    lemma_field_at(t, pos, label, a);
    lemma_field_at(t, pos, label, b);
}

/// The pieces of a report, as subranges of it.
proof fn lemma_report_layout(t: Seq<char>, a: nat, b: nat, c: nat)
    requires
        t == report_text(a, b, c),
    ensures
        ({
            let h = "---RESULTS--\n"@.len() as int;
            let fa = field("total_sent: "@, a).len() as int;
            let fb = field("total_failed: "@, b).len() as int;
            let fc = field("total_iterations: "@, c).len() as int;
            &&& t.subrange(0, h) == "---RESULTS--\n"@
            &&& t.subrange(h, h + fa) == field("total_sent: "@, a)
            &&& t.subrange(h + fa, h + fa + fb) == field("total_failed: "@, b)
            &&& t.subrange(h + fa + fb, h + fa + fb + fc) == field("total_iterations: "@, c)
            &&& t.subrange(h + fa + fb + fc, t.len() as int) == "---END RESULTS--\n"@
            &&& t.len() == h + fa + fb + fc + "---END RESULTS--\n"@.len()
        }),
{
    let hs = "---RESULTS--\n"@;
    let f1 = field("total_sent: "@, a);
    let f2 = field("total_failed: "@, b);
    let f3 = field("total_iterations: "@, c);
    let ft = "---END RESULTS--\n"@;
    let h = hs.len() as int;
    let fa = f1.len() as int;
    let fb = f2.len() as int;
    let fc = f3.len() as int;
    assert(t =~= hs + f1 + f2 + f3 + ft);
    assert(t.subrange(0, h) =~= hs);
    assert(t.subrange(h, h + fa) =~= f1);
    assert(t.subrange(h + fa, h + fa + fb) =~= f2);
    assert(t.subrange(h + fa + fb, h + fa + fb + fc) =~= f3);
    assert(t.subrange(h + fa + fb + fc, t.len() as int) =~= ft);
}

/// A report determines its totals.
proof fn lemma_report_injective(t: Seq<char>, x: ReportTotals, y: ReportTotals)
    requires
        reports(t, x),
        reports(t, y),
    ensures
        x == y,
{
    let h = "---RESULTS--\n"@.len() as int;
    lemma_report_layout(t, x.sent as nat, x.failed as nat, x.iterations as nat);
    lemma_report_layout(t, y.sent as nat, y.failed as nat, y.iterations as nat);
    lemma_field_determined(t, h, "total_sent: "@, x.sent as nat, y.sent as nat);
    let fa = field("total_sent: "@, x.sent as nat).len() as int;
    lemma_field_determined(t, h + fa, "total_failed: "@, x.failed as nat, y.failed as nat);
    let fb = field("total_failed: "@, x.failed as nat).len() as int;
    lemma_field_determined(
        t,
        h + fa + fb,
        "total_iterations: "@,
        x.iterations as nat,
        y.iterations as nat,
    );
}

/// Rendering a run's totals as a report and reading the report back gives
/// the same sent, failed and iteration counts.
pub proof fn lemma_report_round_trip(t: ReportTotals)
    ensures
        report_values(report_text(t.sent as nat, t.failed as nat, t.iterations as nat)) == Some(t),
{
    let text = report_text(t.sent as nat, t.failed as nat, t.iterations as nat);
    assert(reports(text, t));
    let c = choose|u: ReportTotals| reports(text, u);
    lemma_report_injective(text, t, c);
}

/// Appends a labelled line.
fn append_field(s: &mut String, label: &str, n: u64)
    ensures
        final(s)@ == old(s)@ + field(label@, n as nat),
{
    s.append(label);
    append_decimal(s, n);
    s.append("\n");
    assert(s@ =~= old(s)@ + field(label@, n as nat));
}

/// The report of the given totals.
pub fn render_report(t: ReportTotals) -> (r: String)
    ensures
        reports(r@, t),
{
    let mut s = String::from_str("---RESULTS--\n");
    append_field(&mut s, "total_sent: ", t.sent as u64);
    append_field(&mut s, "total_failed: ", t.failed as u64);
    append_field(&mut s, "total_iterations: ", t.iterations as u64);
    s.append("---END RESULTS--\n");
    assert(s@ =~= report_text(t.sent as nat, t.failed as nat, t.iterations as nat));
    s
}

impl FlowResults {
    /// The run's totals, as a report.
    pub fn totals(&self) -> (r: ReportTotals)
        ensures
            r == (ReportTotals {
                sent: self.total.sent,
                failed: self.total.failed,
                iterations: self.total_iterations,
            }),
    {
        ReportTotals { sent: self.total.sent, failed: self.total.failed, iterations: self.total_iterations }
    }

    /// The human-readable report of the run, between the result markers.
    pub fn report(&self) -> (r: String)
        ensures
            r@ == report_text(self.total.sent as nat, self.total.failed as nat, self.total_iterations as nat),
    {
        render_report(self.totals())
    }
}

/// Reads a labelled line at `pos`: its number and the position after it.
fn read_field(text: &str, pos: usize, label: &str) -> (r: Option<(u64, usize)>)
    requires
        pos <= text@.len(),
    ensures
        r matches Some(p) ==> p.1 <= text@.len(),
        forall|n: nat|
            n <= u64::MAX && pos + (#[trigger] field(label@, n)).len() <= text@.len()
                && text@.subrange(pos as int, pos + field(label@, n).len()) == field(label@, n)
                ==> r == Some((n as u64, (pos + field(label@, n).len()) as usize)),
{
    let _ = text.unicode_len();
    let r = if !has_at(text, pos, label) {
        None
    } else {
        read_number(text, pos + label.unicode_len())
    };
    proof {
        if r matches Some(p) {
            lemma_digits_bound(text@, (pos + label@.len()) as int);
        }
        assert forall|n: nat|
            n <= u64::MAX && pos + (#[trigger] field(label@, n)).len() <= text@.len()
                && text@.subrange(pos as int, pos + field(label@, n).len()) == field(label@, n)
                implies r == Some((n as u64, (pos + field(label@, n).len()) as usize)) by {
            lemma_field_at(text@, pos as int, label@, n);
        }
    }
    r
}

/// Reads the totals back from a report; `None` when `text` is not exactly
/// a report.
pub fn parse_report(text: &str) -> (r: Option<ReportTotals>)
    ensures
        r == report_values(text@),
{
    let r = parse_report_fields(text);
    proof {
        if exists|t: ReportTotals| reports(text@, t) {
            let t = choose|t: ReportTotals| reports(text@, t);
            lemma_report_injective(text@, t, r->Some_0);
        }
    }
    r
}

fn parse_report_fields(text: &str) -> (r: Option<ReportTotals>)
    ensures
        r matches Some(t) ==> reports(text@, t),
        forall|t: ReportTotals| reports(text@, t) ==> r == Some(t),
{
    let _ = text.unicode_len();
    let header = "---RESULTS--\n";
    let l1 = "total_sent: ";
    let l2 = "total_failed: ";
    let l3 = "total_iterations: ";
    assert(l1@ == "total_sent: "@ && l2@ == "total_failed: "@ && l3@ == "total_iterations: "@);
    let ghost h = "---RESULTS--\n"@.len() as int;
    if !has_at(text, 0, header) {
        proof {
            assert forall|t: ReportTotals| !reports(text@, t) by {
                if reports(text@, t) {
                    lemma_report_layout(text@, t.sent as nat, t.failed as nat, t.iterations as nat);
                }
            }
        }
        return None;
    }
    let hl = header.unicode_len();
    let (sent, p1) = match read_field(text, hl, l1) {
        Some(x) => x,
        None => {
            proof {
                assert forall|t: ReportTotals| !reports(text@, t) by {
                    if reports(text@, t) {
                        lemma_report_layout(text@, t.sent as nat, t.failed as nat, t.iterations as nat);
                        assert(field(l1@, t.sent as nat).len() > 0);
                    }
                }
            }
            return None;
        },
    };
    let (failed, p2) = match read_field(text, p1, l2) {
        Some(x) => x,
        None => {
            proof {
                assert forall|t: ReportTotals| !reports(text@, t) by {
                    if reports(text@, t) {
                        lemma_report_layout(text@, t.sent as nat, t.failed as nat, t.iterations as nat);
                        assert(field(l1@, t.sent as nat).len() > 0);
                        assert(field(l2@, t.failed as nat).len() > 0);
                    }
                }
            }
            return None;
        },
    };
    let (iterations, _p3) = match read_field(text, p2, l3) {
        Some(x) => x,
        None => {
            proof {
                assert forall|t: ReportTotals| !reports(text@, t) by {
                    if reports(text@, t) {
                        lemma_report_layout(text@, t.sent as nat, t.failed as nat, t.iterations as nat);
                        assert(field(l1@, t.sent as nat).len() > 0);
                        assert(field(l2@, t.failed as nat).len() > 0);
                        assert(field(l3@, t.iterations as nat).len() > 0);
                    }
                }
            }
            return None;
        },
    };
    proof {
        assert forall|t: ReportTotals| reports(text@, t) implies sent == t.sent && failed == t.failed
            && iterations == t.iterations by {
            lemma_report_layout(text@, t.sent as nat, t.failed as nat, t.iterations as nat);
            assert(field(l1@, t.sent as nat).len() > 0);
            assert(field(l2@, t.failed as nat).len() > 0);
            assert(field(l3@, t.iterations as nat).len() > 0);
        }
    }
    if sent > usize::MAX as u64 || failed > usize::MAX as u64 || iterations > u32::MAX as u64 {
        return None;
    }
    let t = ReportTotals { sent: sent as usize, failed: failed as usize, iterations: iterations as u32 };
    let rendered = render_report(t);
    if rendered == String::from_str(text) {
        Some(t)
    } else {
        None
    }
}

} // verus!
