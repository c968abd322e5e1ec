//! The fields that a statement line is made of, and sequences of them.

use vstd::prelude::*;
use vstd::string::*;

use crate::text::{
    blanks_at, blanks_exec, char_at, char_exec, digits_at, digits_exec, digits_value,
    digits_value_capped, fold, folds_to, line_rest_at, line_rest_exec, lit_at, lit_exec,
    loose_no_case_at, no_case_at, no_case_exec, same_end, width, in_class, lemma_run_end, run_end,
    Class,
};
use crate::{ClockTime, TimeType};

verus! {

/// Why a parser did not produce a value.
#[derive(Clone, Copy, Debug, PartialEq, Eq, Structural)]
pub enum Stop {
    /// The input does not match.
    Fail,
    /// The input has a shape on which the statement reader gives up for good:
    /// a clock time whose hour is 24 or more or whose minute is 60 or more, or
    /// a kind label that only matches through the lower case of the Kelvin
    /// sign. No parser is meant to be run where this can happen.
    Trap,
}

pub const BUSINESS_ABSENCE: &'static str = "Business absence";
pub const WORKING_FROM_HOME: &'static str = "Working from home";
pub const TERMINAL_ID: &'static str = "Terminal-ID";
pub const WORKING_REMOTELY: &'static str = "Working remotely";
pub const EMPLOYEE_NOT_PRESENT: &'static str = "Employee not present";
pub const CLOSING_PLAIN: &'static str = "TZR \n";
pub const CLOSING_A: &'static str = "TZR A\n";
pub const CLOSING_B: &'static str = "TZR B\n";
pub const FREI: &'static str = "FREI ";
pub const FREI_LINE: &'static str = "FREI \n";
pub const WEEKLY_TOTAL: &'static str = "Weekly Total :";

/// A case-insensitive tag: where the loose comparison accepts, a letter for
/// letter match ends the tag, and anything else is a trap.
pub open spec fn tag_no_case_at(s: Seq<char>, p: nat, t: Seq<char>) -> Result<nat, Stop> {
    if !loose_no_case_at(s, p, t) {
        Err(Stop::Fail)
    } else if no_case_at(s, p, t) {
        Ok(p + t.len())
    } else {
        Err(Stop::Trap)
    }
}

/// Every character of `t` is ASCII and none lower-cases to `k`.
pub open spec fn ascii_without_k(t: Seq<char>) -> bool {
    forall|i: int| 0 <= i < t.len() ==> (t[i] as int) < 128 && fold(#[trigger] t[i]) != 107
}

proof fn lemma_ascii_width(t: Seq<char>, q: int)
    requires
        0 <= q <= t.len(),
        forall|i: int| 0 <= i < q ==> (#[trigger] t[i] as int) < 128,
    ensures
        width(t, 0, q) == q,
    decreases q,
{
    if q > 0 {
        lemma_ascii_width(t, q - 1);
    }
}

proof fn lemma_ascii_tail_width(s: Seq<char>, p: int, q: int)
    requires
        0 <= p <= q <= s.len(),
        forall|i: int| p <= i < q ==> (#[trigger] s[i] as int) < 128,
    ensures
        width(s, p, q) == q - p,
    decreases q - p,
{
    if q > p {
        lemma_ascii_tail_width(s, p, q - 1);
    }
}

/// A tag that is ASCII and holds no `k` is matched loosely only where it is
/// matched letter for letter: it never traps.
pub proof fn lemma_tag_without_k_never_traps(s: Seq<char>, p: nat, t: Seq<char>)
    requires
        p <= s.len(),
        ascii_without_k(t),
    ensures
        tag_no_case_at(s, p, t) != Err::<nat, Stop>(Stop::Trap),
{
    if loose_no_case_at(s, p, t) {
        let m = if s.len() - p < t.len() { s.len() - p } else { t.len() as int };
        assert forall|i: int| 0 <= i < m implies (#[trigger] s[p + i] as int) < 128 && fold(s[p + i])
            == fold(t[i]) by {
            assert(folds_to(s[p + i], t[i]));
            assert((t[i] as int) < 128 && fold(t[i]) != 107);
        }
        lemma_ascii_width(t, t.len() as int);
        if s.len() - p < t.len() {
            assert forall|i: int| p <= i < s.len() implies (#[trigger] s[i] as int) < 128 by {
                assert((s[p + (i - p)] as int) < 128);
            }
            lemma_ascii_tail_width(s, p as int, s.len() as int);
        }
        assert forall|i: int| 0 <= i < t.len() implies fold(#[trigger] s[p + i]) == fold(t[i]) by {
            assert(fold(s[p + i]) == fold(t[i]));
        }
    }
}

/// The labels other than the two with a `k` are ASCII and hold no `k`.
pub proof fn lemma_labels_without_k()
    ensures
        ascii_without_k(BUSINESS_ABSENCE@),
        ascii_without_k(TERMINAL_ID@),
        ascii_without_k(EMPLOYEE_NOT_PRESENT@),
{
    reveal_strlit("Business absence");
    reveal_strlit("Terminal-ID");
    reveal_strlit("Employee not present");
}

/// `Terminal-ID` in any case, then the rest of the line.
pub open spec fn terminal_id_alt_at(s: Seq<char>, p: nat) -> Result<nat, Stop> {
    match tag_no_case_at(s, p, TERMINAL_ID@) {
        Ok(q) => match line_rest_at(s, q) {
            Some(e) => Ok(e),
            None => Err(Stop::Fail),
        },
        Err(x) => Err(x),
    }
}

/// The kind of work: the first of the labels that matches, in this order.
pub open spec fn kind_at(s: Seq<char>, p: nat) -> Result<(nat, TimeType), Stop> {
    match tag_no_case_at(s, p, BUSINESS_ABSENCE@) {
        Ok(e) => Ok((e, TimeType::TRAVEL)),
        Err(Stop::Trap) => Err(Stop::Trap),
        Err(Stop::Fail) => match tag_no_case_at(s, p, WORKING_FROM_HOME@) {
            Ok(e) => Ok((e, TimeType::WFH)),
            Err(Stop::Trap) => Err(Stop::Trap),
            Err(Stop::Fail) => match terminal_id_alt_at(s, p) {
                Ok(e) => Ok((e, TimeType::ONSITE)),
                Err(Stop::Trap) => Err(Stop::Trap),
                Err(Stop::Fail) => match tag_no_case_at(s, p, WORKING_REMOTELY@) {
                    Ok(e) => Ok((e, TimeType::REM)),
                    Err(Stop::Trap) => Err(Stop::Trap),
                    Err(Stop::Fail) => match tag_no_case_at(s, p, EMPLOYEE_NOT_PRESENT@) {
                        Ok(e) => Ok((e, TimeType::OFF)),
                        Err(x) => Err(x),
                    },
                },
            },
        },
    }
}

/// `hh:mm`: digits, a colon, digits. The hours must be below 24 and the
/// minutes below 60; other values are a trap.
pub open spec fn clock_at(s: Seq<char>, p: nat) -> Result<(nat, ClockTime), Stop> {
    match digits_at(s, p) {
        None => Err(Stop::Fail),
        Some(q) => if !char_at(s, q, ':') {
            Err(Stop::Fail)
        } else {
            match digits_at(s, q + 1) {
                None => Err(Stop::Fail),
                Some(e) => {
                    let h = digits_value(s, p as int, q as int);
                    let m = digits_value(s, (q + 1) as int, e as int);
                    if h < 24 && m < 60 {
                        Ok((e, ClockTime { hour: h as u8, minute: m as u8 }))
                    } else {
                        Err(Stop::Trap)
                    }
                },
            }
        },
    }
}

/// Blanks, a clock time, a line feed.
pub open spec fn clock_line_at(s: Seq<char>, p: nat) -> Result<(nat, ClockTime), Stop> {
    match clock_at(s, blanks_at(s, p)) {
        Ok((e, c)) => if char_at(s, e, '\n') {
            Ok((e + 1, c))
        } else {
            Err(Stop::Fail)
        },
        Err(x) => Err(x),
    }
}

/// Where the two digit runs of an amount stand.
pub struct AmountSpan {
    pub int_start: nat,
    pub int_end: nat,
    pub frac_start: nat,
    pub frac_end: nat,
}

/// An amount: digits, a comma, digits.
pub open spec fn amount_at(s: Seq<char>, p: nat) -> Option<(nat, AmountSpan)> {
    match digits_at(s, p) {
        None => None,
        Some(q) => if !char_at(s, q, ',') {
            None
        } else {
            match digits_at(s, q + 1) {
                None => None,
                Some(e) => Some(
                    (e, AmountSpan { int_start: p, int_end: q, frac_start: q + 1, frac_end: e }),
                ),
            }
        },
    }
}

/// An ASCII digit.
pub open spec fn is_ascii_digit(c: char) -> bool {
    '0' <= c && c <= '9'
}

/// Every character from `a` up to `b` is an ASCII digit.
pub open spec fn digits_between(s: Seq<char>, a: nat, b: nat) -> bool {
    forall|i: int| a <= i < b ==> is_ascii_digit(#[trigger] s[i])
}

/// An amount is read exactly where digits, a comma and digits stand: its
/// whole part is every digit from `p` up to the comma, and its fraction every
/// digit after the comma, up to the first character that is not one. Where
/// no amount is read, no digits followed by a comma and a digit stand at `p`.
pub proof fn lemma_amount_is_digits_comma_digits(s: Seq<char>, p: nat)
    requires
        p <= s.len(),
    ensures
        amount_at(s, p) matches Some((e, sp)) ==> {
            &&& sp.int_start == p
            &&& p < sp.int_end < s.len()
            &&& s[sp.int_end as int] == ','
            &&& digits_between(s, p, sp.int_end)
            &&& sp.frac_start == sp.int_end + 1
            &&& sp.frac_start < sp.frac_end
            &&& sp.frac_end == e
            &&& e <= s.len()
            &&& digits_between(s, sp.frac_start, e)
            &&& (e == s.len() || !is_ascii_digit(s[e as int]))
        },
        amount_at(s, p) is None ==> forall|q: nat|
            #![trigger digits_between(s, p, q)]
            p < q && q + 1 < s.len() && digits_between(s, p, q) && s[q as int] == ','
                ==> !is_ascii_digit(s[(q + 1) as int]),
{
    lemma_run_end(Class::Digit, s, p);
    let q = run_end(Class::Digit, s, p);
    if q < s.len() {
        lemma_run_end(Class::Digit, s, q + 1);
    }
    if amount_at(s, p) is Some {
        let e = run_end(Class::Digit, s, q + 1);
        assert(digits_between(s, p, q)) by {
            assert forall|i: int| p <= i < q implies is_ascii_digit(#[trigger] s[i]) by {
                assert(in_class(Class::Digit, s[i]));
            }
        }
        assert(digits_between(s, q + 1, e)) by {
            assert forall|i: int| q + 1 <= i < e implies is_ascii_digit(#[trigger] s[i]) by {
                assert(in_class(Class::Digit, s[i]));
            }
        }
        if e < s.len() {
            assert(!in_class(Class::Digit, s[e as int]));
        }
    }
    if amount_at(s, p) is None {
        assert forall|q2: nat|
            #![trigger digits_between(s, p, q2)]
            p < q2 && q2 + 1 < s.len() && digits_between(s, p, q2) && s[q2 as int] == ','
                implies !is_ascii_digit(s[(q2 + 1) as int]) by {
            if is_ascii_digit(s[(q2 + 1) as int]) {
                // The run from `p` stops exactly at the comma.
                if q < q2 {
                    assert(is_ascii_digit(s[q as int]));
                } else if q > q2 {
                    assert(in_class(Class::Digit, s[q2 as int]));
                }
                assert(q == q2);
                assert(in_class(Class::Digit, s[(q2 + 1) as int]));
            }
        }
    }
}

/// Blanks, an amount, any one character, a line feed.
pub open spec fn amount_line_at(s: Seq<char>, p: nat) -> Option<(nat, AmountSpan)> {
    match amount_at(s, blanks_at(s, p)) {
        Some((e, a)) => if e < s.len() && char_at(s, e + 1, '\n') {
            Some((e + 2, a))
        } else {
            None
        },
        None => None,
    }
}

/// The line closing `TZR ` with an empty, `A` or `B` flag.
pub open spec fn closing_at(s: Seq<char>, p: nat) -> Option<nat> {
    if lit_at(s, p, CLOSING_PLAIN@) {
        Some(p + CLOSING_PLAIN@.len())
    } else if lit_at(s, p, CLOSING_A@) {
        Some(p + CLOSING_A@.len())
    } else if lit_at(s, p, CLOSING_B@) {
        Some(p + CLOSING_B@.len())
    } else {
        None
    }
}

/// The line `FREI `, or a closing line.
pub open spec fn frei_or_closing_at(s: Seq<char>, p: nat) -> Option<nat> {
    if lit_at(s, p, FREI_LINE@) {
        Some(p + FREI_LINE@.len())
    } else {
        closing_at(s, p)
    }
}

pub open spec fn lit_end(s: Seq<char>, p: nat, t: Seq<char>) -> Option<nat> {
    if lit_at(s, p, t) {
        Some(p + t.len())
    } else {
        None
    }
}

/// An executable end position, or the same stop, as the spec result.
pub open spec fn end_agrees(r: Result<usize, Stop>, x: Result<nat, Stop>) -> bool {
    match (r, x) {
        (Ok(a), Ok(b)) => a == b,
        (Err(a), Err(b)) => a == b,
        _ => false,
    }
}

/// An executable end position and value, or the same stop, as the spec result.
pub open spec fn value_agrees<V>(r: Result<(usize, V), Stop>, x: Result<(nat, V), Stop>) -> bool {
    match (r, x) {
        (Ok((a, v)), Ok((b, w))) => a == b && v == w,
        (Err(a), Err(b)) => a == b,
        _ => false,
    }
}

/// The executable form of the digit runs of an amount.
pub open spec fn amount_agrees(
    r: Option<(usize, (usize, usize, usize, usize))>,
    x: Option<(nat, AmountSpan)>,
) -> bool {
    match (r, x) {
        (Some((e, (a, b, c, d))), Some((f, sp))) => e == f && a == sp.int_start && b == sp.int_end
            && c == sp.frac_start && d == sp.frac_end,
        (None, None) => true,
        _ => false,
    }
}

pub fn tag_no_case_exec(s: &Vec<char>, p: usize, t: &str) -> (r: Result<usize, Stop>)
    requires
        p <= s.len(),
    ensures
        end_agrees(r, tag_no_case_at(s@, p as nat, t@)),
        r matches Ok(e) ==> p <= e <= s.len(),
{
    let (loose, clean) = no_case_exec(s, p, t);
    if !loose {
        Err(Stop::Fail)
    } else if clean {
        Ok(p + t.unicode_len())
    } else {
        Err(Stop::Trap)
    }
}

pub fn terminal_id_alt_exec(s: &Vec<char>, p: usize) -> (r: Result<usize, Stop>)
    requires
        p <= s.len(),
    ensures
        end_agrees(r, terminal_id_alt_at(s@, p as nat)),
        r matches Ok(e) ==> p <= e <= s.len(),
{
    let q = match tag_no_case_exec(s, p, TERMINAL_ID) {
        Ok(q) => q,
        Err(x) => return Err(x),
    };
    match line_rest_exec(s, q) {
        Some(e) => Ok(e),
        None => Err(Stop::Fail),
    }
}

pub fn kind_exec(s: &Vec<char>, p: usize) -> (r: Result<(usize, TimeType), Stop>)
    requires
        p <= s.len(),
    ensures
        value_agrees(r, kind_at(s@, p as nat)),
        r matches Ok((e, _)) ==> p <= e <= s.len(),
{
    match tag_no_case_exec(s, p, BUSINESS_ABSENCE) {
        Ok(e) => return Ok((e, TimeType::TRAVEL)),
        Err(Stop::Trap) => return Err(Stop::Trap),
        Err(Stop::Fail) => {},
    }
    match tag_no_case_exec(s, p, WORKING_FROM_HOME) {
        Ok(e) => return Ok((e, TimeType::WFH)),
        Err(Stop::Trap) => return Err(Stop::Trap),
        Err(Stop::Fail) => {},
    }
    match terminal_id_alt_exec(s, p) {
        Ok(e) => return Ok((e, TimeType::ONSITE)),
        Err(Stop::Trap) => return Err(Stop::Trap),
        Err(Stop::Fail) => {},
    }
    match tag_no_case_exec(s, p, WORKING_REMOTELY) {
        Ok(e) => return Ok((e, TimeType::REM)),
        Err(Stop::Trap) => return Err(Stop::Trap),
        Err(Stop::Fail) => {},
    }
    match tag_no_case_exec(s, p, EMPLOYEE_NOT_PRESENT) {
        Ok(e) => Ok((e, TimeType::OFF)),
        Err(x) => Err(x),
    }
}

pub fn clock_exec(s: &Vec<char>, p: usize) -> (r: Result<(usize, ClockTime), Stop>)
    requires
        p <= s.len(),
    ensures
        value_agrees(r, clock_at(s@, p as nat)),
        r matches Ok((e, c)) ==> p <= e <= s.len() && c.valid(),
{
    let q = match digits_exec(s, p) {
        Some(q) => q,
        None => return Err(Stop::Fail),
    };
    if !char_exec(s, q, ':') {
        return Err(Stop::Fail);
    }
    let e = match digits_exec(s, q + 1) {
        Some(e) => e,
        None => return Err(Stop::Fail),
    };
    let h = digits_value_capped(s, p, q);
    let m = digits_value_capped(s, q + 1, e);
    if h < 24 && m < 60 {
        Ok((e, ClockTime { hour: h as u8, minute: m as u8 }))
    } else {
        Err(Stop::Trap)
    }
}

pub fn clock_line_exec(s: &Vec<char>, p: usize) -> (r: Result<(usize, ClockTime), Stop>)
    requires
        p <= s.len(),
    ensures
        value_agrees(r, clock_line_at(s@, p as nat)),
        r matches Ok((e, c)) ==> p <= e <= s.len() && c.valid(),
{
    let b = blanks_exec(s, p);
    match clock_exec(s, b) {
        Ok((e, c)) => if char_exec(s, e, '\n') {
            Ok((e + 1, c))
        } else {
            Err(Stop::Fail)
        },
        Err(x) => Err(x),
    }
}

pub fn amount_exec(s: &Vec<char>, p: usize) -> (r: Option<(usize, (usize, usize, usize, usize))>)
    requires
        p <= s.len(),
    ensures
        amount_agrees(r, amount_at(s@, p as nat)),
        r matches Some((e, (a, b, c, d))) ==> p == a < b < c < d == e <= s.len(),
{
    let q = match digits_exec(s, p) {
        Some(q) => q,
        None => return None,
    };
    if !char_exec(s, q, ',') {
        return None;
    }
    match digits_exec(s, q + 1) {
        Some(e) => Some((e, (p, q, q + 1, e))),
        None => None,
    }
}

pub fn amount_line_exec(s: &Vec<char>, p: usize) -> (r: Option<(usize, (usize, usize, usize, usize))>)
    requires
        p <= s.len(),
    ensures
        amount_agrees(r, amount_line_at(s@, p as nat)),
        r matches Some((e, (a, b, c, d))) ==> p <= a < b < c < d < e <= s.len(),
{
    let b = blanks_exec(s, p);
    match amount_exec(s, b) {
        Some((e, a)) => if e < s.len() && char_exec(s, e + 1, '\n') {
            Some((e + 2, a))
        } else {
            None
        },
        None => None,
    }
}

pub fn lit_end_exec(s: &Vec<char>, p: usize, t: &str) -> (r: Option<usize>)
    requires
        p <= s.len(),
    ensures
        same_end(r, lit_end(s@, p as nat, t@)),
        r matches Some(e) ==> p <= e <= s.len(),
{
    if lit_exec(s, p, t) {
        Some(p + t.unicode_len())
    } else {
        None
    }
}

pub fn closing_exec(s: &Vec<char>, p: usize) -> (r: Option<usize>)
    requires
        p <= s.len(),
    ensures
        same_end(r, closing_at(s@, p as nat)),
        r matches Some(e) ==> p <= e <= s.len(),
{
    if lit_exec(s, p, CLOSING_PLAIN) {
        Some(p + CLOSING_PLAIN.unicode_len())
    } else if lit_exec(s, p, CLOSING_A) {
        Some(p + CLOSING_A.unicode_len())
    } else if lit_exec(s, p, CLOSING_B) {
        Some(p + CLOSING_B.unicode_len())
    } else {
        None
    }
}

pub fn frei_or_closing_exec(s: &Vec<char>, p: usize) -> (r: Option<usize>)
    requires
        p <= s.len(),
    ensures
        same_end(r, frei_or_closing_at(s@, p as nat)),
        r matches Some(e) ==> p <= e <= s.len(),
{
    if lit_exec(s, p, FREI_LINE) {
        Some(p + FREI_LINE.unicode_len())
    } else {
        closing_exec(s, p)
    }
}

} // verus!
