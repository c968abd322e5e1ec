//! The statement reader: day lines, blocks of day lines, and the parsers
//! over `&str` that hand back the rest of the input with what they read.

use vstd::prelude::*;
use vstd::string::*;

use crate::fields::{
    amount_at, amount_exec, amount_line_at, amount_line_exec, clock_at, clock_exec, clock_line_at,
    clock_line_exec, kind_at, kind_exec, lemma_labels_without_k, lemma_tag_without_k_never_traps,
    tag_no_case_at, tag_no_case_exec, terminal_id_alt_at, terminal_id_alt_exec, AmountSpan, Stop,
    TERMINAL_ID,
};
use crate::lines::{
    amount_decimal, amount_text, line_agrees, line_at, line_exec, FieldPos, Shape, Tok,
};
use crate::text::{
    blanks_at, blanks_exec, char_at, char_exec, digits_at, digits_exec, find_at, find_exec, lit_at,
    lit_exec, word_at, word_exec,
};
use crate::{lines_view, ClockTime, Decimal, DecimalView, TimeLine, TimeLineView, TimeType};

verus! {

broadcast use vstd::string::group_string_axioms;

/// The characters of `input`.
pub fn chars_of(input: &str) -> (v: Vec<char>)
    ensures
        v@ == input@,
{
    let mut v: Vec<char> = Vec::new();
    for c in it: input.chars()
        invariant
            v@ == it.seq().take(it.index()),
            it.seq() == input@,
    {
        v.push(c);
    }
    assert(v@ =~= input@);
    v
}

/// The shapes a day line may have, in the order they are tried.
pub open spec fn day_shapes() -> Seq<Shape> {
    seq![
        Shape::Timeline0,
        Shape::Timeline0Alt,
        Shape::Timeline00,
        Shape::Absence,
        Shape::Absence0,
        Shape::Absence1,
        Shape::Weekly,
    ]
}

/// The first of `shapes` that matches at `p`; a trap on the way stops the
/// search.
pub open spec fn first_line_at(shapes: Seq<Shape>, s: Seq<char>, p: nat) -> Result<
    (nat, TimeLineView),
    Stop,
>
    decreases shapes.len(),
{
    if shapes.len() == 0 {
        Err(Stop::Fail)
    } else {
        match line_at(shapes[0], s, p) {
            Err(Stop::Fail) => first_line_at(shapes.drop_first(), s, p),
            r => r,
        }
    }
}

/// One day line at `p`.
pub open spec fn day_line_at(s: Seq<char>, p: nat) -> Result<(nat, TimeLineView), Stop> {
    first_line_at(day_shapes(), s, p)
}

/// Day lines, one after the other, from `p` until one does not match. A line
/// that consumes nothing is refused.
pub open spec fn day_lines_from(s: Seq<char>, p: nat) -> Result<(nat, Seq<TimeLineView>), Stop>
    decreases s.len() - p,
{
    match day_line_at(s, p) {
        Err(Stop::Fail) => Ok((p, seq![])),
        Err(Stop::Trap) => Err(Stop::Trap),
        Ok((e, l)) => if p < e <= s.len() {
            match day_lines_from(s, e) {
                Ok((f, ls)) => Ok((f, seq![l] + ls)),
                Err(x) => Err(x),
            }
        } else {
            Err(Stop::Fail)
        },
    }
}

pub const DWS: &'static str = "DWS";

/// A block: everything up to the marker `DWS`, the marker, a line feed, then
/// the day lines.
pub open spec fn block_at(s: Seq<char>, p: nat) -> Result<(nat, Seq<TimeLineView>), Stop> {
    match find_at(s, p, DWS@) {
        None => Err(Stop::Fail),
        Some(q) => if lit_at(s, q, DWS@) && char_at(s, q + DWS@.len(), '\n') {
            day_lines_from(s, q + DWS@.len() + 1)
        } else {
            Err(Stop::Fail)
        },
    }
}

/// Blocks, one after the other, from `p` until one does not match; the day
/// lines of all of them, in order.
pub open spec fn blocks_from(s: Seq<char>, p: nat) -> Result<(nat, Seq<TimeLineView>), Stop>
    decreases s.len() - p,
{
    match block_at(s, p) {
        Err(Stop::Fail) => Ok((p, seq![])),
        Err(Stop::Trap) => Err(Stop::Trap),
        Ok((e, ls)) => if p < e <= s.len() {
            match blocks_from(s, e) {
                Ok((f, ms)) => Ok((f, ls + ms)),
                Err(x) => Err(x),
            }
        } else {
            Err(Stop::Fail)
        },
    }
}

pub open spec fn lines_agree(
    r: Result<(usize, Vec<TimeLine>), Stop>,
    x: Result<(nat, Seq<TimeLineView>), Stop>,
) -> bool {
    match (r, x) {
        (Ok((a, v)), Ok((b, w))) => a == b && lines_view(v@) == w,
        (Err(a), Err(b)) => a == b,
        _ => false,
    }
}

pub open spec fn prepend_lines(
    ls: Seq<TimeLineView>,
    r: Result<(nat, Seq<TimeLineView>), Stop>,
) -> Result<(nat, Seq<TimeLineView>), Stop> {
    match r {
        Ok((e, ms)) => Ok((e, ls + ms)),
        Err(x) => Err(x),
    }
}

pub fn day_line_exec(input: &str, s: &Vec<char>, p: usize) -> (r: Result<(usize, TimeLine), Stop>)
    requires
        s@ == input@,
        p <= s.len(),
    ensures
        line_agrees(r, day_line_at(s@, p as nat)),
        r matches Ok((e, _)) ==> p <= e <= s.len(),
{
    let shapes = vec![
        Shape::Timeline0,
        Shape::Timeline0Alt,
        Shape::Timeline00,
        Shape::Absence,
        Shape::Absence0,
        Shape::Absence1,
        Shape::Weekly,
    ];
    assert(shapes@ =~= day_shapes());
    let mut i: usize = 0;
    assert(shapes@.skip(0) =~= shapes@);
    while i < shapes.len()
        invariant
            i <= shapes.len(),
            s@ == input@,
            p <= s.len(),
            day_line_at(s@, p as nat) == first_line_at(shapes@.skip(i as int), s@, p as nat),
        decreases shapes.len() - i,
    {
        assert(shapes@.skip(i as int).drop_first() =~= shapes@.skip(i + 1));
        match line_exec(shapes[i], input, s, p) {
            Err(Stop::Fail) => {},
            r => {
                return r;
            },
        }
        i += 1;
    }
    Err(Stop::Fail)
}

pub fn day_lines_exec(input: &str, s: &Vec<char>, p: usize) -> (r: Result<(usize, Vec<TimeLine>), Stop>)
    requires
        s@ == input@,
        p <= s.len(),
    ensures
        lines_agree(r, day_lines_from(s@, p as nat)),
        r matches Ok((e, _)) ==> p <= e <= s.len(),
{
    let mut q = p;
    let mut out: Vec<TimeLine> = Vec::new();
    assert(lines_view(out@) + seq![] =~= seq![]);
    loop
        invariant
            p <= q <= s.len(),
            s@ == input@,
            day_lines_from(s@, p as nat) == prepend_lines(lines_view(out@), day_lines_from(s@, q as nat)),
        decreases s.len() - q,
    {
        match day_line_exec(input, s, q) {
            Err(Stop::Fail) => {
                assert(lines_view(out@) + seq![] =~= lines_view(out@));
                return Ok((q, out));
            },
            Err(Stop::Trap) => {
                return Err(Stop::Trap);
            },
            Ok((e, l)) => {
                if q < e {
                    proof {
                        let ghost old_view = lines_view(out@);
                        match day_lines_from(s@, e as nat) {
                            Ok((f, ms)) => {
                                assert(lines_view(out@.push(l)) =~= old_view.push(l@));
                                assert(old_view + (seq![l@] + ms) =~= old_view.push(l@) + ms);
                            },
                            Err(_) => {},
                        }
                    }
                    out.push(l);
                    q = e;
                } else {
                    return Err(Stop::Fail);
                }
            },
        }
    }
}

pub fn block_exec(input: &str, s: &Vec<char>, p: usize) -> (r: Result<(usize, Vec<TimeLine>), Stop>)
    requires
        s@ == input@,
        p <= s.len(),
    ensures
        lines_agree(r, block_at(s@, p as nat)),
        r matches Ok((e, _)) ==> p <= e <= s.len(),
{
    let q = match find_exec(s, p, DWS) {
        Some(q) => q,
        None => return Err(Stop::Fail),
    };
    let n = DWS.unicode_len();
    if lit_exec(s, q, DWS) && char_exec(s, q + n, '\n') {
        day_lines_exec(input, s, q + n + 1)
    } else {
        Err(Stop::Fail)
    }
}

pub fn blocks_exec(input: &str, s: &Vec<char>, p: usize) -> (r: Result<(usize, Vec<TimeLine>), Stop>)
    requires
        s@ == input@,
        p <= s.len(),
    ensures
        lines_agree(r, blocks_from(s@, p as nat)),
        r matches Ok((e, _)) ==> p <= e <= s.len(),
{
    let mut q = p;
    let mut out: Vec<TimeLine> = Vec::new();
    assert(lines_view(out@) + seq![] =~= seq![]);
    loop
        invariant
            p <= q <= s.len(),
            s@ == input@,
            blocks_from(s@, p as nat) == prepend_lines(lines_view(out@), blocks_from(s@, q as nat)),
        decreases s.len() - q,
    {
        match block_exec(input, s, q) {
            Err(Stop::Fail) => {
                assert(lines_view(out@) + seq![] =~= lines_view(out@));
                return Ok((q, out));
            },
            Err(Stop::Trap) => {
                return Err(Stop::Trap);
            },
            Ok((e, ls)) => {
                if q < e {
                    proof {
                        let ghost old_view = lines_view(out@);
                        match blocks_from(s@, e as nat) {
                            Ok((f, ms)) => {
                                assert(lines_view(out@ + ls@) =~= old_view + lines_view(ls@));
                                assert(old_view + (lines_view(ls@) + ms) =~= (old_view + lines_view(ls@)) + ms);
                            },
                            Err(_) => {},
                        }
                    }
                    let mut ls = ls;
                    out.append(&mut ls);
                    q = e;
                } else {
                    return Err(Stop::Fail);
                }
            },
        }
    }
}

/// A parser did not match its input.
#[derive(Clone, Copy, Debug, PartialEq, Eq, Structural)]
pub struct ParseError;

/// The rest of the input and what was read from its front, or the failure.
pub type IResult<'a, T> = Result<(&'a str, T), ParseError>;

/// The input traps: no parser is run on it.
pub open spec fn traps<V>(x: Result<(nat, V), Stop>) -> bool {
    x == Err::<(nat, V), Stop>(Stop::Trap)
}

/// `r`, returned by a parser run on the text `s`, is what the spec result `x`
/// says: the rest of the text after `e` characters and the value, or an error.
pub open spec fn parsed<T: View>(r: Result<(&str, T), ParseError>, s: Seq<char>, x: Result<(nat, T::V), Stop>) -> bool {
    match x {
        Ok((e, v)) => match r {
            Ok((rest, w)) => rest@ == s.skip(e as int) && w@ == v,
            Err(_) => false,
        },
        Err(_) => r is Err,
    }
}

/// The same for parsers that read a sequence of lines.
pub open spec fn parsed_lines(
    r: Result<(&str, Vec<TimeLine>), ParseError>,
    s: Seq<char>,
    x: Result<(nat, Seq<TimeLineView>), Stop>,
) -> bool {
    match x {
        Ok((e, v)) => match r {
            Ok((rest, w)) => rest@ == s.skip(e as int) && lines_view(w@) == v,
            Err(_) => false,
        },
        Err(_) => r is Err,
    }
}

/// A parser that reads the text from `p` to the end position `e`.
pub open spec fn slice_from(s: Seq<char>, p: nat, e: Option<nat>) -> Result<(nat, Seq<char>), Stop> {
    match e {
        Some(e) => Ok((e, s.subrange(p as int, e as int))),
        None => Err(Stop::Fail),
    }
}

/// The rest of `input` from character `e`.
fn rest_of<'a>(input: &'a str, s: &Vec<char>, e: usize) -> (r: &'a str)
    requires
        s@ == input@,
        e <= s.len(),
    ensures
        r@ == input@.skip(e as int),
{
    let r = input.substring_char(e, s.len());
    assert(r@ =~= input@.skip(e as int));
    r
}

/// A slice parser's result at the start of `input`.
fn slice_result<'a>(input: &'a str, s: &Vec<char>, e: Option<usize>) -> (r: IResult<'a, &'a str>)
    requires
        s@ == input@,
        e matches Some(e) ==> e <= s.len(),
    ensures
        parsed(r, input@, slice_from(input@, 0, match e { Some(e) => Some(e as nat), None => None })),
{
    match e {
        Some(e) => Ok((rest_of(input, s, e), input.substring_char(0, e))),
        None => Err(ParseError),
    }
}

/// A run of characters other than space, tab and `|`.
pub fn not_relevant(i: &str) -> (r: IResult<&str>)
    ensures
        parsed(r, i@, slice_from(i@, 0, word_at(i@, 0))),
{
    let s = chars_of(i);
    slice_result(i, &s, word_exec(&s, 0))
}

/// A space, or else one or more digits.
pub open spec fn terminal_number_at(s: Seq<char>, p: nat) -> Option<nat> {
    if char_at(s, p, ' ') {
        Some(p + 1)
    } else {
        digits_at(s, p)
    }
}

/// A space where one stands.
pub open spec fn opt_space(s: Seq<char>, p: nat) -> nat {
    if char_at(s, p, ' ') {
        p + 1
    } else {
        p
    }
}

/// A terminal number, an optional space, a slash, an optional space, a
/// terminal number.
pub open spec fn terminal_slot_at(s: Seq<char>, p: nat) -> Option<nat> {
    match terminal_number_at(s, p) {
        None => None,
        Some(a) => {
            let b = opt_space(s, a);
            if char_at(s, b, '/') {
                terminal_number_at(s, opt_space(s, b + 1))
            } else {
                None
            }
        },
    }
}

/// `Terminal-ID` in any case, blanks, `: `, a terminal slot; the end and the
/// end of the label.
pub open spec fn terminal_id_at(s: Seq<char>, p: nat) -> Result<(nat, nat), Stop> {
    match tag_no_case_at(s, p, TERMINAL_ID@) {
        Err(x) => Err(x),
        Ok(q) => {
            let b = blanks_at(s, q);
            if char_at(s, b, ':') && char_at(s, b + 1, ' ') {
                match terminal_slot_at(s, b + 2) {
                    Some(e) => Ok((e, q)),
                    None => Err(Stop::Fail),
                }
            } else {
                Err(Stop::Fail)
            }
        },
    }
}

fn terminal_number_exec(s: &Vec<char>, p: usize) -> (r: Option<usize>)
    requires
        p <= s.len(),
    ensures
        crate::text::same_end(r, terminal_number_at(s@, p as nat)),
        r matches Some(e) ==> p <= e <= s.len(),
{
    if char_exec(s, p, ' ') {
        Some(p + 1)
    } else {
        digits_exec(s, p)
    }
}

fn opt_space_exec(s: &Vec<char>, p: usize) -> (e: usize)
    requires
        p <= s.len(),
    ensures
        e == opt_space(s@, p as nat),
        p <= e <= s.len(),
{
    if char_exec(s, p, ' ') {
        p + 1
    } else {
        p
    }
}

fn terminal_slot_exec(s: &Vec<char>, p: usize) -> (r: Option<usize>)
    requires
        p <= s.len(),
    ensures
        crate::text::same_end(r, terminal_slot_at(s@, p as nat)),
        r matches Some(e) ==> p <= e <= s.len(),
{
    let a = match terminal_number_exec(s, p) {
        Some(a) => a,
        None => return None,
    };
    let b = opt_space_exec(s, a);
    if char_exec(s, b, '/') {
        let c = opt_space_exec(s, b + 1);
        terminal_number_exec(s, c)
    } else {
        None
    }
}

/// A space, or else one or more digits.
pub fn terminal_number(input: &str) -> (r: IResult<&str>)
    ensures
        parsed(r, input@, slice_from(input@, 0, terminal_number_at(input@, 0))),
{
    let s = chars_of(input);
    slice_result(input, &s, terminal_number_exec(&s, 0))
}

/// A terminal slot such as `2015 / 2012`; it reads as the empty text.
pub fn terminal_slot(input: &str) -> (r: IResult<&str>)
    ensures
        parsed(
            r,
            input@,
            match terminal_slot_at(input@, 0) {
                Some(e) => Ok((e, Seq::<char>::empty())),
                None => Err(Stop::Fail),
            },
        ),
{
    let s = chars_of(input);
    match terminal_slot_exec(&s, 0) {
        Some(e) => {
            proof {
                reveal_strlit("");
                assert(""@ =~= Seq::<char>::empty());
            }
            Ok((rest_of(input, &s, e), ""))
        },
        None => Err(ParseError),
    }
}

/// `Terminal-ID: ` and a terminal slot; reads as the label as written.
pub fn terminal_id(input: &str) -> (r: IResult<&str>)
    ensures
        parsed(
            r,
            input@,
            match terminal_id_at(input@, 0) {
                Ok((e, q)) => Ok((e, input@.subrange(0, q as int))),
                Err(x) => Err(x),
            },
        ),
{
    proof {
        lemma_labels_without_k();
        lemma_tag_without_k_never_traps(input@, 0, TERMINAL_ID@);
    }
    let s = chars_of(input);
    let q = match tag_no_case_exec(&s, 0, TERMINAL_ID) {
        Ok(q) => q,
        Err(_) => return Err(ParseError),
    };
    let b = blanks_exec(&s, q);
    if char_exec(&s, b, ':') && char_exec(&s, b + 1, ' ') {
        match terminal_slot_exec(&s, b + 2) {
            Some(e) => Ok((rest_of(input, &s, e), input.substring_char(0, q))),
            None => Err(ParseError),
        }
    } else {
        Err(ParseError)
    }
}

/// `Terminal-ID` and the rest of the line; reads as the label as written.
pub fn terminal_id_alt(input: &str) -> (r: IResult<&str>)
    ensures
        parsed(
            r,
            input@,
            match terminal_id_alt_at(input@, 0) {
                Ok(e) => Ok((e, input@.subrange(0, TERMINAL_ID@.len() as int))),
                Err(x) => Err(x),
            },
        ),
{
    proof {
        lemma_labels_without_k();
        lemma_tag_without_k_never_traps(input@, 0, TERMINAL_ID@);
    }
    let s = chars_of(input);
    match terminal_id_alt_exec(&s, 0) {
        Ok(e) => {
            let n = TERMINAL_ID.unicode_len();
            Ok((rest_of(input, &s, e), input.substring_char(0, n)))
        },
        Err(_) => Err(ParseError),
    }
}

/// The kind of work.
pub fn timetype(input: &str) -> (r: IResult<TimeType>)
    requires
        !traps(kind_at(input@, 0)),
    ensures
        parsed(r, input@, kind_at(input@, 0)),
{
    let s = chars_of(input);
    match kind_exec(&s, 0) {
        Ok((e, k)) => Ok((rest_of(input, &s, e), k)),
        Err(_) => Err(ParseError),
    }
}

/// A clock time `hh:mm`.
pub fn time(input: &str) -> (r: IResult<ClockTime>)
    requires
        !traps(clock_at(input@, 0)),
    ensures
        parsed(r, input@, clock_at(input@, 0)),
        r matches Ok((_, c)) ==> c.valid(),
{
    let s = chars_of(input);
    match clock_exec(&s, 0) {
        Ok((e, c)) => Ok((rest_of(input, &s, e), c)),
        Err(_) => Err(ParseError),
    }
}

/// Blanks, a clock time, a line feed.
pub fn time_space_new(input: &str) -> (r: IResult<ClockTime>)
    requires
        !traps(clock_line_at(input@, 0)),
    ensures
        parsed(r, input@, clock_line_at(input@, 0)),
        r matches Ok((_, c)) ==> c.valid(),
{
    let s = chars_of(input);
    match clock_line_exec(&s, 0) {
        Ok((e, c)) => Ok((rest_of(input, &s, e), c)),
        Err(_) => Err(ParseError),
    }
}

/// The amount that an amount parser reads.
pub open spec fn amount_value(s: Seq<char>, x: Option<(nat, AmountSpan)>) -> Result<(nat, DecimalView), Stop> {
    match x {
        Some((e, a)) => Ok((e, amount_text(s, crate::lines::Field::Amount(a)))),
        None => Err(Stop::Fail),
    }
}

fn amount_result<'a>(
    input: &'a str,
    s: &Vec<char>,
    x: Option<(usize, (usize, usize, usize, usize))>,
    Ghost(t): Ghost<Tok>,
) -> (r: IResult<'a, Decimal>)
    requires
        s@ == input@,
        t is Amount || t is AmountLine,
        x matches Some((e, (a, b, c, d))) ==> a <= b <= c <= d <= s.len() && e <= s.len(),
    ensures
        match x {
            Some((e, (a, b, c, d))) => parsed(
                r,
                input@,
                Ok((e as nat, DecimalView {
                    integer: input@.subrange(a as int, b as int),
                    fraction: input@.subrange(c as int, d as int),
                })),
            ),
            None => r is Err,
        },
{
    match x {
        Some((e, (a, b, c, d))) => {
            let v = amount_decimal(input, s, FieldPos::Amount(a, b, c, d), Ghost(t));
            Ok((rest_of(input, s, e), v))
        },
        None => Err(ParseError),
    }
}

/// An amount `d,d`.
pub fn number_from_comma(input: &str) -> (r: IResult<Decimal>)
    ensures
        parsed(r, input@, amount_value(input@, amount_at(input@, 0))),
{
    let s = chars_of(input);
    amount_result(input, &s, amount_exec(&s, 0), Ghost(Tok::Amount))
}

/// Blanks, an amount, one character, a line feed.
pub fn nbr_comma_new(input: &str) -> (r: IResult<Decimal>)
    ensures
        parsed(r, input@, amount_value(input@, amount_line_at(input@, 0))),
{
    let s = chars_of(input);
    amount_result(input, &s, amount_line_exec(&s, 0), Ghost(Tok::AmountLine))
}

fn line_public<'a>(sh: Shape, input: &'a str) -> (r: IResult<'a, TimeLine>)
    requires
        !traps(line_at(sh, input@, 0)),
    ensures
        parsed(r, input@, line_at(sh, input@, 0)),
{
    let s = chars_of(input);
    match line_exec(sh, input, &s, 0) {
        Ok((e, l)) => Ok((rest_of(input, &s, e), l)),
        Err(_) => Err(ParseError),
    }
}

/// A day over lines: the day number and name, the kind, the clock times in
/// and out, the hours, the hours after the pause, a third amount, and a
/// closing line.
pub fn timeline0(input: &str) -> (r: IResult<TimeLine>)
    requires
        !traps(line_at(Shape::Timeline0, input@, 0)),
    ensures
        parsed(r, input@, line_at(Shape::Timeline0, input@, 0)),
{
    line_public(Shape::Timeline0, input)
}

/// A day over lines with two amounts; both amounts of the line are the
/// first one.
pub fn timeline00(input: &str) -> (r: IResult<TimeLine>)
    requires
        !traps(line_at(Shape::Timeline00, input@, 0)),
    ensures
        parsed(r, input@, line_at(Shape::Timeline00, input@, 0)),
{
    line_public(Shape::Timeline00, input)
}

/// A day away, marked `FREI `; no hours.
pub fn timeline_absence(input: &str) -> (r: IResult<TimeLine>)
    requires
        !traps(line_at(Shape::Absence, input@, 0)),
    ensures
        parsed(r, input@, line_at(Shape::Absence, input@, 0)),
{
    line_public(Shape::Absence, input)
}

/// A day off with one line of text; no hours.
pub fn timeline_absence_0(input: &str) -> (r: IResult<TimeLine>)
    requires
        !traps(line_at(Shape::Absence0, input@, 0)),
    ensures
        parsed(r, input@, line_at(Shape::Absence0, input@, 0)),
{
    line_public(Shape::Absence0, input)
}

/// A day off with three lines of text; no hours.
pub fn timeline_absence_1(input: &str) -> (r: IResult<TimeLine>)
    requires
        !traps(line_at(Shape::Absence1, input@, 0)),
    ensures
        parsed(r, input@, line_at(Shape::Absence1, input@, 0)),
{
    line_public(Shape::Absence1, input)
}

/// A second entry of the same day over lines.
pub fn timeline0_alt(input: &str) -> (r: IResult<TimeLine>)
    requires
        !traps(line_at(Shape::Timeline0Alt, input@, 0)),
    ensures
        parsed(r, input@, line_at(Shape::Timeline0Alt, input@, 0)),
{
    line_public(Shape::Timeline0Alt, input)
}

/// A day on a single line.
pub fn timeline(input: &str) -> (r: IResult<TimeLine>)
    requires
        !traps(line_at(Shape::Inline, input@, 0)),
    ensures
        parsed(r, input@, line_at(Shape::Inline, input@, 0)),
{
    line_public(Shape::Inline, input)
}

/// A second entry of the same day on a single line.
pub fn timeline_alt(input: &str) -> (r: IResult<TimeLine>)
    requires
        !traps(line_at(Shape::InlineAlt, input@, 0)),
    ensures
        parsed(r, input@, line_at(Shape::InlineAlt, input@, 0)),
{
    line_public(Shape::InlineAlt, input)
}

/// The block of weekly totals; reads as a line of kind `NA`.
pub fn parse_weekly(input: &str) -> (r: IResult<TimeLine>)
    requires
        !traps(line_at(Shape::Weekly, input@, 0)),
    ensures
        parsed(r, input@, line_at(Shape::Weekly, input@, 0)),
{
    line_public(Shape::Weekly, input)
}

/// Everything before the first `DWS`.
pub fn parse_untill_dws(input: &str) -> (r: IResult<&str>)
    ensures
        parsed(r, input@, slice_from(input@, 0, find_at(input@, 0, DWS@))),
{
    let s = chars_of(input);
    slice_result(input, &s, find_exec(&s, 0, DWS))
}

/// One block of a statement and its day lines.
pub fn parse_timeline_single(input: &str) -> (r: IResult<Vec<TimeLine>>)
    requires
        !traps(block_at(input@, 0)),
    ensures
        parsed_lines(r, input@, block_at(input@, 0)),
{
    let s = chars_of(input);
    match block_exec(input, &s, 0) {
        Ok((e, ls)) => Ok((rest_of(input, &s, e), ls)),
        Err(_) => Err(ParseError),
    }
}

pub proof fn lemma_day_lines_bounds(s: Seq<char>, p: nat)
    requires
        p <= s.len(),
    ensures
        day_lines_from(s, p) matches Ok((e, _)) ==> p <= e <= s.len(),
    decreases s.len() - p,
{
    match day_line_at(s, p) {
        Ok((e, l)) => if p < e <= s.len() {
            lemma_day_lines_bounds(s, e);
        },
        _ => {},
    }
}

pub proof fn lemma_block_consumes(s: Seq<char>, p: nat)
    requires
        p <= s.len(),
    ensures
        block_at(s, p) matches Ok((e, _)) ==> p < e <= s.len(),
{
    crate::text::lemma_find_at(s, p, DWS@);
    match find_at(s, p, DWS@) {
        Some(q) => if lit_at(s, q, DWS@) && char_at(s, q + DWS@.len(), '\n') {
            lemma_day_lines_bounds(s, q + DWS@.len() + 1);
        },
        None => {},
    }
}

/// Reading blocks never fails: on every input on which it does not trap it
/// reads zero or more blocks and stops where no further block begins.
pub proof fn lemma_blocks_never_fail(s: Seq<char>, p: nat)
    requires
        p <= s.len(),
    ensures
        blocks_from(s, p) is Ok || traps(blocks_from(s, p)),
        blocks_from(s, p) matches Ok((e, _)) ==> p <= e <= s.len(),
    decreases s.len() - p,
{
    lemma_block_consumes(s, p);
    match block_at(s, p) {
        Ok((e, ls)) => {
            lemma_blocks_never_fail(s, e);
        },
        _ => {},
    }
}

/// Reading all blocks from `p` is reading one block and then all blocks from
/// where it stopped; where no block begins, it reads nothing and stays at `p`.
pub proof fn lemma_blocks_unfold(s: Seq<char>, p: nat)
    requires
        p <= s.len(),
    ensures
        block_at(s, p) == Err::<(nat, Seq<TimeLineView>), Stop>(Stop::Fail) ==> blocks_from(s, p)
            == Ok::<(nat, Seq<TimeLineView>), Stop>((p, seq![])),
        block_at(s, p) matches Ok((e, ls)) ==> p < e && blocks_from(s, p) == prepend_lines(
            ls,
            blocks_from(s, e),
        ),
{
    lemma_block_consumes(s, p);
}

/// All the blocks of a statement and their day lines, in order. This never
/// fails.
#[allow(non_snake_case)]
pub fn parse_timeline__many0(input: &str) -> (r: Result<(&str, Vec<TimeLine>), ParseError>)
    requires
        !traps(blocks_from(input@, 0)),
    ensures
        r is Ok,
        parsed_lines(r, input@, blocks_from(input@, 0)),
{
    proof {
        lemma_blocks_never_fail(input@, 0);
    }
    match parse_timeline_many0_or_trap(input) {
        Some(r) => r,
        None => Err(ParseError),
    }
}

/// `parse_timeline__many0`, or `None` on the inputs on which it is not to be
/// run.
pub fn parse_timeline_many0_or_trap(input: &str) -> (r: Option<Result<(&str, Vec<TimeLine>), ParseError>>)
    ensures
        r is None <==> traps(blocks_from(input@, 0)),
        r matches Some(x) ==> x is Ok && parsed_lines(x, input@, blocks_from(input@, 0)),
{
    proof {
        lemma_blocks_never_fail(input@, 0);
    }
    let s = chars_of(input);
    match blocks_exec(input, &s, 0) {
        Ok((e, ls)) => Some(Ok((rest_of(input, &s, e), ls))),
        Err(Stop::Fail) => Some(Err(ParseError)),
        Err(Stop::Trap) => None,
    }
}

/// The shapes a line of a statement written one day per line may have.
pub open spec fn inline_shapes() -> Seq<Shape> {
    seq![Shape::Inline, Shape::InlineAlt]
}

/// `parse_timeline` reads a line as `timeline` does; where `timeline` does not
/// match, as `timeline_alt` does.
pub proof fn lemma_parse_timeline_alternatives(s: Seq<char>)
    ensures
        first_line_at(inline_shapes(), s, 0) == match line_at(Shape::Inline, s, 0) {
            Err(Stop::Fail) => line_at(Shape::InlineAlt, s, 0),
            r => r,
        },
{
    assert(inline_shapes().drop_first() =~= seq![Shape::InlineAlt]);
    assert(seq![Shape::InlineAlt].drop_first() =~= Seq::<Shape>::empty());
    assert(first_line_at(Seq::<Shape>::empty(), s, 0) == Err::<(nat, TimeLineView), Stop>(Stop::Fail));
    assert(first_line_at(seq![Shape::InlineAlt], s, 0) == match line_at(Shape::InlineAlt, s, 0) {
        Err(Stop::Fail) => Err(Stop::Fail),
        r => r,
    });
}

/// A line of a statement written one day per line.
pub fn parse_timeline(input: &str) -> (r: IResult<TimeLine>)
    requires
        !traps(first_line_at(inline_shapes(), input@, 0)),
    ensures
        parsed(r, input@, first_line_at(inline_shapes(), input@, 0)),
{
    match parse_timeline_or_trap(input) {
        Some(r) => r,
        None => Err(ParseError),
    }
}

/// `parse_timeline`, or `None` on the inputs on which it is not to be run.
pub fn parse_timeline_or_trap(input: &str) -> (r: Option<IResult<TimeLine>>)
    ensures
        r is None <==> traps(first_line_at(inline_shapes(), input@, 0)),
        r matches Some(x) ==> parsed(x, input@, first_line_at(inline_shapes(), input@, 0)),
{
    let s = chars_of(input);
    proof {
        lemma_parse_timeline_alternatives(input@);
    }
    let r = match line_exec(Shape::Inline, input, &s, 0) {
        Err(Stop::Fail) => line_exec(Shape::InlineAlt, input, &s, 0),
        r => r,
    };
    match r {
        Ok((e, l)) => Some(Ok((rest_of(input, &s, e), l))),
        Err(Stop::Fail) => Some(Err(ParseError)),
        Err(Stop::Trap) => None,
    }
}

} // verus!
