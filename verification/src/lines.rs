//! Statement lines as sequences of fields, and the `TimeLine` each shape of
//! line gives.

use vstd::prelude::*;
use vstd::string::*;

use crate::fields::{
    amount_at, amount_exec, amount_line_at, amount_line_exec, clock_at, clock_exec, clock_line_at,
    clock_line_exec, closing_at, closing_exec, frei_or_closing_at, frei_or_closing_exec, kind_at,
    kind_exec, lit_end, lit_end_exec, AmountSpan, Stop, FREI, WEEKLY_TOTAL,
};
use crate::text::{
    blanks_at, blanks_exec, char_at, char_exec, digits_at, digits_exec, letters_at, letters_exec,
    line_rest_at, line_rest_exec,
};
use crate::{zero_amount, ClockTime, Decimal, DecimalView, TimeLine, TimeLineView, TimeType};

verus! {

/// The fields a line is made of.
#[derive(Clone, Copy)]
pub enum Tok {
    /// One or more digits.
    Digits,
    /// One or more letters.
    Letters,
    /// A line feed.
    Newline,
    /// Zero or more spaces and tabs.
    Blanks,
    /// The kind of work.
    Kind,
    /// A clock time `hh:mm`.
    Clock,
    /// Blanks, a clock time and a line feed.
    ClockLine,
    /// An amount `d,d`.
    Amount,
    /// Blanks, an amount, one character and a line feed.
    AmountLine,
    /// The rest of the line.
    LineRest,
    /// The text `FREI `.
    Frei,
    /// A `TZR ` closing line.
    Closing,
    /// The line `FREI ` or a closing line.
    FreiOrClosing,
    /// The text `Weekly Total :`.
    WeeklyTotal,
}

/// What a field yields: where it stands, or the value it reads.
pub enum Field {
    Span(nat, nat),
    Kind(TimeType),
    Clock(ClockTime),
    Amount(AmountSpan),
}

/// The executable form of `Field`.
#[derive(Clone, Copy)]
pub enum FieldPos {
    Span(usize, usize),
    Kind(TimeType),
    Clock(ClockTime),
    Amount(usize, usize, usize, usize),
}

impl View for FieldPos {
    type V = Field;

    open spec fn view(&self) -> Field {
        match *self {
            FieldPos::Span(a, b) => Field::Span(a as nat, b as nat),
            FieldPos::Kind(t) => Field::Kind(t),
            FieldPos::Clock(c) => Field::Clock(c),
            FieldPos::Amount(a, b, c, d) => Field::Amount(
                AmountSpan { int_start: a as nat, int_end: b as nat, frac_start: c as nat, frac_end: d as nat },
            ),
        }
    }
}

pub open spec fn fields_view(v: Seq<FieldPos>) -> Seq<Field> {
    v.map_values(|f: FieldPos| f@)
}

pub open spec fn span_of(p: nat, e: Option<nat>) -> Result<(nat, Field), Stop> {
    match e {
        Some(e) => Ok((e, Field::Span(p, e))),
        None => Err(Stop::Fail),
    }
}

pub open spec fn amount_field(r: Option<(nat, AmountSpan)>) -> Result<(nat, Field), Stop> {
    match r {
        Some((e, a)) => Ok((e, Field::Amount(a))),
        None => Err(Stop::Fail),
    }
}

pub open spec fn clock_field(r: Result<(nat, ClockTime), Stop>) -> Result<(nat, Field), Stop> {
    match r {
        Ok((e, c)) => Ok((e, Field::Clock(c))),
        Err(x) => Err(x),
    }
}

/// One field at `p`.
pub open spec fn tok_at(t: Tok, s: Seq<char>, p: nat) -> Result<(nat, Field), Stop> {
    match t {
        Tok::Digits => span_of(p, digits_at(s, p)),
        Tok::Letters => span_of(p, letters_at(s, p)),
        Tok::Newline => span_of(p, if char_at(s, p, '\n') { Some(p + 1) } else { None }),
        Tok::Blanks => span_of(p, Some(blanks_at(s, p))),
        Tok::Kind => match kind_at(s, p) {
            Ok((e, k)) => Ok((e, Field::Kind(k))),
            Err(x) => Err(x),
        },
        Tok::Clock => clock_field(clock_at(s, p)),
        Tok::ClockLine => clock_field(clock_line_at(s, p)),
        Tok::Amount => amount_field(amount_at(s, p)),
        Tok::AmountLine => amount_field(amount_line_at(s, p)),
        Tok::LineRest => span_of(p, line_rest_at(s, p)),
        Tok::Frei => span_of(p, lit_end(s, p, FREI@)),
        Tok::Closing => span_of(p, closing_at(s, p)),
        Tok::FreiOrClosing => span_of(p, frei_or_closing_at(s, p)),
        Tok::WeeklyTotal => span_of(p, lit_end(s, p, WEEKLY_TOTAL@)),
    }
}

/// The fields `toks`, one after the other, from `p`.
pub open spec fn tokens_at(toks: Seq<Tok>, s: Seq<char>, p: nat) -> Result<(nat, Seq<Field>), Stop>
    decreases toks.len(),
{
    if toks.len() == 0 {
        Ok((p, seq![]))
    } else {
        match tok_at(toks[0], s, p) {
            Ok((q, f)) => match tokens_at(toks.drop_first(), s, q) {
                Ok((e, fs)) => Ok((e, seq![f] + fs)),
                Err(x) => Err(x),
            },
            Err(x) => Err(x),
        }
    }
}

/// The field that a token yields has the form the token promises, within `n`
/// characters.
pub open spec fn fits(t: Tok, f: Field, n: nat) -> bool {
    match t {
        Tok::Kind => f is Kind,
        Tok::Clock | Tok::ClockLine => f is Clock,
        Tok::Amount | Tok::AmountLine => match f {
            Field::Amount(a) => a.int_start <= a.int_end <= a.frac_start <= a.frac_end <= n,
            _ => false,
        },
        _ => match f {
            Field::Span(a, b) => a <= b <= n,
            _ => false,
        },
    }
}

pub open spec fn field_agrees(r: Result<(usize, FieldPos), Stop>, x: Result<(nat, Field), Stop>) -> bool {
    match (r, x) {
        (Ok((a, v)), Ok((b, w))) => a == b && v@ == w,
        (Err(a), Err(b)) => a == b,
        _ => false,
    }
}

pub fn tok_exec(t: Tok, s: &Vec<char>, p: usize) -> (r: Result<(usize, FieldPos), Stop>)
    requires
        p <= s.len(),
    ensures
        field_agrees(r, tok_at(t, s@, p as nat)),
        r matches Ok((e, f)) ==> p <= e <= s.len() && fits(t, f@, s.len() as nat),
{
    match t {
        Tok::Digits => match digits_exec(s, p) {
            Some(e) => Ok((e, FieldPos::Span(p, e))),
            None => Err(Stop::Fail),
        },
        Tok::Letters => match letters_exec(s, p) {
            Some(e) => Ok((e, FieldPos::Span(p, e))),
            None => Err(Stop::Fail),
        },
        Tok::Newline => if char_exec(s, p, '\n') {
            Ok((p + 1, FieldPos::Span(p, p + 1)))
        } else {
            Err(Stop::Fail)
        },
        Tok::Blanks => {
            let e = blanks_exec(s, p);
            Ok((e, FieldPos::Span(p, e)))
        },
        Tok::Kind => match kind_exec(s, p) {
            Ok((e, k)) => Ok((e, FieldPos::Kind(k))),
            Err(x) => Err(x),
        },
        Tok::Clock => match clock_exec(s, p) {
            Ok((e, c)) => Ok((e, FieldPos::Clock(c))),
            Err(x) => Err(x),
        },
        Tok::ClockLine => match clock_line_exec(s, p) {
            Ok((e, c)) => Ok((e, FieldPos::Clock(c))),
            Err(x) => Err(x),
        },
        Tok::Amount => match amount_exec(s, p) {
            Some((e, (a, b, c, d))) => Ok((e, FieldPos::Amount(a, b, c, d))),
            None => Err(Stop::Fail),
        },
        Tok::AmountLine => match amount_line_exec(s, p) {
            Some((e, (a, b, c, d))) => Ok((e, FieldPos::Amount(a, b, c, d))),
            None => Err(Stop::Fail),
        },
        Tok::LineRest => match line_rest_exec(s, p) {
            Some(e) => Ok((e, FieldPos::Span(p, e))),
            None => Err(Stop::Fail),
        },
        Tok::Frei => match lit_end_exec(s, p, FREI) {
            Some(e) => Ok((e, FieldPos::Span(p, e))),
            None => Err(Stop::Fail),
        },
        Tok::Closing => match closing_exec(s, p) {
            Some(e) => Ok((e, FieldPos::Span(p, e))),
            None => Err(Stop::Fail),
        },
        Tok::FreiOrClosing => match frei_or_closing_exec(s, p) {
            Some(e) => Ok((e, FieldPos::Span(p, e))),
            None => Err(Stop::Fail),
        },
        Tok::WeeklyTotal => match lit_end_exec(s, p, WEEKLY_TOTAL) {
            Some(e) => Ok((e, FieldPos::Span(p, e))),
            None => Err(Stop::Fail),
        },
    }
}

pub open spec fn prepend(
    fs: Seq<Field>,
    r: Result<(nat, Seq<Field>), Stop>,
) -> Result<(nat, Seq<Field>), Stop> {
    match r {
        Ok((e, gs)) => Ok((e, fs + gs)),
        Err(x) => Err(x),
    }
}

pub fn tokens_exec(toks: &Vec<Tok>, s: &Vec<char>, p: usize) -> (r: Result<(usize, Vec<FieldPos>), Stop>)
    requires
        p <= s.len(),
    ensures
        match (r, tokens_at(toks@, s@, p as nat)) {
            (Ok((a, v)), Ok((b, w))) => a == b && fields_view(v@) == w,
            (Err(a), Err(b)) => a == b,
            _ => false,
        },
        r matches Ok((e, v)) ==> p <= e <= s.len() && v.len() == toks.len() && forall|j: int|
            0 <= j < v.len() ==> fits(toks@[j], #[trigger] v@[j]@, s.len() as nat),
{
    let mut q = p;
    let mut vals: Vec<FieldPos> = Vec::new();
    let mut i: usize = 0;
    assert(toks@.skip(0) =~= toks@);
    while i < toks.len()
        invariant
            p <= q <= s.len(),
            i <= toks.len(),
            vals.len() == i,
            tokens_at(toks@, s@, p as nat) == prepend(
                fields_view(vals@),
                tokens_at(toks@.skip(i as int), s@, q as nat),
            ),
            forall|j: int| 0 <= j < i ==> fits(toks@[j], #[trigger] vals@[j]@, s.len() as nat),
        decreases toks.len() - i,
    {
        let t = toks[i];
        assert(toks@.skip(i as int)[0] == t);
        assert(toks@.skip(i as int).drop_first() =~= toks@.skip(i + 1));
        match tok_exec(t, s, q) {
            Ok((e, f)) => {
                proof {
                    let ghost old_view = fields_view(vals@);
                    let rest = tokens_at(toks@.skip(i + 1), s@, e as nat);
                    match rest {
                        Ok((e2, gs)) => {
                            assert(fields_view(vals@.push(f)) =~= old_view.push(f@));
                            assert(old_view + (seq![f@] + gs) =~= old_view.push(f@) + gs);
                        },
                        Err(_) => {},
                    }
                }
                vals.push(f);
                q = e;
            },
            Err(x) => {
                return Err(x);
            },
        }
        i += 1;
    }
    proof {
        assert(toks@.skip(i as int).len() == 0);
        assert(fields_view(vals@) + seq![] =~= fields_view(vals@));
    }
    Ok((q, vals))
}

/// The shapes of statement line that the reader knows.
#[derive(Clone, Copy)]
pub enum Shape {
    /// A day over lines: clock times in and out, three amounts, a closing line.
    Timeline0,
    /// A day over lines with two amounts and a closing line.
    Timeline00,
    /// A day away: the kind, then `FREI `.
    Absence,
    /// A day with any one line of text, then `FREI ` or a closing line.
    Absence0,
    /// A day with any three lines of text, then `FREI ` or a closing line.
    Absence1,
    /// A second entry of the same day: kind, clock times, one amount.
    Timeline0Alt,
    /// A day on a single line: day, kind, clock times, one amount.
    Inline,
    /// A second entry of the same day on a single line.
    InlineAlt,
    /// The block of weekly totals.
    Weekly,
}

pub open spec fn shape_tokens(sh: Shape) -> Seq<Tok> {
    match sh {
        Shape::Timeline0 => seq![
            Tok::Digits, Tok::Newline, Tok::Letters, Tok::Newline, Tok::Kind, Tok::Newline,
            Tok::ClockLine, Tok::ClockLine, Tok::AmountLine, Tok::AmountLine, Tok::AmountLine,
            Tok::Closing,
        ],
        Shape::Timeline00 => seq![
            Tok::Digits, Tok::Newline, Tok::Letters, Tok::Newline, Tok::Kind, Tok::Newline,
            Tok::AmountLine, Tok::AmountLine, Tok::Closing,
        ],
        Shape::Absence => seq![
            Tok::Digits, Tok::Newline, Tok::Letters, Tok::Newline, Tok::Kind, Tok::Newline,
            Tok::Frei, Tok::Newline,
        ],
        Shape::Absence0 => seq![
            Tok::Digits, Tok::Newline, Tok::Letters, Tok::Newline, Tok::LineRest, Tok::Newline,
            Tok::FreiOrClosing,
        ],
        Shape::Absence1 => seq![
            Tok::Digits, Tok::Newline, Tok::Letters, Tok::Newline, Tok::LineRest, Tok::Newline,
            Tok::LineRest, Tok::Newline, Tok::LineRest, Tok::Newline, Tok::FreiOrClosing,
        ],
        Shape::Timeline0Alt => seq![
            Tok::Kind, Tok::Newline, Tok::ClockLine, Tok::ClockLine, Tok::AmountLine,
        ],
        Shape::Inline => seq![
            Tok::Digits, Tok::Blanks, Tok::Letters, Tok::Blanks, Tok::Kind, Tok::Blanks,
            Tok::Clock, Tok::Blanks, Tok::Clock, Tok::Blanks, Tok::Amount,
        ],
        Shape::InlineAlt => seq![
            Tok::Blanks, Tok::Kind, Tok::Blanks, Tok::Clock, Tok::Blanks, Tok::Clock,
            Tok::Blanks, Tok::Amount,
        ],
        Shape::Weekly => seq![
            Tok::WeeklyTotal, Tok::Newline, Tok::LineRest, Tok::Newline, Tok::LineRest,
            Tok::Newline, Tok::LineRest, Tok::Newline, Tok::LineRest, Tok::Newline,
        ],
    }
}

pub fn shape_tokens_exec(sh: Shape) -> (v: Vec<Tok>)
    ensures
        v@ == shape_tokens(sh),
{
    let v = match sh {
        Shape::Timeline0 => vec![
            Tok::Digits, Tok::Newline, Tok::Letters, Tok::Newline, Tok::Kind, Tok::Newline,
            Tok::ClockLine, Tok::ClockLine, Tok::AmountLine, Tok::AmountLine, Tok::AmountLine,
            Tok::Closing,
        ],
        Shape::Timeline00 => vec![
            Tok::Digits, Tok::Newline, Tok::Letters, Tok::Newline, Tok::Kind, Tok::Newline,
            Tok::AmountLine, Tok::AmountLine, Tok::Closing,
        ],
        Shape::Absence => vec![
            Tok::Digits, Tok::Newline, Tok::Letters, Tok::Newline, Tok::Kind, Tok::Newline,
            Tok::Frei, Tok::Newline,
        ],
        Shape::Absence0 => vec![
            Tok::Digits, Tok::Newline, Tok::Letters, Tok::Newline, Tok::LineRest, Tok::Newline,
            Tok::FreiOrClosing,
        ],
        Shape::Absence1 => vec![
            Tok::Digits, Tok::Newline, Tok::Letters, Tok::Newline, Tok::LineRest, Tok::Newline,
            Tok::LineRest, Tok::Newline, Tok::LineRest, Tok::Newline, Tok::FreiOrClosing,
        ],
        Shape::Timeline0Alt => vec![
            Tok::Kind, Tok::Newline, Tok::ClockLine, Tok::ClockLine, Tok::AmountLine,
        ],
        Shape::Inline => vec![
            Tok::Digits, Tok::Blanks, Tok::Letters, Tok::Blanks, Tok::Kind, Tok::Blanks,
            Tok::Clock, Tok::Blanks, Tok::Clock, Tok::Blanks, Tok::Amount,
        ],
        Shape::InlineAlt => vec![
            Tok::Blanks, Tok::Kind, Tok::Blanks, Tok::Clock, Tok::Blanks, Tok::Clock,
            Tok::Blanks, Tok::Amount,
        ],
        Shape::Weekly => vec![
            Tok::WeeklyTotal, Tok::Newline, Tok::LineRest, Tok::Newline, Tok::LineRest,
            Tok::Newline, Tok::LineRest, Tok::Newline, Tok::LineRest, Tok::Newline,
        ],
    };
    assert(v@ =~= shape_tokens(sh));
    v
}

/// Where a line's day comes from.
#[derive(Clone, Copy)]
pub enum DaySource {
    /// The texts of two fields, joined.
    Joined(usize, usize),
    /// The text `cont'd`.
    Continued,
    /// The text `na`.
    Weekly,
}

/// Where a line's kind of work comes from.
#[derive(Clone, Copy)]
pub enum KindSource {
    Field(usize),
    Fixed(TimeType),
}

/// Which fields of a line give which part of the `TimeLine`; an amount that
/// no field gives is zero.
#[derive(Clone, Copy)]
pub struct Layout {
    pub day: DaySource,
    pub time: Option<usize>,
    pub pause: Option<usize>,
    pub kind: KindSource,
}

pub open spec fn shape_layout(sh: Shape) -> Layout {
    match sh {
        Shape::Timeline0 => Layout {
            day: DaySource::Joined(0, 2),
            time: Some(8),
            pause: Some(9),
            kind: KindSource::Field(4),
        },
        Shape::Timeline00 => Layout {
            day: DaySource::Joined(0, 2),
            time: Some(6),
            pause: Some(6),
            kind: KindSource::Field(4),
        },
        Shape::Absence => Layout {
            day: DaySource::Joined(0, 2),
            time: None,
            pause: None,
            kind: KindSource::Field(4),
        },
        Shape::Absence0 | Shape::Absence1 => Layout {
            day: DaySource::Joined(0, 2),
            time: None,
            pause: None,
            kind: KindSource::Fixed(TimeType::OFF),
        },
        Shape::Timeline0Alt => Layout {
            day: DaySource::Continued,
            time: Some(4),
            pause: None,
            kind: KindSource::Field(0),
        },
        Shape::Inline => Layout {
            day: DaySource::Joined(0, 2),
            time: Some(10),
            pause: None,
            kind: KindSource::Field(4),
        },
        Shape::InlineAlt => Layout {
            day: DaySource::Continued,
            time: Some(7),
            pause: None,
            kind: KindSource::Field(1),
        },
        Shape::Weekly => Layout {
            day: DaySource::Weekly,
            time: None,
            pause: None,
            kind: KindSource::Fixed(TimeType::NA),
        },
    }
}

pub fn shape_layout_exec(sh: Shape) -> (l: Layout)
    ensures
        l == shape_layout(sh),
{
    match sh {
        Shape::Timeline0 => Layout {
            day: DaySource::Joined(0, 2),
            time: Some(8),
            pause: Some(9),
            kind: KindSource::Field(4),
        },
        Shape::Timeline00 => Layout {
            day: DaySource::Joined(0, 2),
            time: Some(6),
            pause: Some(6),
            kind: KindSource::Field(4),
        },
        Shape::Absence => Layout {
            day: DaySource::Joined(0, 2),
            time: None,
            pause: None,
            kind: KindSource::Field(4),
        },
        Shape::Absence0 | Shape::Absence1 => Layout {
            day: DaySource::Joined(0, 2),
            time: None,
            pause: None,
            kind: KindSource::Fixed(TimeType::OFF),
        },
        Shape::Timeline0Alt => Layout {
            day: DaySource::Continued,
            time: Some(4),
            pause: None,
            kind: KindSource::Field(0),
        },
        Shape::Inline => Layout {
            day: DaySource::Joined(0, 2),
            time: Some(10),
            pause: None,
            kind: KindSource::Field(4),
        },
        Shape::InlineAlt => Layout {
            day: DaySource::Continued,
            time: Some(7),
            pause: None,
            kind: KindSource::Field(1),
        },
        Shape::Weekly => Layout {
            day: DaySource::Weekly,
            time: None,
            pause: None,
            kind: KindSource::Fixed(TimeType::NA),
        },
    }
}

/// The text a span field covers.
pub open spec fn span_text(s: Seq<char>, f: Field) -> Seq<char> {
    match f {
        Field::Span(a, b) => s.subrange(a as int, b as int),
        _ => seq![],
    }
}

/// The digits an amount field covers.
pub open spec fn amount_text(s: Seq<char>, f: Field) -> DecimalView {
    match f {
        Field::Amount(a) => DecimalView {
            integer: s.subrange(a.int_start as int, a.int_end as int),
            fraction: s.subrange(a.frac_start as int, a.frac_end as int),
        },
        _ => zero_amount(),
    }
}

pub open spec fn kind_of(f: Field) -> TimeType {
    match f {
        Field::Kind(k) => k,
        _ => TimeType::NA,
    }
}

/// The `TimeLine` that the fields `fs` give under layout `l`.
pub open spec fn line_of(l: Layout, s: Seq<char>, fs: Seq<Field>) -> TimeLineView {
    TimeLineView {
        day: match l.day {
            DaySource::Joined(i, j) => span_text(s, fs[i as int]) + span_text(s, fs[j as int]),
            DaySource::Continued => "cont'd"@,
            DaySource::Weekly => "na"@,
        },
        time: match l.time {
            Some(i) => amount_text(s, fs[i as int]),
            None => zero_amount(),
        },
        time_pause_deducted: match l.pause {
            Some(i) => amount_text(s, fs[i as int]),
            None => zero_amount(),
        },
        time_type: match l.kind {
            KindSource::Field(i) => kind_of(fs[i as int]),
            KindSource::Fixed(k) => k,
        },
    }
}

/// A line of shape `sh` at `p`.
pub open spec fn line_at(sh: Shape, s: Seq<char>, p: nat) -> Result<(nat, TimeLineView), Stop> {
    match tokens_at(shape_tokens(sh), s, p) {
        Ok((e, fs)) => Ok((e, line_of(shape_layout(sh), s, fs))),
        Err(x) => Err(x),
    }
}

/// The layout takes each part from a field of the right form.
pub open spec fn layout_fits(l: Layout, toks: Seq<Tok>) -> bool {
    &&& match l.day {
        DaySource::Joined(i, j) => i < toks.len() && j < toks.len() && is_span_tok(toks[i as int])
            && is_span_tok(toks[j as int]),
        _ => true,
    }
    &&& match l.time {
        Some(i) => i < toks.len() && is_amount_tok(toks[i as int]),
        None => true,
    }
    &&& match l.pause {
        Some(i) => i < toks.len() && is_amount_tok(toks[i as int]),
        None => true,
    }
    &&& match l.kind {
        KindSource::Field(i) => i < toks.len() && toks[i as int] is Kind,
        KindSource::Fixed(_) => true,
    }
}

pub open spec fn is_amount_tok(t: Tok) -> bool {
    t is Amount || t is AmountLine
}

pub open spec fn is_span_tok(t: Tok) -> bool {
    !(t is Kind || t is Clock || t is ClockLine || t is Amount || t is AmountLine)
}

fn span_string(input: &str, s: &Vec<char>, f: FieldPos, Ghost(t): Ghost<Tok>) -> (r: String)
    requires
        s@ == input@,
        is_span_tok(t),
        fits(t, f@, s.len() as nat),
    ensures
        r@ == span_text(s@, f@),
{
    match f {
        FieldPos::Span(a, b) => String::from_str(input.substring_char(a, b)),
        _ => {
            proof {
                assert(false);
            }
            String::new()
        },
    }
}

pub fn amount_decimal(input: &str, s: &Vec<char>, f: FieldPos, Ghost(t): Ghost<Tok>) -> (r: Decimal)
    requires
        s@ == input@,
        is_amount_tok(t),
        fits(t, f@, s.len() as nat),
    ensures
        r@ == amount_text(s@, f@),
{
    match f {
        FieldPos::Amount(a, b, c, d) => Decimal {
            integer: String::from_str(input.substring_char(a, b)),
            fraction: String::from_str(input.substring_char(c, d)),
        },
        _ => {
            proof {
                assert(false);
            }
            Decimal::zero()
        },
    }
}

fn build_line(
    l: Layout,
    input: &str,
    s: &Vec<char>,
    fs: &Vec<FieldPos>,
    Ghost(toks): Ghost<Seq<Tok>>,
) -> (r: TimeLine)
    requires
        s@ == input@,
        layout_fits(l, toks),
        fs.len() == toks.len(),
        forall|j: int| 0 <= j < fs.len() ==> fits(toks[j], #[trigger] fs@[j]@, s.len() as nat),
    ensures
        r@ == line_of(l, s@, fields_view(fs@)),
{
    let day = match l.day {
        DaySource::Joined(i, j) => {
            let mut d = span_string(input, s, fs[i], Ghost(toks[i as int]));
            let second = span_string(input, s, fs[j], Ghost(toks[j as int]));
            d.append(second.as_str());
            d
        },
        DaySource::Continued => String::from_str("cont'd"),
        DaySource::Weekly => String::from_str("na"),
    };
    let time = match l.time {
        Some(i) => amount_decimal(input, s, fs[i], Ghost(toks[i as int])),
        None => Decimal::zero(),
    };
    let pause = match l.pause {
        Some(i) => amount_decimal(input, s, fs[i], Ghost(toks[i as int])),
        None => Decimal::zero(),
    };
    let kind = match l.kind {
        KindSource::Field(i) => match fs[i] {
            FieldPos::Kind(k) => k,
            _ => {
                proof {
                    assert(fits(toks[i as int], fs@[i as int]@, s.len() as nat));
                    assert(false);
                }
                TimeType::NA
            },
        },
        KindSource::Fixed(k) => k,
    };
    TimeLine { day, time, time_pause_deducted: pause, timeType: kind }
}

/// The result of an executable line parser stands for the spec result.
pub open spec fn line_agrees(r: Result<(usize, TimeLine), Stop>, x: Result<(nat, TimeLineView), Stop>) -> bool {
    match (r, x) {
        (Ok((a, v)), Ok((b, w))) => a == b && v@ == w,
        (Err(a), Err(b)) => a == b,
        _ => false,
    }
}

pub fn line_exec(sh: Shape, input: &str, s: &Vec<char>, p: usize) -> (r: Result<(usize, TimeLine), Stop>)
    requires
        s@ == input@,
        p <= s.len(),
    ensures
        line_agrees(r, line_at(sh, s@, p as nat)),
        r matches Ok((e, _)) ==> p <= e <= s.len(),
{
    let toks = shape_tokens_exec(sh);
    let l = shape_layout_exec(sh);
    assert(layout_fits(l, toks@));
    match tokens_exec(&toks, s, p) {
        Ok((e, fs)) => {
            let line = build_line(l, input, s, &fs, Ghost(toks@));
            Ok((e, line))
        },
        Err(x) => Err(x),
    }
}

} // verus!
