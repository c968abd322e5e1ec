//! What a day line reads, stated over the characters of the text: where its
//! fields stand, and which of them give the day, the hours and the kind.

use vstd::prelude::*;

use crate::fields::{amount_at, amount_line_at, clock_at, clock_line_at, kind_at, AmountSpan, Stop};
use crate::lines::{line_at, shape_tokens, tok_at, tokens_at, Field, Shape, Tok};
use crate::parsers::{day_line_at, day_lines_from, day_shapes, first_line_at, prepend_lines};
use crate::shift::lemma_shift_tok;
use crate::text::{blanks_at, run_end, Class};
use crate::{zero_amount, DecimalView, TimeLineView, TimeType};

verus! {

/// The first of the fields from the `i`-th on, taken off the front.
proof fn lemma_tokens_unfold(toks: Seq<Tok>, s: Seq<char>, i: int, p: nat)
    requires
        0 <= i < toks.len(),
        tokens_at(toks.skip(i), s, p) is Ok,
    ensures
        tok_at(toks[i], s, p) matches Ok((q, f)) && tokens_at(toks.skip(i + 1), s, q) matches Ok(
            (e, fs),
        ) && tokens_at(toks.skip(i), s, p) == Ok::<(nat, Seq<Field>), Stop>((e, seq![f] + fs)),
{
    assert(toks.skip(i).drop_first() =~= toks.skip(i + 1));
    assert(toks.skip(i)[0] == toks[i]);
}

/// Where each of the fields `toks`, read one after the other from `p`, begins,
/// and where the last one ends.
pub open spec fn field_ends(toks: Seq<Tok>, s: Seq<char>, p: nat) -> Seq<nat>
    decreases toks.len(),
{
    if toks.len() == 0 {
        seq![p]
    } else {
        seq![p] + field_ends(toks.drop_first(), s, tok_at(toks[0], s, p)->Ok_0.0)
    }
}

/// The field `tk` read at `p` of `s` ends at `q` and gives `f`.
#[verifier::opaque]
pub open spec fn field_read(tk: Tok, s: Seq<char>, p: nat, q: nat, f: Field) -> bool {
    tok_at(tk, s, p) == Ok::<(nat, Field), Stop>((q, f))
}

/// Fields read one after the other: each is read where the one before it
/// ended.
proof fn lemma_fields_apart(toks: Seq<Tok>, s: Seq<char>, p: nat)
    requires
        tokens_at(toks, s, p) is Ok,
    ensures
        ({
            let ps = field_ends(toks, s, p);
            tokens_at(toks, s, p) matches Ok((e, fs)) && ps.len() == toks.len() + 1 && fs.len()
                == toks.len() && ps[0] == p && e == ps[toks.len() as int] && forall|i: int|
                0 <= i < toks.len() ==> field_read(toks[i], s, ps[i], ps[i + 1], #[trigger] fs[i])
        }),
    decreases toks.len(),
{
    reveal(field_read);
    if toks.len() > 0 {
        let q = tok_at(toks[0], s, p)->Ok_0.0;
        lemma_fields_apart(toks.drop_first(), s, q);
        let ps = field_ends(toks, s, p);
        let fs = tokens_at(toks, s, p)->Ok_0.1;
        let ps2 = field_ends(toks.drop_first(), s, q);
        let fs2 = tokens_at(toks.drop_first(), s, q)->Ok_0.1;
        assert forall|i: int| 0 <= i < toks.len() implies field_read(
            toks[i],
            s,
            ps[i],
            ps[i + 1],
            #[trigger] fs[i],
        ) by {
            if i > 0 {
                assert(toks[i] == toks.drop_first()[i - 1]);
                assert(ps[i] == ps2[i - 1] && ps[i + 1] == ps2[i] && fs[i] == fs2[i - 1]);
                assert(field_read(toks.drop_first()[i - 1], s, ps2[i - 1], ps2[i], fs2[i - 1]));
            }
        }
    }
}

/// What a day number read from `a` to `b` is.
proof fn lemma_read_digits(s: Seq<char>, a: nat, b: nat, f: Field)
    requires
        field_read(Tok::Digits, s, a, b, f),
    ensures
        b == number_end(s, a) && a < b && f == Field::Span(a, b),
{
    reveal(field_read);
}

/// What a day name read from `a` to `b` is.
proof fn lemma_read_letters(s: Seq<char>, a: nat, b: nat, f: Field)
    requires
        field_read(Tok::Letters, s, a, b, f),
    ensures
        b == run_end(Class::Letter, s, a) && a < b && f == Field::Span(a, b),
{
    reveal(field_read);
}

/// A line feed read from `a` to `b`.
proof fn lemma_read_newline(s: Seq<char>, a: nat, b: nat, f: Field)
    requires
        field_read(Tok::Newline, s, a, b, f),
    ensures
        a < s.len() && s[a as int] == '\n' && b == a + 1 && f == Field::Span(a, b),
{
    reveal(field_read);
}

/// A kind label read from `a` to `b`.
proof fn lemma_read_kind(s: Seq<char>, a: nat, b: nat, f: Field)
    requires
        field_read(Tok::Kind, s, a, b, f),
    ensures
        kind_at(s, a) matches Ok((e, k)) && e == b && f == Field::Kind(k),
{
    reveal(field_read);
}

/// A clock line read from `a` to `b`.
proof fn lemma_read_clock_line(s: Seq<char>, a: nat, b: nat, f: Field)
    requires
        field_read(Tok::ClockLine, s, a, b, f),
    ensures
        clock_line_at(s, a) matches Ok((e, _)) && e == b,
{
    reveal(field_read);
}

/// An amount line read from `a` to `b`.
proof fn lemma_read_amount_line(s: Seq<char>, a: nat, b: nat, f: Field)
    requires
        field_read(Tok::AmountLine, s, a, b, f),
    ensures
        amount_line_at(s, a) matches Some((e, sp)) && e == b && f == Field::Amount(sp),
{
    reveal(field_read);
}

/// Blanks read from `a` to `b`.
proof fn lemma_read_blanks(s: Seq<char>, a: nat, b: nat, f: Field)
    requires
        field_read(Tok::Blanks, s, a, b, f),
    ensures
        b == blanks_at(s, a) && f == Field::Span(a, b),
{
    reveal(field_read);
}

/// A clock time read from `a` to `b`.
proof fn lemma_read_clock(s: Seq<char>, a: nat, b: nat, f: Field)
    requires
        field_read(Tok::Clock, s, a, b, f),
    ensures
        clock_at(s, a) matches Ok((e, _)) && e == b,
{
    reveal(field_read);
}

/// An amount read from `a` to `b`.
proof fn lemma_read_amount(s: Seq<char>, a: nat, b: nat, f: Field)
    requires
        field_read(Tok::Amount, s, a, b, f),
    ensures
        amount_at(s, a) matches Some((e, sp)) && e == b && f == Field::Amount(sp),
{
    reveal(field_read);
}

/// The digits of an amount: the whole part and the fraction where `sp` puts
/// them.
pub open spec fn amount_digits(s: Seq<char>, sp: AmountSpan) -> DecimalView {
    DecimalView {
        integer: s.subrange(sp.int_start as int, sp.int_end as int),
        fraction: s.subrange(sp.frac_start as int, sp.frac_end as int),
    }
}

/// Fields that begin as a day over lines does: the day number, a line feed,
/// the day name, a line feed and the kind.
pub open spec fn starts_with_day_head(toks: Seq<Tok>) -> bool {
    &&& toks.len() >= 5
    &&& toks[0] == Tok::Digits
    &&& toks[1] == Tok::Newline
    &&& toks[2] == Tok::Letters
    &&& toks[3] == Tok::Newline
    &&& toks[4] == Tok::Kind
}

/// Where the day number ends: the first character from `p` that is not a
/// digit.
pub open spec fn number_end(s: Seq<char>, p: nat) -> nat {
    run_end(Class::Digit, s, p)
}

/// Where the day name ends, the day number having ended at `q`.
pub open spec fn name_end(s: Seq<char>, q: nat) -> nat {
    run_end(Class::Letter, s, q + 1)
}

/// The head of a day over lines, read at `p`: the day number runs up to the
/// first line feed, the day name over the next line, and the kind is the
/// label that starts the third line.
#[verifier::spinoff_prover]
proof fn lemma_head_fields(toks: Seq<Tok>, s: Seq<char>, p: nat)
    requires
        starts_with_day_head(toks),
        tokens_at(toks, s, p) is Ok,
    ensures
        ({
            let q1 = number_end(s, p);
            let q2 = name_end(s, q1);
            &&& p < q1 < q2
            &&& kind_at(s, q2 + 1) is Ok
            &&& tokens_at(toks, s, p) matches Ok((e, fs)) && fs.len() >= 5 && fs[0] == Field::Span(
                p,
                q1,
            ) && fs[2] == Field::Span(q1 + 1, q2) && fs[4] == Field::Kind(
                kind_at(s, q2 + 1)->Ok_0.1,
            )
        }),
{
    assert(toks.skip(0) =~= toks);
    lemma_tokens_unfold(toks, s, 0, p);
    let (a1, f0) = tok_at(toks[0], s, p)->Ok_0;
    lemma_tokens_unfold(toks, s, 1, a1);
    let (a2, f1) = tok_at(toks[1], s, a1)->Ok_0;
    lemma_tokens_unfold(toks, s, 2, a2);
    let (a3, f2) = tok_at(toks[2], s, a2)->Ok_0;
    lemma_tokens_unfold(toks, s, 3, a3);
    let (a4, f3) = tok_at(toks[3], s, a3)->Ok_0;
    lemma_tokens_unfold(toks, s, 4, a4);
    let (a5, f4) = tok_at(toks[4], s, a4)->Ok_0;
    let rest = tokens_at(toks.skip(5), s, a5)->Ok_0.1;
    let fs = tokens_at(toks, s, p)->Ok_0.1;
    assert(fs == seq![f0] + (seq![f1] + (seq![f2] + (seq![f3] + (seq![f4] + rest)))));
    assert(fs[0] == f0 && fs[2] == f2 && fs[4] == f4);
}

/// A day away marked `FREI` has no hours; its day is the day number and the
/// day name joined, and its kind is the one that the label on its third line
/// names.
#[verifier::spinoff_prover]
pub proof fn lemma_absence_reads_its_label(s: Seq<char>, p: nat)
    requires
        line_at(Shape::Absence, s, p) is Ok,
    ensures
        ({
            let q1 = number_end(s, p);
            let q2 = name_end(s, q1);
            &&& kind_at(s, q2 + 1) is Ok
            &&& line_at(Shape::Absence, s, p)->Ok_0.1 == (TimeLineView {
                day: s.subrange(p as int, q1 as int) + s.subrange((q1 + 1) as int, q2 as int),
                time: zero_amount(),
                time_pause_deducted: zero_amount(),
                time_type: kind_at(s, q2 + 1)->Ok_0.1,
            })
        }),
{
    let toks = shape_tokens(Shape::Absence);
    assert(starts_with_day_head(toks));
    lemma_head_fields(toks, s, p);
}

/// A continuation row reads as a further entry of the day before
/// (`cont'd`): the kind is the one its label names, the hours are the amount
/// on its amount line (after a line feed and two clock lines), there are no
/// hours after the pause, and the row ends with its amount line.
#[verifier::spinoff_prover]
pub proof fn lemma_continuation_reads(s: Seq<char>, p: nat)
    requires
        line_at(Shape::Timeline0Alt, s, p) is Ok,
    ensures
        kind_at(s, p) matches Ok((q, k)) && (q < s.len() && s[q as int] == '\n' && (clock_line_at(
            s,
            q + 1,
        ) matches Ok((c1, _)) && (clock_line_at(s, c1) matches Ok((c2, _)) && (amount_line_at(
            s,
            c2,
        ) matches Some((e, sp)) && line_at(Shape::Timeline0Alt, s, p) == Ok::<
            (nat, TimeLineView),
            Stop,
        >(
            (
                e,
                TimeLineView {
                    day: "cont'd"@,
                    time: DecimalView {
                        integer: s.subrange(sp.int_start as int, sp.int_end as int),
                        fraction: s.subrange(sp.frac_start as int, sp.frac_end as int),
                    },
                    time_pause_deducted: zero_amount(),
                    time_type: k,
                },
            ),
        ))))),
{
    let toks = shape_tokens(Shape::Timeline0Alt);
    assert(toks.len() == 5);
    assert(toks.skip(0) =~= toks);
    lemma_tokens_unfold(toks, s, 0, p);
    let (a1, f0) = tok_at(toks[0], s, p)->Ok_0;
    lemma_tokens_unfold(toks, s, 1, a1);
    let (a2, f1) = tok_at(toks[1], s, a1)->Ok_0;
    lemma_tokens_unfold(toks, s, 2, a2);
    let (a3, f2) = tok_at(toks[2], s, a2)->Ok_0;
    lemma_tokens_unfold(toks, s, 3, a3);
    let (a4, f3) = tok_at(toks[3], s, a3)->Ok_0;
    lemma_tokens_unfold(toks, s, 4, a4);
    let (a5, f4) = tok_at(toks[4], s, a4)->Ok_0;
    assert(toks.skip(5) =~= Seq::<Tok>::empty());
    let fs = tokens_at(toks, s, p)->Ok_0.1;
    assert(fs == seq![f0] + (seq![f1] + (seq![f2] + (seq![f3] + (seq![f4] + seq![])))));
    assert(fs[0] == f0 && fs[4] == f4);
}

/// A continuation row takes at least one character and ends within the text.
#[verifier::spinoff_prover]
proof fn lemma_continuation_consumes(s: Seq<char>, p: nat)
    requires
        p <= s.len(),
        line_at(Shape::Timeline0Alt, s, p) is Ok,
    ensures
        line_at(Shape::Timeline0Alt, s, p) matches Ok((e, _)) && p < e <= s.len(),
{
    lemma_continuation_reads(s, p);
    assert(seq![] + s =~= s);
    let q = kind_at(s, p)->Ok_0.0;
    lemma_shift_tok(Tok::Kind, seq![], s, p);
    lemma_shift_tok(Tok::ClockLine, seq![], s, q + 1);
    let c1 = clock_line_at(s, q + 1)->Ok_0.0;
    lemma_shift_tok(Tok::ClockLine, seq![], s, c1);
    let c2 = clock_line_at(s, c1)->Ok_0.0;
    lemma_shift_tok(Tok::AmountLine, seq![], s, c2);
}

/// The first of the shapes, where it does not fail, is what is read.
proof fn lemma_first_line_head(shapes: Seq<Shape>, s: Seq<char>, p: nat)
    requires
        shapes.len() > 0,
    ensures
        line_at(shapes[0], s, p) == Err::<(nat, TimeLineView), Stop>(Stop::Fail) ==> first_line_at(
            shapes,
            s,
            p,
        ) == first_line_at(shapes.drop_first(), s, p),
        line_at(shapes[0], s, p) != Err::<(nat, TimeLineView), Stop>(Stop::Fail) ==> first_line_at(
            shapes,
            s,
            p,
        ) == line_at(shapes[0], s, p),
{
}

/// Inside a block, a row that is not a whole day over lines but reads as a
/// continuation is the next day line: the continuation is what is read there,
/// it takes at least one character, and the day lines after it follow it.
pub proof fn lemma_continuation_is_next_day_line(s: Seq<char>, p: nat)
    requires
        p <= s.len(),
        line_at(Shape::Timeline0, s, p) == Err::<(nat, TimeLineView), Stop>(Stop::Fail),
        line_at(Shape::Timeline0Alt, s, p) is Ok,
    ensures
        day_line_at(s, p) == line_at(Shape::Timeline0Alt, s, p),
        line_at(Shape::Timeline0Alt, s, p) matches Ok((e, l)) && p < e <= s.len()
            && day_lines_from(s, p) == prepend_lines(seq![l], day_lines_from(s, e)),
{
    lemma_continuation_consumes(s, p);
    let shapes = day_shapes();
    assert(shapes[0] == Shape::Timeline0);
    assert(shapes.drop_first()[0] == Shape::Timeline0Alt);
    lemma_first_line_head(shapes, s, p);
    lemma_first_line_head(shapes.drop_first(), s, p);
    assert(day_line_at(s, p) == line_at(Shape::Timeline0Alt, s, p));
}

/// A day over lines: its day is the day number and the day name joined, its
/// kind the one that the label on its third line names, its hours the first
/// amount line after its two clock lines and its hours after the pause the
/// second; a third amount line and the closing line end it.
#[verifier::spinoff_prover]
pub proof fn lemma_day_over_lines_reads(s: Seq<char>, p: nat)
    requires
        line_at(Shape::Timeline0, s, p) is Ok,
    ensures
        ({
            let q1 = number_end(s, p);
            let q2 = name_end(s, q1);
            kind_at(s, q2 + 1) matches Ok((q3, k)) && (clock_line_at(s, q3 + 1) matches Ok((c1, _))
                && (clock_line_at(s, c1) matches Ok((c2, _)) && (amount_line_at(s, c2) matches Some(
                (m1, a1),
            ) && (amount_line_at(s, m1) matches Some((m2, a2)) && line_at(Shape::Timeline0, s, p)->Ok_0.1
                == (TimeLineView {
                day: s.subrange(p as int, q1 as int) + s.subrange((q1 + 1) as int, q2 as int),
                time: amount_digits(s, a1),
                time_pause_deducted: amount_digits(s, a2),
                time_type: k,
            })))))
        }),
{
    let toks = shape_tokens(Shape::Timeline0);
    lemma_fields_apart(toks, s, p);
    let ps = field_ends(toks, s, p);
    let fs = tokens_at(toks, s, p)->Ok_0.1;
    assert(toks.len() == 12);
    assert(toks[0] == Tok::Digits);
    assert(field_read(toks[0], s, ps[0], ps[1], fs[0]));
    lemma_read_digits(s, ps[0], ps[1], fs[0]);
    assert(toks[1] == Tok::Newline);
    assert(field_read(toks[1], s, ps[1], ps[2], fs[1]));
    lemma_read_newline(s, ps[1], ps[2], fs[1]);
    assert(toks[2] == Tok::Letters);
    assert(field_read(toks[2], s, ps[2], ps[3], fs[2]));
    lemma_read_letters(s, ps[2], ps[3], fs[2]);
    assert(toks[3] == Tok::Newline);
    assert(field_read(toks[3], s, ps[3], ps[4], fs[3]));
    lemma_read_newline(s, ps[3], ps[4], fs[3]);
    assert(toks[4] == Tok::Kind);
    assert(field_read(toks[4], s, ps[4], ps[5], fs[4]));
    lemma_read_kind(s, ps[4], ps[5], fs[4]);
    assert(toks[5] == Tok::Newline);
    assert(field_read(toks[5], s, ps[5], ps[6], fs[5]));
    lemma_read_newline(s, ps[5], ps[6], fs[5]);
    assert(toks[6] == Tok::ClockLine);
    assert(field_read(toks[6], s, ps[6], ps[7], fs[6]));
    lemma_read_clock_line(s, ps[6], ps[7], fs[6]);
    assert(toks[7] == Tok::ClockLine);
    assert(field_read(toks[7], s, ps[7], ps[8], fs[7]));
    lemma_read_clock_line(s, ps[7], ps[8], fs[7]);
    assert(toks[8] == Tok::AmountLine);
    assert(field_read(toks[8], s, ps[8], ps[9], fs[8]));
    lemma_read_amount_line(s, ps[8], ps[9], fs[8]);
    assert(toks[9] == Tok::AmountLine);
    assert(field_read(toks[9], s, ps[9], ps[10], fs[9]));
    lemma_read_amount_line(s, ps[9], ps[10], fs[9]);
    assert(toks[10] == Tok::AmountLine);
    assert(field_read(toks[10], s, ps[10], ps[11], fs[10]));
    lemma_read_amount_line(s, ps[10], ps[11], fs[10]);
}

/// A day with two amounts: its day and kind as for a day over lines, and the
/// first amount line after the kind line as both its hours and its hours
/// after the pause.
#[verifier::spinoff_prover]
pub proof fn lemma_two_amount_day_fields(s: Seq<char>, p: nat)
    requires
        line_at(Shape::Timeline00, s, p) is Ok,
    ensures
        ({
            let q1 = number_end(s, p);
            let q2 = name_end(s, q1);
            kind_at(s, q2 + 1) matches Ok((q3, k)) && (amount_line_at(s, q3 + 1) matches Some(
                (m1, a1),
            ) && line_at(Shape::Timeline00, s, p)->Ok_0.1 == (TimeLineView {
                day: s.subrange(p as int, q1 as int) + s.subrange((q1 + 1) as int, q2 as int),
                time: amount_digits(s, a1),
                time_pause_deducted: amount_digits(s, a1),
                time_type: k,
            }))
        }),
{
    let toks = shape_tokens(Shape::Timeline00);
    lemma_fields_apart(toks, s, p);
    let ps = field_ends(toks, s, p);
    let fs = tokens_at(toks, s, p)->Ok_0.1;
    assert(toks.len() == 9);
    assert(toks[0] == Tok::Digits);
    assert(field_read(toks[0], s, ps[0], ps[1], fs[0]));
    lemma_read_digits(s, ps[0], ps[1], fs[0]);
    assert(toks[1] == Tok::Newline);
    assert(field_read(toks[1], s, ps[1], ps[2], fs[1]));
    lemma_read_newline(s, ps[1], ps[2], fs[1]);
    assert(toks[2] == Tok::Letters);
    assert(field_read(toks[2], s, ps[2], ps[3], fs[2]));
    lemma_read_letters(s, ps[2], ps[3], fs[2]);
    assert(toks[3] == Tok::Newline);
    assert(field_read(toks[3], s, ps[3], ps[4], fs[3]));
    lemma_read_newline(s, ps[3], ps[4], fs[3]);
    assert(toks[4] == Tok::Kind);
    assert(field_read(toks[4], s, ps[4], ps[5], fs[4]));
    lemma_read_kind(s, ps[4], ps[5], fs[4]);
    assert(toks[5] == Tok::Newline);
    assert(field_read(toks[5], s, ps[5], ps[6], fs[5]));
    lemma_read_newline(s, ps[5], ps[6], fs[5]);
    assert(toks[6] == Tok::AmountLine);
    assert(field_read(toks[6], s, ps[6], ps[7], fs[6]));
    lemma_read_amount_line(s, ps[6], ps[7], fs[6]);
    assert(toks[7] == Tok::AmountLine);
    assert(field_read(toks[7], s, ps[7], ps[8], fs[7]));
    lemma_read_amount_line(s, ps[7], ps[8], fs[7]);
}

/// An entry on one line: its day is the day number and the day name joined
/// (each after its blanks), its kind the one its label names, its hours the
/// amount after the two clock times, and it has no hours after the pause; it
/// ends with that amount.
#[verifier::spinoff_prover]
pub proof fn lemma_one_line_entry_reads(s: Seq<char>, p: nat)
    requires
        line_at(Shape::Inline, s, p) is Ok,
    ensures
        ({
            let q1 = number_end(s, p);
            let b1 = blanks_at(s, q1);
            let q2 = run_end(Class::Letter, s, b1);
            kind_at(s, blanks_at(s, q2)) matches Ok((q3, k)) && (clock_at(s, blanks_at(s, q3)) matches Ok(
                (c1, _),
            ) && (clock_at(s, blanks_at(s, c1)) matches Ok((c2, _)) && (amount_at(
                s,
                blanks_at(s, c2),
            ) matches Some((e, a)) && line_at(Shape::Inline, s, p) == Ok::<(nat, TimeLineView), Stop>(
                (
                    e,
                    TimeLineView {
                        day: s.subrange(p as int, q1 as int) + s.subrange(b1 as int, q2 as int),
                        time: amount_digits(s, a),
                        time_pause_deducted: zero_amount(),
                        time_type: k,
                    },
                ),
            ))))
        }),
{
    let toks = shape_tokens(Shape::Inline);
    lemma_fields_apart(toks, s, p);
    let ps = field_ends(toks, s, p);
    let fs = tokens_at(toks, s, p)->Ok_0.1;
    assert(toks.len() == 11);
    assert(toks[0] == Tok::Digits);
    assert(field_read(toks[0], s, ps[0], ps[1], fs[0]));
    lemma_read_digits(s, ps[0], ps[1], fs[0]);
    assert(toks[1] == Tok::Blanks);
    assert(field_read(toks[1], s, ps[1], ps[2], fs[1]));
    lemma_read_blanks(s, ps[1], ps[2], fs[1]);
    assert(toks[2] == Tok::Letters);
    assert(field_read(toks[2], s, ps[2], ps[3], fs[2]));
    lemma_read_letters(s, ps[2], ps[3], fs[2]);
    assert(toks[3] == Tok::Blanks);
    assert(field_read(toks[3], s, ps[3], ps[4], fs[3]));
    lemma_read_blanks(s, ps[3], ps[4], fs[3]);
    assert(toks[4] == Tok::Kind);
    assert(field_read(toks[4], s, ps[4], ps[5], fs[4]));
    lemma_read_kind(s, ps[4], ps[5], fs[4]);
    assert(toks[5] == Tok::Blanks);
    assert(field_read(toks[5], s, ps[5], ps[6], fs[5]));
    lemma_read_blanks(s, ps[5], ps[6], fs[5]);
    assert(toks[6] == Tok::Clock);
    assert(field_read(toks[6], s, ps[6], ps[7], fs[6]));
    lemma_read_clock(s, ps[6], ps[7], fs[6]);
    assert(toks[7] == Tok::Blanks);
    assert(field_read(toks[7], s, ps[7], ps[8], fs[7]));
    lemma_read_blanks(s, ps[7], ps[8], fs[7]);
    assert(toks[8] == Tok::Clock);
    assert(field_read(toks[8], s, ps[8], ps[9], fs[8]));
    lemma_read_clock(s, ps[8], ps[9], fs[8]);
    assert(toks[9] == Tok::Blanks);
    assert(field_read(toks[9], s, ps[9], ps[10], fs[9]));
    lemma_read_blanks(s, ps[9], ps[10], fs[9]);
    assert(toks[10] == Tok::Amount);
    assert(field_read(toks[10], s, ps[10], ps[11], fs[10]));
    lemma_read_amount(s, ps[10], ps[11], fs[10]);
}

/// A second entry of the same day on one line (`cont'd`): its kind the one
/// its label names, its hours the amount after the two clock times, and no
/// hours after the pause; it ends with that amount.
#[verifier::spinoff_prover]
pub proof fn lemma_one_line_continuation_reads(s: Seq<char>, p: nat)
    requires
        line_at(Shape::InlineAlt, s, p) is Ok,
    ensures
        kind_at(s, blanks_at(s, p)) matches Ok((q, k)) && (clock_at(s, blanks_at(s, q)) matches Ok(
            (c1, _),
        ) && (clock_at(s, blanks_at(s, c1)) matches Ok((c2, _)) && (amount_at(s, blanks_at(s, c2))
            matches Some((e, a)) && line_at(Shape::InlineAlt, s, p) == Ok::<(nat, TimeLineView), Stop>(
            (
                e,
                TimeLineView {
                    day: "cont'd"@,
                    time: amount_digits(s, a),
                    time_pause_deducted: zero_amount(),
                    time_type: k,
                },
            ),
        )))),
{
    let toks = shape_tokens(Shape::InlineAlt);
    lemma_fields_apart(toks, s, p);
    let ps = field_ends(toks, s, p);
    let fs = tokens_at(toks, s, p)->Ok_0.1;
    assert(toks.len() == 8);
    assert(toks[0] == Tok::Blanks);
    assert(field_read(toks[0], s, ps[0], ps[1], fs[0]));
    lemma_read_blanks(s, ps[0], ps[1], fs[0]);
    assert(toks[1] == Tok::Kind);
    assert(field_read(toks[1], s, ps[1], ps[2], fs[1]));
    lemma_read_kind(s, ps[1], ps[2], fs[1]);
    assert(toks[2] == Tok::Blanks);
    assert(field_read(toks[2], s, ps[2], ps[3], fs[2]));
    lemma_read_blanks(s, ps[2], ps[3], fs[2]);
    assert(toks[3] == Tok::Clock);
    assert(field_read(toks[3], s, ps[3], ps[4], fs[3]));
    lemma_read_clock(s, ps[3], ps[4], fs[3]);
    assert(toks[4] == Tok::Blanks);
    assert(field_read(toks[4], s, ps[4], ps[5], fs[4]));
    lemma_read_blanks(s, ps[4], ps[5], fs[4]);
    assert(toks[5] == Tok::Clock);
    assert(field_read(toks[5], s, ps[5], ps[6], fs[5]));
    lemma_read_clock(s, ps[5], ps[6], fs[5]);
    assert(toks[6] == Tok::Blanks);
    assert(field_read(toks[6], s, ps[6], ps[7], fs[6]));
    lemma_read_blanks(s, ps[6], ps[7], fs[6]);
    assert(toks[7] == Tok::Amount);
    assert(field_read(toks[7], s, ps[7], ps[8], fs[7]));
    lemma_read_amount(s, ps[7], ps[8], fs[7]);
}

/// A day off without a kind label (its third line any text, then `FREI` or
/// a closing line, after one or three free lines): its day is the day number
/// and day name joined, its kind `OFF`, and it has no hours.
#[verifier::spinoff_prover]
pub proof fn lemma_day_off_reads(s: Seq<char>, p: nat)
    requires
        line_at(Shape::Absence0, s, p) is Ok || line_at(Shape::Absence1, s, p) is Ok,
    ensures
        ({
            let q1 = number_end(s, p);
            let q2 = name_end(s, q1);
            let l = (TimeLineView {
                day: s.subrange(p as int, q1 as int) + s.subrange((q1 + 1) as int, q2 as int),
                time: zero_amount(),
                time_pause_deducted: zero_amount(),
                time_type: TimeType::OFF,
            });
            &&& line_at(Shape::Absence0, s, p) is Ok ==> line_at(Shape::Absence0, s, p)->Ok_0.1 == l
            &&& line_at(Shape::Absence1, s, p) is Ok ==> line_at(Shape::Absence1, s, p)->Ok_0.1 == l
        }),
{
    if line_at(Shape::Absence0, s, p) is Ok {
        lemma_day_off_head(Shape::Absence0, s, p);
    }
    if line_at(Shape::Absence1, s, p) is Ok {
        lemma_day_off_head(Shape::Absence1, s, p);
    }
}

proof fn lemma_day_off_head(sh: Shape, s: Seq<char>, p: nat)
    requires
        sh == Shape::Absence0 || sh == Shape::Absence1,
        line_at(sh, s, p) is Ok,
    ensures
        ({
            let q1 = number_end(s, p);
            let q2 = name_end(s, q1);
            line_at(sh, s, p)->Ok_0.1 == (TimeLineView {
                day: s.subrange(p as int, q1 as int) + s.subrange((q1 + 1) as int, q2 as int),
                time: zero_amount(),
                time_pause_deducted: zero_amount(),
                time_type: TimeType::OFF,
            })
        }),
{
    let toks = shape_tokens(sh);
    lemma_fields_apart(toks, s, p);
    let ps = field_ends(toks, s, p);
    let fs = tokens_at(toks, s, p)->Ok_0.1;
    assert(toks[0] == Tok::Digits && toks[1] == Tok::Newline && toks[2] == Tok::Letters);
    assert(field_read(toks[0], s, ps[0], ps[1], fs[0]));
    lemma_read_digits(s, ps[0], ps[1], fs[0]);
    assert(field_read(toks[1], s, ps[1], ps[2], fs[1]));
    lemma_read_newline(s, ps[1], ps[2], fs[1]);
    assert(field_read(toks[2], s, ps[2], ps[3], fs[2]));
    lemma_read_letters(s, ps[2], ps[3], fs[2]);
}

/// The block of weekly totals reads as a line of no day (`na`), of kind `NA`,
/// with no hours.
pub proof fn lemma_weekly_totals_read(s: Seq<char>, p: nat)
    requires
        line_at(Shape::Weekly, s, p) is Ok,
    ensures
        line_at(Shape::Weekly, s, p)->Ok_0.1 == (TimeLineView {
            day: "na"@,
            time: zero_amount(),
            time_pause_deducted: zero_amount(),
            time_type: TimeType::NA,
        }),
{
}

} // verus!
