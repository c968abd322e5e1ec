//! Reading does not depend on what stands before the reading position: every
//! scanner, field, line and block read at `p` in a text `t` reads the same at
//! `a.len() + p` in `a + t`, its positions moved by `a.len()`.

use vstd::prelude::*;

use crate::fields::{
    amount_at, amount_line_at, clock_at, clock_line_at, closing_at, frei_or_closing_at, kind_at,
    lit_end, tag_no_case_at, terminal_id_alt_at, AmountSpan, Stop, BUSINESS_ABSENCE,
    EMPLOYEE_NOT_PRESENT, FREI, TERMINAL_ID, WEEKLY_TOTAL, WORKING_FROM_HOME, WORKING_REMOTELY,
};
use crate::lines::{
    fits, line_at, line_of, shape_layout, shape_tokens, span_text, tok_at, tokens_at, Field, Shape,
    Tok, amount_text, kind_of, layout_fits,
};
use crate::parsers::{
    block_at, blocks_from, day_line_at, day_lines_from, day_shapes, first_line_at, DWS,
};
use crate::text::{
    blanks_at, char_at, digits_at, digits_value, fold, letters_at, lemma_run_end, line_rest_at,
    lit_at, loose_no_case_at, no_case_at, run_end, width, word_at, Class, find_at,
};
use crate::{TimeLineView, ClockTime, TimeType};

verus! {

/// An end position moved by `k`.
pub open spec fn shift_opt(e: Option<nat>, k: nat) -> Option<nat> {
    match e {
        Some(e) => Some(e + k),
        None => None,
    }
}

/// An end position moved by `k`, or the same stop.
pub open spec fn shift_res(r: Result<nat, Stop>, k: nat) -> Result<nat, Stop> {
    match r {
        Ok(e) => Ok(e + k),
        Err(x) => Err(x),
    }
}

/// An end position moved by `k` beside an unmoved value, or the same stop.
pub open spec fn shift_val<V>(r: Result<(nat, V), Stop>, k: nat) -> Result<(nat, V), Stop> {
    match r {
        Ok((e, v)) => Ok((e + k, v)),
        Err(x) => Err(x),
    }
}

pub proof fn lemma_shift_run_end(kd: Class, a: Seq<char>, t: Seq<char>, p: nat)
    requires
        p <= t.len(),
    ensures
        run_end(kd, a + t, a.len() + p) == a.len() + run_end(kd, t, p),
    decreases t.len() - p,
{
    if p < t.len() {
        assert((a + t)[(a.len() + p) as int] == t[p as int]);
        lemma_shift_run_end(kd, a, t, p + 1);
        assert(a.len() + p + 1 == a.len() + (p + 1));
    }
}

pub proof fn lemma_shift_char(a: Seq<char>, t: Seq<char>, p: nat, c: char)
    ensures
        char_at(a + t, a.len() + p, c) == char_at(t, p, c),
{
    if p < t.len() {
        assert((a + t)[(a.len() + p) as int] == t[p as int]);
    }
}

pub proof fn lemma_shift_lit(a: Seq<char>, t: Seq<char>, p: nat, x: Seq<char>)
    ensures
        lit_at(a + t, a.len() + p, x) == lit_at(t, p, x),
{
    if p + x.len() <= t.len() {
        assert((a + t).subrange((a.len() + p) as int, (a.len() + p + x.len()) as int) =~= t.subrange(
            p as int,
            (p + x.len()) as int,
        ));
    }
}

pub proof fn lemma_shift_line_rest(a: Seq<char>, t: Seq<char>, p: nat)
    requires
        p <= t.len(),
    ensures
        line_rest_at(a + t, a.len() + p) == shift_opt(line_rest_at(t, p), a.len()),
        line_rest_at(t, p) matches Some(e) ==> p <= e <= t.len(),
{
    lemma_shift_run_end(Class::Line, a, t, p);
    lemma_run_end(Class::Line, t, p);
    let q = run_end(Class::Line, t, p);
    lemma_shift_char(a, t, q, '\r');
    lemma_shift_char(a, t, q + 1, '\n');
    if q < t.len() {
        assert((a + t)[(a.len() + q) as int] == t[q as int]);
    }
    if q + 1 < t.len() {
        assert((a + t)[(a.len() + q + 1) as int] == t[(q + 1) as int]);
    }
}

pub proof fn lemma_shift_find(a: Seq<char>, t: Seq<char>, p: nat, x: Seq<char>)
    ensures
        find_at(a + t, a.len() + p, x) == shift_opt(find_at(t, p, x), a.len()),
    decreases t.len() + 1 - p,
{
    lemma_shift_lit(a, t, p, x);
    if p + x.len() > t.len() {
    } else if lit_at(t, p, x) {
    } else {
        lemma_shift_find(a, t, p + 1, x);
        assert(a.len() + p + 1 == a.len() + (p + 1));
    }
}

pub proof fn lemma_shift_digits_value(a: Seq<char>, t: Seq<char>, i: nat, j: nat)
    requires
        j <= t.len(),
    ensures
        digits_value(a + t, (a.len() + i) as int, (a.len() + j) as int) == digits_value(t, i as int, j as int),
    decreases j - i,
{
    if i < j {
        assert((a + t)[a.len() + j - 1] == t[j - 1]);
        lemma_shift_digits_value(a, t, i, (j - 1) as nat);
        assert(a.len() + j - 1 == a.len() + (j - 1) as nat);
    }
}

pub proof fn lemma_shift_width(a: Seq<char>, t: Seq<char>, p: nat, q: nat)
    requires
        q <= t.len(),
    ensures
        width(a + t, (a.len() + p) as int, (a.len() + q) as int) == width(t, p as int, q as int),
    decreases q - p,
{
    if p < q {
        assert((a + t)[a.len() + q - 1] == t[q - 1]);
        lemma_shift_width(a, t, p, (q - 1) as nat);
        assert(a.len() + q - 1 == a.len() + (q - 1) as nat);
    }
}

pub proof fn lemma_shift_tag_no_case(a: Seq<char>, t: Seq<char>, p: nat, x: Seq<char>)
    requires
        p <= t.len(),
    ensures
        tag_no_case_at(a + t, a.len() + p, x) == shift_res(tag_no_case_at(t, p, x), a.len()),
        tag_no_case_at(t, p, x) matches Ok(e) ==> p <= e <= t.len(),
{
    let s = a + t;
    let k = a.len();
    assert forall|i: int| 0 <= i < t.len() - p implies #[trigger] s[k + p + i] == t[p + i] by {}
    assert(no_case_at(s, k + p, x) == no_case_at(t, p, x)) by {
        if no_case_at(t, p, x) {
            assert forall|i: int| 0 <= i < x.len() implies fold(#[trigger] s[k + p + i]) == fold(
                x[i],
            ) by {
                assert(s[k + p + i] == t[p + i]);
                assert(fold(t[p + i]) == fold(x[i]));
            }
        }
        if no_case_at(s, k + p, x) {
            assert forall|i: int| 0 <= i < x.len() implies fold(#[trigger] t[p + i]) == fold(
                x[i],
            ) by {
                assert(s[k + p + i] == t[p + i]);
                assert(fold(s[k + p + i]) == fold(x[i]));
            }
        }
    }
    lemma_shift_width(a, t, p, t.len());
    assert(loose_no_case_at(s, k + p, x) == loose_no_case_at(t, p, x)) by {
        let m = if t.len() - p < x.len() { t.len() - p } else { x.len() as int };
        if loose_no_case_at(t, p, x) {
            assert forall|i: int| 0 <= i < m implies crate::text::folds_to(
                #[trigger] s[k + p + i],
                x[i],
            ) by {
                assert(s[k + p + i] == t[p + i]);
                assert(crate::text::folds_to(t[p + i], x[i]));
            }
        }
        if loose_no_case_at(s, k + p, x) {
            assert forall|i: int| 0 <= i < m implies crate::text::folds_to(
                #[trigger] t[p + i],
                x[i],
            ) by {
                assert(s[k + p + i] == t[p + i]);
                assert(crate::text::folds_to(s[k + p + i], x[i]));
            }
        }
    }
}

pub proof fn lemma_shift_runs(a: Seq<char>, t: Seq<char>, p: nat)
    requires
        p <= t.len(),
    ensures
        digits_at(a + t, a.len() + p) == shift_opt(digits_at(t, p), a.len()),
        letters_at(a + t, a.len() + p) == shift_opt(letters_at(t, p), a.len()),
        word_at(a + t, a.len() + p) == shift_opt(word_at(t, p), a.len()),
        blanks_at(a + t, a.len() + p) == a.len() + blanks_at(t, p),
        digits_at(t, p) matches Some(e) ==> p < e <= t.len(),
        letters_at(t, p) matches Some(e) ==> p < e <= t.len(),
        word_at(t, p) matches Some(e) ==> p < e <= t.len(),
        p <= blanks_at(t, p) <= t.len(),
{
    lemma_shift_run_end(Class::Digit, a, t, p);
    lemma_shift_run_end(Class::Letter, a, t, p);
    lemma_shift_run_end(Class::Word, a, t, p);
    lemma_shift_run_end(Class::Blank, a, t, p);
    lemma_run_end(Class::Digit, t, p);
    lemma_run_end(Class::Letter, t, p);
    lemma_run_end(Class::Word, t, p);
    lemma_run_end(Class::Blank, t, p);
}

pub proof fn lemma_shift_lit_end(a: Seq<char>, t: Seq<char>, p: nat, x: Seq<char>)
    ensures
        lit_end(a + t, a.len() + p, x) == shift_opt(lit_end(t, p, x), a.len()),
        lit_end(t, p, x) matches Some(e) ==> p <= e <= t.len(),
{
    lemma_shift_lit(a, t, p, x);
}

pub proof fn lemma_shift_closing(a: Seq<char>, t: Seq<char>, p: nat)
    ensures
        closing_at(a + t, a.len() + p) == shift_opt(closing_at(t, p), a.len()),
        frei_or_closing_at(a + t, a.len() + p) == shift_opt(frei_or_closing_at(t, p), a.len()),
        closing_at(t, p) matches Some(e) ==> p <= e <= t.len(),
        frei_or_closing_at(t, p) matches Some(e) ==> p <= e <= t.len(),
{
    lemma_shift_lit(a, t, p, crate::fields::CLOSING_PLAIN@);
    lemma_shift_lit(a, t, p, crate::fields::CLOSING_A@);
    lemma_shift_lit(a, t, p, crate::fields::CLOSING_B@);
    lemma_shift_lit(a, t, p, crate::fields::FREI_LINE@);
}

pub proof fn lemma_shift_terminal_id_alt(a: Seq<char>, t: Seq<char>, p: nat)
    requires
        p <= t.len(),
    ensures
        terminal_id_alt_at(a + t, a.len() + p) == shift_res(terminal_id_alt_at(t, p), a.len()),
        terminal_id_alt_at(t, p) matches Ok(e) ==> p <= e <= t.len(),
{
    lemma_shift_tag_no_case(a, t, p, TERMINAL_ID@);
    match tag_no_case_at(t, p, TERMINAL_ID@) {
        Ok(q) => {
            lemma_shift_line_rest(a, t, q);
        },
        Err(_) => {},
    }
}

pub proof fn lemma_shift_kind(a: Seq<char>, t: Seq<char>, p: nat)
    requires
        p <= t.len(),
    ensures
        kind_at(a + t, a.len() + p) == shift_val(kind_at(t, p), a.len()),
        kind_at(t, p) matches Ok((e, _)) ==> p <= e <= t.len(),
{
    lemma_shift_tag_no_case(a, t, p, BUSINESS_ABSENCE@);
    lemma_shift_tag_no_case(a, t, p, WORKING_FROM_HOME@);
    lemma_shift_terminal_id_alt(a, t, p);
    lemma_shift_tag_no_case(a, t, p, WORKING_REMOTELY@);
    lemma_shift_tag_no_case(a, t, p, EMPLOYEE_NOT_PRESENT@);
}

pub proof fn lemma_shift_clock(a: Seq<char>, t: Seq<char>, p: nat)
    requires
        p <= t.len(),
    ensures
        clock_at(a + t, a.len() + p) == shift_val(clock_at(t, p), a.len()),
        clock_at(t, p) matches Ok((e, _)) ==> p <= e <= t.len(),
        clock_line_at(a + t, a.len() + p) == shift_val(clock_line_at(t, p), a.len()),
        clock_line_at(t, p) matches Ok((e, _)) ==> p <= e <= t.len(),
{
    let k = a.len();
    lemma_shift_runs(a, t, p);
    match digits_at(t, p) {
        Some(q) => {
            lemma_shift_char(a, t, q, ':');
            if char_at(t, q, ':') {
                lemma_shift_runs(a, t, q + 1);
                assert(k + q + 1 == k + (q + 1));
                match digits_at(t, q + 1) {
                    Some(e) => {
                        lemma_shift_digits_value(a, t, p, q);
                        lemma_shift_digits_value(a, t, q + 1, e);
                    },
                    None => {},
                }
            }
        },
        None => {},
    }
    let b = blanks_at(t, p);
    lemma_shift_clock_at_blank(a, t, b);
}

proof fn lemma_shift_clock_at_blank(a: Seq<char>, t: Seq<char>, b: nat)
    requires
        b <= t.len(),
    ensures
        clock_at(a + t, a.len() + b) == shift_val(clock_at(t, b), a.len()),
        clock_at(t, b) matches Ok((e, _)) ==> b <= e <= t.len(),
        clock_at(t, b) matches Ok((e, _)) ==> char_at(a + t, a.len() + e, '\n') == char_at(t, e, '\n'),
{
    let k = a.len();
    lemma_shift_runs(a, t, b);
    match digits_at(t, b) {
        Some(q) => {
            lemma_shift_char(a, t, q, ':');
            if char_at(t, q, ':') {
                lemma_shift_runs(a, t, q + 1);
                assert(k + q + 1 == k + (q + 1));
                match digits_at(t, q + 1) {
                    Some(e) => {
                        lemma_shift_digits_value(a, t, b, q);
                        lemma_shift_digits_value(a, t, q + 1, e);
                        lemma_shift_char(a, t, e, '\n');
                    },
                    None => {},
                }
            }
        },
        None => {},
    }
}

/// Amount spans moved by `k`.
pub open spec fn shift_span(sp: AmountSpan, k: nat) -> AmountSpan {
    AmountSpan {
        int_start: sp.int_start + k,
        int_end: sp.int_end + k,
        frac_start: sp.frac_start + k,
        frac_end: sp.frac_end + k,
    }
}

pub open spec fn shift_amount(r: Option<(nat, AmountSpan)>, k: nat) -> Option<(nat, AmountSpan)> {
    match r {
        Some((e, sp)) => Some((e + k, shift_span(sp, k))),
        None => None,
    }
}

pub open spec fn span_ok(sp: AmountSpan, p: nat, e: nat) -> bool {
    p <= sp.int_start <= sp.int_end <= sp.frac_start <= sp.frac_end <= e
}

pub proof fn lemma_shift_amount(a: Seq<char>, t: Seq<char>, p: nat)
    requires
        p <= t.len(),
    ensures
        amount_at(a + t, a.len() + p) == shift_amount(amount_at(t, p), a.len()),
        amount_at(t, p) matches Some((e, sp)) ==> p <= e <= t.len() && span_ok(sp, p, e),
{
    let k = a.len();
    lemma_shift_runs(a, t, p);
    match digits_at(t, p) {
        Some(q) => {
            lemma_shift_char(a, t, q, ',');
            if char_at(t, q, ',') {
                lemma_shift_runs(a, t, q + 1);
                assert(k + q + 1 == k + (q + 1));
            }
        },
        None => {},
    }
}

pub proof fn lemma_shift_amount_line(a: Seq<char>, t: Seq<char>, p: nat)
    requires
        p <= t.len(),
    ensures
        amount_line_at(a + t, a.len() + p) == shift_amount(amount_line_at(t, p), a.len()),
        amount_line_at(t, p) matches Some((e, sp)) ==> p <= e <= t.len() && span_ok(sp, p, e),
{
    let k = a.len();
    lemma_shift_runs(a, t, p);
    let b = blanks_at(t, p);
    lemma_shift_amount(a, t, b);
    match amount_at(t, b) {
        Some((e, sp)) => {
            lemma_shift_char(a, t, e + 1, '\n');
            assert(k + e + 1 == k + (e + 1));
        },
        None => {},
    }
}

/// A field's positions moved by `k`.
pub open spec fn shift_field(f: Field, k: nat) -> Field {
    match f {
        Field::Span(x, y) => Field::Span(x + k, y + k),
        Field::Amount(sp) => Field::Amount(shift_span(sp, k)),
        _ => f,
    }
}

pub open spec fn shift_tok(r: Result<(nat, Field), Stop>, k: nat) -> Result<(nat, Field), Stop> {
    match r {
        Ok((e, f)) => Ok((e + k, shift_field(f, k))),
        Err(x) => Err(x),
    }
}

pub open spec fn shift_fields(r: Result<(nat, Seq<Field>), Stop>, k: nat) -> Result<
    (nat, Seq<Field>),
    Stop,
> {
    match r {
        Ok((e, fs)) => Ok((e + k, fs.map_values(|f: Field| shift_field(f, k)))),
        Err(x) => Err(x),
    }
}

pub proof fn lemma_shift_tok(tk: Tok, a: Seq<char>, t: Seq<char>, p: nat)
    requires
        p <= t.len(),
    ensures
        tok_at(tk, a + t, a.len() + p) == shift_tok(tok_at(tk, t, p), a.len()),
        tok_at(tk, t, p) matches Ok((e, f)) ==> p <= e <= t.len() && fits(tk, f, t.len()),
{
    let k = a.len();
    match tk {
        Tok::Digits | Tok::Letters | Tok::Blanks => {
            lemma_shift_runs(a, t, p);
        },
        Tok::Newline => {
            lemma_shift_char(a, t, p, '\n');
            assert(k + p + 1 == k + (p + 1));
        },
        Tok::Kind => {
            lemma_shift_kind(a, t, p);
        },
        Tok::Clock | Tok::ClockLine => {
            lemma_shift_clock(a, t, p);
        },
        Tok::Amount => {
            lemma_shift_amount(a, t, p);
        },
        Tok::AmountLine => {
            lemma_shift_amount_line(a, t, p);
        },
        Tok::LineRest => {
            lemma_shift_line_rest(a, t, p);
        },
        Tok::Frei => {
            lemma_shift_lit_end(a, t, p, FREI@);
        },
        Tok::WeeklyTotal => {
            lemma_shift_lit_end(a, t, p, WEEKLY_TOTAL@);
        },
        Tok::Closing | Tok::FreiOrClosing => {
            lemma_shift_closing(a, t, p);
        },
    }
}

#[verifier::rlimit(100)]
#[verifier::spinoff_prover]
pub proof fn lemma_shift_tokens(toks: Seq<Tok>, a: Seq<char>, t: Seq<char>, p: nat)
    requires
        p <= t.len(),
    ensures
        tokens_at(toks, a + t, a.len() + p) == shift_fields(tokens_at(toks, t, p), a.len()),
        tokens_at(toks, t, p) matches Ok((e, fs)) ==> p <= e <= t.len() && fs.len() == toks.len()
            && forall|j: int| 0 <= j < fs.len() ==> fits(toks[j], #[trigger] fs[j], t.len()),
    decreases toks.len(),
{
    let k = a.len();
    if toks.len() == 0 {
        assert(Seq::<Field>::empty().map_values(|f: Field| shift_field(f, k)) =~= Seq::<Field>::empty());
    } else {
        lemma_shift_tok(toks[0], a, t, p);
        match tok_at(toks[0], t, p) {
            Ok((q, f)) => {
                lemma_shift_tokens(toks.drop_first(), a, t, q);
                match tokens_at(toks.drop_first(), t, q) {
                    Ok((e, fs)) => {
                        assert((seq![f] + fs).map_values(|f: Field| shift_field(f, k)) =~= seq![
                            shift_field(f, k),
                        ] + fs.map_values(|f: Field| shift_field(f, k)));
                        assert(tokens_at(toks, a + t, k + p) == Ok::<(nat, Seq<Field>), Stop>(
                            (e + k, seq![shift_field(f, k)] + fs.map_values(|f: Field| shift_field(f, k))),
                        ));
                        assert forall|j: int| 0 <= j < fs.len() + 1 implies fits(
                            toks[j],
                            #[trigger] (seq![f] + fs)[j],
                            t.len(),
                        ) by {
                            if j > 0 {
                                assert((seq![f] + fs)[j] == fs[j - 1]);
                                assert(toks[j] == toks.drop_first()[j - 1]);
                            }
                        }
                    },
                    Err(_) => {},
                }
            },
            Err(_) => {},
        }
    }
}

pub proof fn lemma_shift_texts(a: Seq<char>, t: Seq<char>, tk: Tok, f: Field)
    requires
        fits(tk, f, t.len()),
    ensures
        span_text(a + t, shift_field(f, a.len())) == span_text(t, f),
        amount_text(a + t, shift_field(f, a.len())) == amount_text(t, f),
        kind_of(shift_field(f, a.len())) == kind_of(f),
{
    let k = a.len() as int;
    match f {
        Field::Span(x, y) => {
            if x <= y <= t.len() {
                assert((a + t).subrange(x + k, y + k) =~= t.subrange(x as int, y as int));
            }
        },
        Field::Amount(sp) => {
            assert((a + t).subrange(sp.int_start + k, sp.int_end + k) =~= t.subrange(
                sp.int_start as int,
                sp.int_end as int,
            ));
            assert((a + t).subrange(sp.frac_start + k, sp.frac_end + k) =~= t.subrange(
                sp.frac_start as int,
                sp.frac_end as int,
            ));
        },
        _ => {},
    }
}

pub proof fn lemma_layout_fits(sh: Shape)
    ensures
        layout_fits(shape_layout(sh), shape_tokens(sh)),
{
}

pub proof fn lemma_shift_line(sh: Shape, a: Seq<char>, t: Seq<char>, p: nat)
    requires
        p <= t.len(),
    ensures
        line_at(sh, a + t, a.len() + p) == shift_val(line_at(sh, t, p), a.len()),
        line_at(sh, t, p) matches Ok((e, _)) ==> p <= e <= t.len(),
{
    let k = a.len();
    let toks = shape_tokens(sh);
    let l = shape_layout(sh);
    lemma_shift_tokens(toks, a, t, p);
    lemma_layout_fits(sh);
    match tokens_at(toks, t, p) {
        Ok((e, fs)) => {
            let sfs = fs.map_values(|g: Field| shift_field(g, k));
            match l.day {
                crate::lines::DaySource::Joined(i, j) => {
                    lemma_shift_texts(a, t, toks[i as int], fs[i as int]);
                    lemma_shift_texts(a, t, toks[j as int], fs[j as int]);
                },
                _ => {},
            }
            match l.time {
                Some(i) => {
                    lemma_shift_texts(a, t, toks[i as int], fs[i as int]);
                },
                None => {},
            }
            match l.pause {
                Some(i) => {
                    lemma_shift_texts(a, t, toks[i as int], fs[i as int]);
                },
                None => {},
            }
            match l.kind {
                crate::lines::KindSource::Field(i) => {
                    lemma_shift_texts(a, t, toks[i as int], fs[i as int]);
                },
                _ => {},
            }
            assert(line_of(l, a + t, sfs) == line_of(l, t, fs));
        },
        Err(_) => {},
    }
}

pub proof fn lemma_shift_first_line(shapes: Seq<Shape>, a: Seq<char>, t: Seq<char>, p: nat)
    requires
        p <= t.len(),
    ensures
        first_line_at(shapes, a + t, a.len() + p) == shift_val(first_line_at(shapes, t, p), a.len()),
        first_line_at(shapes, t, p) matches Ok((e, _)) ==> p <= e <= t.len(),
    decreases shapes.len(),
{
    if shapes.len() > 0 {
        lemma_shift_line(shapes[0], a, t, p);
        lemma_shift_first_line(shapes.drop_first(), a, t, p);
    }
}

pub proof fn lemma_shift_day_lines(a: Seq<char>, t: Seq<char>, p: nat)
    requires
        p <= t.len(),
    ensures
        day_lines_from(a + t, a.len() + p) == shift_val(day_lines_from(t, p), a.len()),
    decreases t.len() - p,
{
    let k = a.len();
    lemma_shift_first_line(day_shapes(), a, t, p);
    match day_line_at(t, p) {
        Ok((e, l)) => {
            if p < e <= t.len() {
                lemma_shift_day_lines(a, t, e);
            }
        },
        _ => {},
    }
}

pub proof fn lemma_shift_block(a: Seq<char>, t: Seq<char>, p: nat)
    requires
        p <= t.len(),
    ensures
        block_at(a + t, a.len() + p) == shift_val(block_at(t, p), a.len()),
{
    let k = a.len();
    lemma_shift_find(a, t, p, DWS@);
    crate::text::lemma_find_at(t, p, DWS@);
    match find_at(t, p, DWS@) {
        Some(q) => {
            lemma_shift_lit(a, t, q, DWS@);
            lemma_shift_char(a, t, q + DWS@.len(), '\n');
            assert(k + q + DWS@.len() == k + (q + DWS@.len()));
            if lit_at(t, q, DWS@) && char_at(t, q + DWS@.len(), '\n') {
                lemma_shift_day_lines(a, t, q + DWS@.len() + 1);
                assert(k + q + DWS@.len() + 1 == k + (q + DWS@.len() + 1));
            }
        },
        None => {},
    }
}

pub proof fn lemma_shift_blocks(a: Seq<char>, t: Seq<char>, p: nat)
    requires
        p <= t.len(),
    ensures
        blocks_from(a + t, a.len() + p) == shift_val(blocks_from(t, p), a.len()),
    decreases t.len() - p,
{
    lemma_shift_block(a, t, p);
    match block_at(t, p) {
        Ok((e, ls)) => {
            if p < e <= t.len() {
                lemma_shift_blocks(a, t, e);
            }
        },
        _ => {},
    }
}

/// Reading all blocks of a text is reading its first block and then all
/// blocks of the rest of the text after it; where no block begins, nothing is
/// read and nothing consumed.
pub proof fn lemma_blocks_are_first_block_then_rest(s: Seq<char>)
    ensures
        block_at(s, 0) matches Ok((e, ls)) ==> blocks_from(s, 0) == match blocks_from(
            s.skip(e as int),
            0,
        ) {
            Ok((f, ms)) => Ok((e + f, ls + ms)),
            Err(x) => Err(x),
        },
        block_at(s, 0) == Err::<(nat, Seq<TimeLineView>), Stop>(Stop::Fail) ==> blocks_from(s, 0)
            == Ok::<(nat, Seq<TimeLineView>), Stop>((0, seq![])),
{
    crate::parsers::lemma_blocks_unfold(s, 0);
    match block_at(s, 0) {
        Ok((e, ls)) => {
            let a = s.take(e as int);
            let t = s.skip(e as int);
            assert(a + t =~= s);
            lemma_shift_blocks(a, t, 0);
            assert(a.len() + 0 == e);
        },
        _ => {},
    }
}

/// No occurrence of `DWS` anywhere in `t`.
pub open spec fn free_of_dws(t: Seq<char>) -> bool {
    forall|i: nat| !lit_at(t, i, DWS@)
}

proof fn lemma_find_skips_prefix(pre: Seq<char>, s: Seq<char>, i: nat)
    requires
        i <= pre.len(),
        lit_at(s, 0, DWS@),
        free_of_dws(pre),
    ensures
        find_at(pre + s, i, DWS@) == Some(pre.len()),
    decreases pre.len() - i,
{
    reveal_strlit("DWS");
    let x = pre + s;
    lemma_shift_lit(pre, s, 0, DWS@);
    assert(pre.len() + 0 == pre.len());
    if i < pre.len() {
        assert(!lit_at(x, i, DWS@)) by {
            if i + 3 <= pre.len() {
                assert(x.subrange(i as int, (i + 3) as int) =~= pre.subrange(i as int, (i + 3) as int));
                assert(!lit_at(pre, i, DWS@));
            } else {
                assert(DWS@.len() == 3 && DWS@[0] == 'D' && DWS@[1] == 'W' && DWS@[2] == 'S');
                assert(s.subrange(0, 3) == DWS@);
                assert(s.subrange(0, 3)[0] == s[0]);
                assert(s[0] == 'D');
                assert(x[pre.len() as int] == s[0]);
                if lit_at(x, i, DWS@) {
                    let j = pre.len() - i;
                    assert(x.subrange(i as int, (i + 3) as int)[j] == x[pre.len() as int]);
                    assert(DWS@[j] != 'D');
                }
            }
        }
        lemma_find_skips_prefix(pre, s, i + 1);
    }
}

/// Everything before the first `DWS` is skipped unread: a block read from a
/// text that starts with `DWS` is read the same behind any text free of
/// `DWS`, its end moved by the length of that text.
pub proof fn lemma_text_before_first_dws_is_skipped(pre: Seq<char>, s: Seq<char>)
    requires
        lit_at(s, 0, DWS@),
        free_of_dws(pre),
    ensures
        block_at(pre + s, 0) == shift_val(block_at(s, 0), pre.len()),
{
    lemma_find_skips_prefix(pre, s, 0);
    lemma_find_skips_prefix(pre, s, pre.len());
    lemma_shift_block(pre, s, 0);
    assert(pre.len() + 0 == pre.len());
}

} // verus!
