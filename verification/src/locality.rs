//! Reading does not depend on what follows a field that ends inside the text:
//! the fields of a day line read from a text read the same from that text
//! with anything after it. The two-amount day line never reads its second
//! amount.

use vstd::prelude::*;

use crate::fields::{
    amount_line_at, closing_at, kind_at, tag_no_case_at,
    AmountSpan, Stop, BUSINESS_ABSENCE, CLOSING_A, CLOSING_B, CLOSING_PLAIN,
    EMPLOYEE_NOT_PRESENT, TERMINAL_ID, WORKING_FROM_HOME, WORKING_REMOTELY,
};
use crate::text::{
    blanks_at, char_at, fold, folds_to, in_class, lemma_run_end, lemma_width_mono,
    line_rest_at, lit_at, loose_no_case_at, no_case_at, run_end, utf8_width, width, Class,
};
use crate::lines::{
    amount_text, line_at, line_of, shape_layout, shape_tokens, tok_at, tokens_at, Field, Shape, Tok,
};
use crate::shift::{lemma_shift_amount_line, lemma_shift_tok, shift_span, shift_tok, span_ok};
use crate::{TimeLineView, TimeType};

verus! {

/// A run that stops inside `x` stops at the same place with anything after
/// `x`.
pub proof fn lemma_run_extends(kd: Class, x: Seq<char>, w: Seq<char>, p: nat)
    requires
        p <= x.len(),
        run_end(kd, x, p) < x.len(),
    ensures
        run_end(kd, x + w, p) == run_end(kd, x, p),
    decreases x.len() - p,
{
    assert((x + w)[p as int] == x[p as int]);
    if in_class(kd, x[p as int]) {
        lemma_run_extends(kd, x, w, p + 1);
    }
}

pub proof fn lemma_char_extends(x: Seq<char>, w: Seq<char>, p: nat, c: char)
    requires
        p < x.len(),
    ensures
        char_at(x + w, p, c) == char_at(x, p, c),
{
    assert((x + w)[p as int] == x[p as int]);
}

pub proof fn lemma_lit_extends(x: Seq<char>, w: Seq<char>, p: nat, t: Seq<char>)
    requires
        p + t.len() <= x.len(),
    ensures
        lit_at(x + w, p, t) == lit_at(x, p, t),
{
    assert((x + w).subrange(p as int, (p + t.len()) as int) =~= x.subrange(
        p as int,
        (p + t.len()) as int,
    ));
}

/// An amount line that reads all of `x` reads the same with anything after
/// `x`.
pub proof fn lemma_amount_line_extends(x: Seq<char>, w: Seq<char>)
    requires
        amount_line_at(x, 0) matches Some((e, _)) && e == x.len(),
    ensures
        amount_line_at(x + w, 0) == amount_line_at(x, 0),
{
    let b = blanks_at(x, 0);
    lemma_run_end(Class::Blank, x, 0);
    lemma_run_end(Class::Digit, x, b);
    let q = run_end(Class::Digit, x, b);
    lemma_run_extends(Class::Blank, x, w, 0);
    lemma_run_extends(Class::Digit, x, w, b);
    lemma_char_extends(x, w, q, ',');
    lemma_run_end(Class::Digit, x, q + 1);
    let e = run_end(Class::Digit, x, q + 1);
    lemma_run_extends(Class::Digit, x, w, q + 1);
    lemma_char_extends(x, w, e + 1, '\n');
}

/// A closing line that reads all of `x` reads the same with anything after
/// `x`.
pub proof fn lemma_closing_extends(x: Seq<char>, w: Seq<char>)
    requires
        closing_at(x, 0) == Some(x.len()),
    ensures
        closing_at(x + w, 0) == closing_at(x, 0),
{
    reveal_strlit("TZR \n");
    reveal_strlit("TZR A\n");
    reveal_strlit("TZR B\n");
    assert(CLOSING_PLAIN@.len() == 5 && CLOSING_A@.len() == 6 && CLOSING_B@.len() == 6);
    if lit_at(x, 0, CLOSING_PLAIN@) {
        lemma_lit_extends(x, w, 0, CLOSING_PLAIN@);
    } else if lit_at(x, 0, CLOSING_A@) {
        lemma_lit_extends(x, w, 0, CLOSING_PLAIN@);
        lemma_lit_extends(x, w, 0, CLOSING_A@);
    } else {
        lemma_lit_extends(x, w, 0, CLOSING_PLAIN@);
        lemma_lit_extends(x, w, 0, CLOSING_A@);
        lemma_lit_extends(x, w, 0, CLOSING_B@);
    }
}

/// A run that reaches the end of `x` stops there where `w` begins with a
/// character outside the class.
pub proof fn lemma_run_stops_at_join(kd: Class, x: Seq<char>, w: Seq<char>, p: nat)
    requires
        p <= x.len(),
        run_end(kd, x, p) == x.len(),
        w.len() > 0,
        !in_class(kd, w[0]),
    ensures
        run_end(kd, x + w, p) == x.len(),
    decreases x.len() - p,
{
    if p < x.len() {
        assert((x + w)[p as int] == x[p as int]);
        lemma_run_stops_at_join(kd, x, w, p + 1);
    } else {
        assert((x + w)[p as int] == w[0]);
    }
}

proof fn lemma_width_prefix(x: Seq<char>, w: Seq<char>, q: nat)
    requires
        q <= x.len(),
    ensures
        width(x + w, 0, q as int) == width(x, 0, q as int),
    decreases q,
{
    if q > 0 {
        assert((x + w)[q - 1] == x[q - 1]);
        lemma_width_prefix(x, w, (q - 1) as nat);
    }
}

proof fn lemma_folds_width(x: Seq<char>, t: Seq<char>, m: nat)
    requires
        m <= x.len(),
        m <= t.len(),
        forall|i: int| 0 <= i < m ==> folds_to(#[trigger] x[i], t[i]),
    ensures
        width(x, 0, m as int) >= width(t, 0, m as int),
    decreases m,
{
    if m > 0 {
        lemma_folds_width(x, t, (m - 1) as nat);
        assert(folds_to(x[m - 1], t[m - 1]));
        assert(utf8_width(x[m - 1]) >= utf8_width(t[m - 1]));
    }
}

/// No line feed in the text.
pub open spec fn no_newline(t: Seq<char>) -> bool {
    forall|i: int| 0 <= i < t.len() ==> #[trigger] t[i] != '\n'
}

/// A case-insensitive tag that does not trap on `x` reads the same on `x`
/// followed by a line feed and anything else.
pub proof fn lemma_tag_extends(x: Seq<char>, w: Seq<char>, t: Seq<char>)
    requires
        w.len() > 0,
        w[0] == '\n',
        no_newline(t),
        tag_no_case_at(x, 0, t) != Err::<nat, Stop>(Stop::Trap),
    ensures
        tag_no_case_at(x + w, 0, t) == tag_no_case_at(x, 0, t),
{
    let s = x + w;
    assert forall|i: int| 0 <= i < x.len() implies #[trigger] s[i] == x[i] by {}
    lemma_width_prefix(x, w, x.len());
    lemma_width_mono(s, 0, x.len() as int, s.len() as int);
    if loose_no_case_at(x, 0, t) {
        assert(no_case_at(x, 0, t));
        assert(no_case_at(s, 0, t)) by {
            assert forall|i: int| 0 <= i < t.len() implies fold(#[trigger] s[0 + i]) == fold(t[i]) by {
                assert(fold(x[0 + i]) == fold(t[i]));
            }
        }
        assert(loose_no_case_at(s, 0, t)) by {
            assert forall|i: int| 0 <= i < t.len() implies folds_to(#[trigger] s[0 + i], t[i]) by {
                assert(fold(x[0 + i]) == fold(t[i]));
            }
        }
    } else {
        let mx = if x.len() < t.len() { x.len() as int } else { t.len() as int };
        if exists|i: int| 0 <= i < mx && !folds_to(#[trigger] x[0 + i], t[i]) {
            let i = choose|i: int| 0 <= i < mx && !folds_to(#[trigger] x[0 + i], t[i]);
            assert(s[0 + i] == x[0 + i]);
            assert(!loose_no_case_at(s, 0, t));
        } else {
            assert forall|i: int| 0 <= i < mx implies folds_to(#[trigger] x[i], t[i]) by {
                assert(folds_to(x[0 + i], t[i]));
            }
            if x.len() >= t.len() {
                lemma_folds_width(x, t, t.len());
                lemma_width_mono(x, 0, t.len() as int, x.len() as int);
                assert(false);
            }
            let j = x.len() as int;
            assert(s[0 + j] == '\n');
            assert(t[j] != '\n');
            assert(!folds_to(s[0 + j], t[j]));
            assert(!loose_no_case_at(s, 0, t));
        }
    }
}

/// The labels hold no line feed, and the three that can follow
/// `Terminal-ID` in the search begin with other letters.
pub proof fn lemma_label_facts()
    ensures
        no_newline(BUSINESS_ABSENCE@),
        no_newline(WORKING_FROM_HOME@),
        no_newline(TERMINAL_ID@),
        no_newline(WORKING_REMOTELY@),
        no_newline(EMPLOYEE_NOT_PRESENT@),
        TERMINAL_ID@.len() == 11 && TERMINAL_ID@[0] == 'T',
        WORKING_REMOTELY@.len() == 16 && WORKING_REMOTELY@[0] == 'W',
        EMPLOYEE_NOT_PRESENT@.len() == 20 && EMPLOYEE_NOT_PRESENT@[0] == 'E',
{
    reveal_strlit("Business absence");
    reveal_strlit("Working from home");
    reveal_strlit("Terminal-ID");
    reveal_strlit("Working remotely");
    reveal_strlit("Employee not present");
}

/// A kind label that reads all of `x` reads the same on `x` followed by a
/// line feed and anything else.
pub proof fn lemma_kind_extends(x: Seq<char>, w: Seq<char>, k: TimeType)
    requires
        w.len() > 0,
        w[0] == '\n',
        kind_at(x, 0) == Ok::<(nat, TimeType), Stop>((x.len(), k)),
    ensures
        kind_at(x + w, 0) == kind_at(x, 0),
{
    lemma_label_facts();
    let s = x + w;
    let ba = tag_no_case_at(x, 0, BUSINESS_ABSENCE@);
    lemma_tag_extends(x, w, BUSINESS_ABSENCE@);
    if ba is Ok {
        return;
    }
    lemma_tag_extends(x, w, WORKING_FROM_HOME@);
    if tag_no_case_at(x, 0, WORKING_FROM_HOME@) is Ok {
        return;
    }
    let tid = tag_no_case_at(x, 0, TERMINAL_ID@);
    lemma_tag_extends(x, w, TERMINAL_ID@);
    match tid {
        Ok(q) => {
            match line_rest_at(x, q) {
                Some(e) => {
                    lemma_run_end(Class::Line, x, q);
                    lemma_run_stops_at_join(Class::Line, x, w, q);
                    assert(s[x.len() as int] == '\n');
                    return;
                },
                None => {
                    let i0: int = 0;
                    assert(no_case_at(x, 0, TERMINAL_ID@));
                    assert(fold(x[0 + i0]) == fold(TERMINAL_ID@[i0]));
                    assert(x.len() >= 11);
                    assert(!folds_to(x[0 + i0], WORKING_REMOTELY@[i0]));
                    assert(!folds_to(x[0 + i0], EMPLOYEE_NOT_PRESENT@[i0]));
                    assert(!loose_no_case_at(x, 0, WORKING_REMOTELY@));
                    assert(!loose_no_case_at(x, 0, EMPLOYEE_NOT_PRESENT@));
                    assert(false);
                },
            }
        },
        Err(_) => {},
    }
    lemma_tag_extends(x, w, WORKING_REMOTELY@);
    if tag_no_case_at(x, 0, WORKING_REMOTELY@) is Ok {
        return;
    }
    lemma_tag_extends(x, w, EMPLOYEE_NOT_PRESENT@);
}

/// Every character of `x` is of class `kd`.
pub open spec fn all_in(kd: Class, x: Seq<char>) -> bool {
    forall|i: int| 0 <= i < x.len() ==> #[trigger] in_class(kd, x[i])
}

/// A field read at `p` of `s` where the text `x` stands is the field read at
/// the start of `x` and what follows it, moved by `p`.
pub proof fn lemma_tok_piece(tk: Tok, s: Seq<char>, p: nat, x: Seq<char>)
    requires
        p + x.len() <= s.len(),
        s.subrange(p as int, (p + x.len()) as int) == x,
    ensures
        tok_at(tk, s, p) == shift_tok(tok_at(tk, x + s.skip((p + x.len()) as int), 0), p),
{
    let a = s.take(p as int);
    let t = s.skip(p as int);
    assert(a + t =~= s);
    assert(t =~= x + s.skip((p + x.len()) as int));
    lemma_shift_tok(tk, a, t, 0);
    assert(a.len() + 0 == p);
}

/// The head of a day over lines: the day number, the day name and the kind,
/// each on its own line.
pub open spec fn day_head(d: Seq<char>, a: Seq<char>, ty: Seq<char>) -> Seq<char> {
    d + seq!['\n'] + a + seq!['\n'] + ty + seq!['\n']
}

/// The line a day with two amounts gives: its day, its first amount as both
/// the hours and the hours after the pause, and its kind.
pub open spec fn two_amount_line(d: Seq<char>, a: Seq<char>, k: TimeType, n1: Seq<char>, sp1: AmountSpan) -> TimeLineView {
    TimeLineView {
        day: d + a,
        time: amount_text(n1, Field::Amount(sp1)),
        time_pause_deducted: amount_text(n1, Field::Amount(sp1)),
        time_type: k,
    }
}

/// The conditions under which the law below speaks of a day with two
/// amounts: digits, letters, a kind label read whole, two amount lines read
/// whole (the first of them `sp1`), and a closing line.
pub open spec fn two_amount_parts(
    d: Seq<char>,
    a: Seq<char>,
    ty: Seq<char>,
    k: TimeType,
    n1: Seq<char>,
    sp1: AmountSpan,
    n2: Seq<char>,
    z: Seq<char>,
) -> bool {
    &&& d.len() > 0 && all_in(Class::Digit, d)
    &&& a.len() > 0 && all_in(Class::Letter, a)
    &&& kind_at(ty, 0) == Ok::<(nat, TimeType), Stop>((ty.len(), k))
    &&& amount_line_at(n1, 0) == Some((n1.len(), sp1))
    &&& amount_line_at(n2, 0) matches Some((e, _)) && e == n2.len()
    &&& closing_at(z, 0) == Some(z.len())
}

/// One more field in front of fields already read.
proof fn lemma_tokens_step(
    toks: Seq<Tok>,
    s: Seq<char>,
    i: int,
    p: nat,
    q: nat,
    f: Field,
    e: nat,
    fs: Seq<Field>,
)
    requires
        0 <= i < toks.len(),
        tok_at(toks[i], s, p) == Ok::<(nat, Field), Stop>((q, f)),
        tokens_at(toks.skip(i + 1), s, q) == Ok::<(nat, Seq<Field>), Stop>((e, fs)),
    ensures
        tokens_at(toks.skip(i), s, p) == Ok::<(nat, Seq<Field>), Stop>((e, seq![f] + fs)),
{
    assert(toks.skip(i).drop_first() =~= toks.skip(i + 1));
    assert(toks.skip(i)[0] == toks[i]);
}

/// Fields read one after the other, each where the last ended, are read
/// together.
proof fn lemma_fields_chain(toks: Seq<Tok>, s: Seq<char>, ps: Seq<nat>, fs: Seq<Field>, i: int)
    requires
        ps.len() == toks.len() + 1,
        fs.len() == toks.len(),
        0 <= i <= toks.len(),
        forall|j: int|
            i <= j < toks.len() ==> tok_at(#[trigger] toks[j], s, ps[j]) == Ok::<(nat, Field), Stop>(
                (ps[j + 1], fs[j]),
            ),
    ensures
        tokens_at(toks.skip(i), s, ps[i]) == Ok::<(nat, Seq<Field>), Stop>(
            (ps[toks.len() as int], fs.skip(i)),
        ),
    decreases toks.len() - i,
{
    if i < toks.len() {
        lemma_fields_chain(toks, s, ps, fs, i + 1);
        assert(tok_at(toks[i], s, ps[i]) == Ok::<(nat, Field), Stop>((ps[i + 1], fs[i])));
        lemma_tokens_step(toks, s, i, ps[i], ps[i + 1], fs[i], ps[toks.len() as int], fs.skip(i + 1));
        assert(seq![fs[i]] + fs.skip(i + 1) =~= fs.skip(i));
    } else {
        assert(toks.skip(i) =~= Seq::<Tok>::empty());
        assert(fs.skip(i) =~= Seq::<Field>::empty());
    }
}

/// A run from `p` over characters of the class ends at the first one outside
/// it.
proof fn lemma_run_to(kd: Class, s: Seq<char>, p: nat, e: nat)
    requires
        p <= e < s.len(),
        forall|i: int| p <= i < e ==> #[trigger] in_class(kd, s[i]),
        !in_class(kd, s[e as int]),
    ensures
        run_end(kd, s, p) == e,
    decreases e - p,
{
    if p < e {
        assert(in_class(kd, s[p as int]));
        lemma_run_to(kd, s, p + 1, e);
    }
}

/// The text `x`, of one class, standing at `p` of `s` and followed by a line
/// feed, is a run of that class.
proof fn lemma_run_piece(kd: Class, s: Seq<char>, p: nat, x: Seq<char>)
    requires
        all_in(kd, x),
        p + x.len() < s.len(),
        s.subrange(p as int, (p + x.len()) as int) == x,
        s[(p + x.len()) as int] == '\n',
        !in_class(kd, '\n'),
    ensures
        run_end(kd, s, p) == p + x.len(),
{
    assert forall|i: int| p <= i < p + x.len() implies #[trigger] in_class(kd, s[i]) by {
        assert(s[i] == x[i - p]);
        assert(in_class(kd, x[i - p]));
    }
    lemma_run_to(kd, s, p, p + x.len());
}

/// A line feed at `p` reads as one.
proof fn lemma_newline_reads(s: Seq<char>, p: nat)
    requires
        p < s.len(),
        s[p as int] == '\n',
    ensures
        tok_at(Tok::Newline, s, p) == Ok::<(nat, Field), Stop>((p + 1, Field::Span(p, p + 1))),
{
}

/// The field `tk` read at `p` of `s` ends at `q` and gives `f`.
#[verifier::opaque]
spec fn field_read(tk: Tok, s: Seq<char>, p: nat, q: nat, f: Field) -> bool {
    tok_at(tk, s, p) == Ok::<(nat, Field), Stop>((q, f))
}

/// Where the parts of a day with two amounts stand in a text: the day number
/// `d`, the day name `a` and the kind label `ty`, each followed by a line
/// feed, then the amount lines `n1` and `n2` and the closing line `z`.
pub open spec fn two_amount_placed(
    s: Seq<char>,
    d: Seq<char>,
    a: Seq<char>,
    ty: Seq<char>,
    n1: Seq<char>,
    n2: Seq<char>,
    z: Seq<char>,
) -> bool {
    let p2 = d.len() + 1;
    let p3 = p2 + a.len();
    let p5 = p3 + 1 + ty.len();
    let q1 = p5 + 1;
    let q2 = q1 + n1.len();
    let q3 = q2 + n2.len();
    let e = q3 + z.len();
    &&& e <= s.len()
    &&& s.subrange(0, d.len() as int) == d
    &&& s[d.len() as int] == '\n'
    &&& s.subrange(p2 as int, p3 as int) == a
    &&& s[p3 as int] == '\n'
    &&& s.subrange((p3 + 1) as int, p5 as int) == ty
    &&& s[p5 as int] == '\n'
    &&& s.subrange(q1 as int, q2 as int) == n1
    &&& s.subrange(q2 as int, q3 as int) == n2
    &&& s.subrange(q3 as int, e as int) == z
}

/// The head of a day reads as the day number, the day name and the kind, each
/// followed by its line feed.
#[verifier::spinoff_prover]
proof fn lemma_head_reads(
    s: Seq<char>,
    d: Seq<char>,
    a: Seq<char>,
    ty: Seq<char>,
    k: TimeType,
    n1: Seq<char>,
    n2: Seq<char>,
    z: Seq<char>,
)
    requires
        two_amount_placed(s, d, a, ty, n1, n2, z),
        d.len() > 0 && all_in(Class::Digit, d),
        a.len() > 0 && all_in(Class::Letter, a),
        kind_at(ty, 0) == Ok::<(nat, TimeType), Stop>((ty.len(), k)),
    ensures
        ({
            let p2 = d.len() + 1;
            let p3 = p2 + a.len();
            let p5 = p3 + 1 + ty.len();
            &&& field_read(Tok::Digits, s, 0, d.len(), Field::Span(0, d.len()))
            &&& field_read(Tok::Newline, s, d.len(), p2, Field::Span(d.len(), p2))
            &&& field_read(Tok::Letters, s, p2, p3, Field::Span(p2, p3))
            &&& field_read(Tok::Newline, s, p3, p3 + 1, Field::Span(p3, p3 + 1))
            &&& field_read(Tok::Kind, s, p3 + 1, p5, Field::Kind(k))
            &&& field_read(Tok::Newline, s, p5, p5 + 1, Field::Span(p5, p5 + 1))
        }),
{
    reveal(field_read);
    let ld = d.len();
    let p2 = ld + 1;
    let p3 = p2 + a.len();
    let p4 = p3 + 1;
    let p5 = p4 + ty.len();
    lemma_run_piece(Class::Digit, s, 0, d);
    lemma_run_piece(Class::Letter, s, p2, a);
    lemma_newline_reads(s, ld);
    lemma_newline_reads(s, p3);
    lemma_newline_reads(s, p5);
    lemma_tok_piece(Tok::Kind, s, p4, ty);
    assert(s.skip(p5 as int).len() > 0 && s.skip(p5 as int)[0] == '\n');
    lemma_kind_extends(ty, s.skip(p5 as int), k);
}

/// Two amount lines and a closing line, standing at `q` of `s`, read whole.
#[verifier::spinoff_prover]
proof fn lemma_amounts_read(
    n1: Seq<char>,
    sp1: AmountSpan,
    n2: Seq<char>,
    sp2: AmountSpan,
    z: Seq<char>,
    s: Seq<char>,
    q: nat,
)
    requires
        amount_line_at(n1, 0) == Some((n1.len(), sp1)),
        amount_line_at(n2, 0) == Some((n2.len(), sp2)),
        closing_at(z, 0) == Some(z.len()),
        q + n1.len() + n2.len() + z.len() <= s.len(),
        s.subrange(q as int, (q + n1.len()) as int) == n1,
        s.subrange((q + n1.len()) as int, (q + n1.len() + n2.len()) as int) == n2,
        s.subrange((q + n1.len() + n2.len()) as int, (q + n1.len() + n2.len() + z.len()) as int) == z,
    ensures
        ({
            let q2 = q + n1.len();
            let q3 = q2 + n2.len();
            let e = q3 + z.len();
            &&& field_read(Tok::AmountLine, s, q, q2, Field::Amount(shift_span(sp1, q)))
            &&& field_read(Tok::AmountLine, s, q2, q3, Field::Amount(shift_span(sp2, q2)))
            &&& field_read(Tok::Closing, s, q3, e, Field::Span(q3, e))
            &&& span_ok(sp1, 0, n1.len())
        }),
{
    lemma_shift_amount_line(seq![], n1, 0);
    let q2 = q + n1.len();
    let q3 = q2 + n2.len();
    assert(s.subrange(q2 as int, (q2 + n2.len()) as int) == n2);
    assert(s.subrange(q3 as int, (q3 + z.len()) as int) == z);
    lemma_amount_line_reads(n1, sp1, s, q);
    lemma_amount_line_reads(n2, sp2, s, q2);
    lemma_closing_reads(z, s, q3);
}

/// An amount line read whole from `n`, standing at `q` of `s`, reads the same
/// there.
proof fn lemma_amount_line_reads(n: Seq<char>, sp: AmountSpan, s: Seq<char>, q: nat)
    requires
        amount_line_at(n, 0) == Some((n.len(), sp)),
        q + n.len() <= s.len(),
        s.subrange(q as int, (q + n.len()) as int) == n,
    ensures
        field_read(Tok::AmountLine, s, q, q + n.len(), Field::Amount(shift_span(sp, q))),
{
    reveal(field_read);
    lemma_tok_piece(Tok::AmountLine, s, q, n);
    lemma_amount_line_extends(n, s.skip((q + n.len()) as int));
}

/// A closing line read whole from `z`, standing at `q` of `s`, reads the same
/// there.
proof fn lemma_closing_reads(z: Seq<char>, s: Seq<char>, q: nat)
    requires
        closing_at(z, 0) == Some(z.len()),
        q + z.len() <= s.len(),
        s.subrange(q as int, (q + z.len()) as int) == z,
    ensures
        field_read(Tok::Closing, s, q, q + z.len(), Field::Span(q, q + z.len())),
{
    reveal(field_read);
    lemma_tok_piece(Tok::Closing, s, q, z);
    lemma_closing_extends(z, s.skip((q + z.len()) as int));
}

/// A text in which the parts of a day with two amounts stand in order reads
/// as the line of that day, up to the end of its closing line.
#[verifier::spinoff_prover]
proof fn lemma_two_amount_text_reads(
    s: Seq<char>,
    d: Seq<char>,
    a: Seq<char>,
    ty: Seq<char>,
    k: TimeType,
    n1: Seq<char>,
    sp1: AmountSpan,
    n2: Seq<char>,
    z: Seq<char>,
)
    requires
        two_amount_parts(d, a, ty, k, n1, sp1, n2, z),
        two_amount_placed(s, d, a, ty, n1, n2, z),
    ensures
        line_at(Shape::Timeline00, s, 0) == Ok::<(nat, TimeLineView), Stop>(
            (
                day_head(d, a, ty).len() + n1.len() + n2.len() + z.len(),
                two_amount_line(d, a, k, n1, sp1),
            ),
        ),
{
    let q1 = d.len() + a.len() + ty.len() + 3;
    let q2 = q1 + n1.len();
    let q3 = q2 + n2.len();
    let e = q3 + z.len();
    lemma_head_reads(s, d, a, ty, k, n1, n2, z);
    let sp2 = amount_line_at(n2, 0)->Some_0.1;
    lemma_amounts_read(n1, sp1, n2, sp2, z, s, q1);
    lemma_two_amount_finish(d, a, k, n1, sp1, s, q1, q2, q3, e, Field::Amount(shift_span(sp2, q2)));
}

/// Where the parts of a day with two amounts stand in its text.
#[verifier::spinoff_prover]
proof fn lemma_two_amount_places(
    d: Seq<char>,
    a: Seq<char>,
    ty: Seq<char>,
    n1: Seq<char>,
    n2: Seq<char>,
    z: Seq<char>,
    rest: Seq<char>,
)
    ensures
        two_amount_placed(day_head(d, a, ty) + n1 + n2 + z + rest, d, a, ty, n1, n2, z),
        (day_head(d, a, ty) + n1 + n2 + z + rest).skip(
            (day_head(d, a, ty).len() + n1.len() + n2.len() + z.len()) as int,
        ) == rest,
{
    let h = day_head(d, a, ty);
    let s = h + n1 + n2 + z + rest;
    let p2 = d.len() + 1;
    let p3 = p2 + a.len();
    let p5 = p3 + 1 + ty.len();
    let q1 = h.len();
    let q2 = q1 + n1.len();
    let q3 = q2 + n2.len();
    let e = q3 + z.len();
    assert(q1 == p5 + 1);
    assert(s.subrange(0, d.len() as int) =~= d);
    assert(s.subrange(p2 as int, p3 as int) =~= a);
    assert(s.subrange((p3 + 1) as int, p5 as int) =~= ty);
    assert(s[d.len() as int] == '\n' && s[p3 as int] == '\n' && s[p5 as int] == '\n');
    assert(s.subrange(q1 as int, q2 as int) =~= n1);
    assert(s.subrange(q2 as int, q3 as int) =~= n2);
    assert(s.subrange(q3 as int, e as int) =~= z);
    assert(s.skip(e as int) =~= rest);
}

/// A text whose nine fields read as those of a day with two amounts reads as
/// the line of that day.
#[verifier::spinoff_prover]
proof fn lemma_two_amount_finish(
    d: Seq<char>,
    a: Seq<char>,
    k: TimeType,
    n1: Seq<char>,
    sp1: AmountSpan,
    s: Seq<char>,
    q1: nat,
    q2: nat,
    q3: nat,
    e: nat,
    f7: Field,
)
    requires
        d.len() + 1 + a.len() + 2 <= q1,
        q1 + n1.len() <= s.len(),
        s.subrange(0, d.len() as int) == d,
        s.subrange((d.len() + 1) as int, (d.len() + 1 + a.len()) as int) == a,
        s.subrange(q1 as int, (q1 + n1.len()) as int) == n1,
        span_ok(sp1, 0, n1.len()),
        field_read(Tok::Digits, s, 0, d.len(), Field::Span(0, d.len())),
        field_read(Tok::Newline, s, d.len(), d.len() + 1, Field::Span(d.len(), d.len() + 1)),
        field_read(Tok::Letters, s, d.len() + 1, d.len() + 1 + a.len(), Field::Span(d.len() + 1, d.len() + 1 + a.len())),
        field_read(Tok::Newline, s, d.len() + 1 + a.len(), d.len() + 2 + a.len(), Field::Span(d.len() + 1 + a.len(), d.len() + 2 + a.len())),
        field_read(Tok::Kind, s, d.len() + 2 + a.len(), (q1 - 1) as nat, Field::Kind(k)),
        field_read(Tok::Newline, s, (q1 - 1) as nat, q1, Field::Span((q1 - 1) as nat, q1)),
        field_read(Tok::AmountLine, s, q1, q2, Field::Amount(shift_span(sp1, q1))),
        field_read(Tok::AmountLine, s, q2, q3, f7),
        field_read(Tok::Closing, s, q3, e, Field::Span(q3, e)),
    ensures
        line_at(Shape::Timeline00, s, 0) == Ok::<(nat, TimeLineView), Stop>(
            (e, two_amount_line(d, a, k, n1, sp1)),
        ),
{
    let ld = d.len();
    let p2 = ld + 1;
    let p3 = p2 + a.len();
    let p4 = p3 + 1;
    let p5 = (q1 - 1) as nat;
    let ps = seq![0, ld, p2, p3, p4, p5, q1, q2, q3, e];
    let fs = seq![
        Field::Span(0, ld),
        Field::Span(ld, p2),
        Field::Span(p2, p3),
        Field::Span(p3, p4),
        Field::Kind(k),
        Field::Span(p5, q1),
        Field::Amount(shift_span(sp1, q1)),
        f7,
        Field::Span(q3, e),
    ];
    assert(ps[0] == 0 && ps[1] == ld && ps[2] == p2 && ps[3] == p3 && ps[4] == p4);
    assert(ps[5] == p5 && ps[6] == q1 && ps[7] == q2 && ps[8] == q3 && ps[9] == e);
    lemma_nine_fields(s, ps, fs);
    lemma_two_amount_layout(d, a, k, n1, sp1, s, q1, fs);
}

/// The nine fields of a day with two amounts, read one after the other, are
/// read together.
#[verifier::rlimit(100)]
#[verifier::spinoff_prover]
proof fn lemma_nine_fields(s: Seq<char>, ps: Seq<nat>, fs: Seq<Field>)
    requires
        ps.len() == 10,
        fs.len() == 9,
        field_read(Tok::Digits, s, ps[0], ps[1], fs[0]),
        field_read(Tok::Newline, s, ps[1], ps[2], fs[1]),
        field_read(Tok::Letters, s, ps[2], ps[3], fs[2]),
        field_read(Tok::Newline, s, ps[3], ps[4], fs[3]),
        field_read(Tok::Kind, s, ps[4], ps[5], fs[4]),
        field_read(Tok::Newline, s, ps[5], ps[6], fs[5]),
        field_read(Tok::AmountLine, s, ps[6], ps[7], fs[6]),
        field_read(Tok::AmountLine, s, ps[7], ps[8], fs[7]),
        field_read(Tok::Closing, s, ps[8], ps[9], fs[8]),
    ensures
        tokens_at(shape_tokens(Shape::Timeline00), s, ps[0]) == Ok::<(nat, Seq<Field>), Stop>(
            (ps[9], fs),
        ),
{
    reveal(field_read);
    let toks = shape_tokens(Shape::Timeline00);
    assert(toks.len() == 9);
    assert(toks[0] == Tok::Digits && toks[1] == Tok::Newline && toks[2] == Tok::Letters);
    assert(toks[3] == Tok::Newline && toks[4] == Tok::Kind && toks[5] == Tok::Newline);
    assert(toks[6] == Tok::AmountLine && toks[7] == Tok::AmountLine && toks[8] == Tok::Closing);
    lemma_fields_chain(toks, s, ps, fs, 0);
    assert(toks.skip(0) =~= toks);
    assert(fs.skip(0) =~= fs);
}

/// What the layout of a day with two amounts takes from its fields.
#[verifier::spinoff_prover]
proof fn lemma_two_amount_layout(
    d: Seq<char>,
    a: Seq<char>,
    k: TimeType,
    n1: Seq<char>,
    sp1: AmountSpan,
    s: Seq<char>,
    q1: nat,
    fs: Seq<Field>,
)
    requires
        d.len() + 1 + a.len() <= s.len(),
        q1 + n1.len() <= s.len(),
        s.subrange(0, d.len() as int) == d,
        s.subrange((d.len() + 1) as int, (d.len() + 1 + a.len()) as int) == a,
        s.subrange(q1 as int, (q1 + n1.len()) as int) == n1,
        span_ok(sp1, 0, n1.len()),
        fs.len() == 9,
        fs[0] == Field::Span(0, d.len()),
        fs[2] == Field::Span(d.len() + 1, d.len() + 1 + a.len()),
        fs[4] == Field::Kind(k),
        fs[6] == Field::Amount(shift_span(sp1, q1)),
    ensures
        line_of(shape_layout(Shape::Timeline00), s, fs) == two_amount_line(d, a, k, n1, sp1),
{
    assert(s.subrange((q1 + sp1.int_start) as int, (q1 + sp1.int_end) as int) =~= n1.subrange(
        sp1.int_start as int,
        sp1.int_end as int,
    ));
    assert(s.subrange((q1 + sp1.frac_start) as int, (q1 + sp1.frac_end) as int) =~= n1.subrange(
        sp1.frac_start as int,
        sp1.frac_end as int,
    ));
}

/// The second amount of a day with two amounts never changes what is read:
/// with either second amount line, the day reads the same line (its first
/// amount as both hours) and ends before the same rest.
pub proof fn lemma_second_amount_never_read(
    d: Seq<char>,
    a: Seq<char>,
    ty: Seq<char>,
    k: TimeType,
    n1: Seq<char>,
    sp1: AmountSpan,
    n2: Seq<char>,
    n2b: Seq<char>,
    z: Seq<char>,
    rest: Seq<char>,
)
    requires
        two_amount_parts(d, a, ty, k, n1, sp1, n2, z),
        two_amount_parts(d, a, ty, k, n1, sp1, n2b, z),
    ensures
        line_at(Shape::Timeline00, day_head(d, a, ty) + n1 + n2 + z + rest, 0) matches Ok((e, l))
            && (day_head(d, a, ty) + n1 + n2 + z + rest).skip(e as int) == rest
            && l == two_amount_line(d, a, k, n1, sp1),
        line_at(Shape::Timeline00, day_head(d, a, ty) + n1 + n2b + z + rest, 0) matches Ok((e, l))
            && (day_head(d, a, ty) + n1 + n2b + z + rest).skip(e as int) == rest
            && l == two_amount_line(d, a, k, n1, sp1),
{
    lemma_two_amount_places(d, a, ty, n1, n2, z, rest);
    lemma_two_amount_places(d, a, ty, n1, n2b, z, rest);
    lemma_two_amount_text_reads(day_head(d, a, ty) + n1 + n2 + z + rest, d, a, ty, k, n1, sp1, n2, z);
    lemma_two_amount_text_reads(day_head(d, a, ty) + n1 + n2b + z + rest, d, a, ty, k, n1, sp1, n2b, z);
}

} // verus!
