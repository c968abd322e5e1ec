//! Character-level scanning of a statement held as a sequence of `char`s.
//!
//! Every scanner starts at a position `p` of the whole text `s` and, when it
//! matches, reports the position just past what it consumed.

use vstd::prelude::*;
use vstd::string::*;

verus! {

/// The kinds of character that the scanners take runs of.
#[derive(Clone, Copy)]
pub enum Class {
    /// ASCII decimal digit.
    Digit,
    /// ASCII letter.
    Letter,
    /// Space or tab.
    Blank,
    /// Anything but space, tab or `|`.
    Word,
    /// Anything but a carriage return or a line feed.
    Line,
}

pub open spec fn in_class(k: Class, c: char) -> bool {
    match k {
        Class::Digit => '0' <= c && c <= '9',
        Class::Letter => ('a' <= c && c <= 'z') || ('A' <= c && c <= 'Z'),
        Class::Blank => c == ' ' || c == '\t',
        Class::Word => !(c == ' ' || c == '\t' || c == '|'),
        Class::Line => !(c == '\r' || c == '\n'),
    }
}

/// The end of the longest run of characters of class `k` that starts at `p`.
pub open spec fn run_end(k: Class, s: Seq<char>, p: nat) -> nat
    decreases s.len() - p,
{
    if p < s.len() && in_class(k, s[p as int]) {
        run_end(k, s, p + 1)
    } else {
        p
    }
}

pub proof fn lemma_run_end(k: Class, s: Seq<char>, p: nat)
    requires
        p <= s.len(),
    ensures
        p <= run_end(k, s, p) <= s.len(),
        forall|i: int| p <= i < run_end(k, s, p) ==> #[trigger] in_class(k, s[i]),
        run_end(k, s, p) < s.len() ==> !in_class(k, s[run_end(k, s, p) as int]),
    decreases s.len() - p,
{
    if p < s.len() && in_class(k, s[p as int]) {
        lemma_run_end(k, s, p + 1);
    }
}

/// An executable end position that stands for the given spec one.
pub open spec fn same_end(r: Option<usize>, e: Option<nat>) -> bool {
    match (r, e) {
        (Some(a), Some(b)) => a == b,
        (None, None) => true,
        _ => false,
    }
}

/// One or more ASCII digits.
pub open spec fn digits_at(s: Seq<char>, p: nat) -> Option<nat> {
    let e = run_end(Class::Digit, s, p);
    if e > p { Some(e) } else { None }
}

/// One or more ASCII letters.
pub open spec fn letters_at(s: Seq<char>, p: nat) -> Option<nat> {
    let e = run_end(Class::Letter, s, p);
    if e > p { Some(e) } else { None }
}

/// One or more characters other than space, tab and `|`.
pub open spec fn word_at(s: Seq<char>, p: nat) -> Option<nat> {
    let e = run_end(Class::Word, s, p);
    if e > p { Some(e) } else { None }
}

/// Zero or more spaces and tabs.
pub open spec fn blanks_at(s: Seq<char>, p: nat) -> nat {
    run_end(Class::Blank, s, p)
}

/// The character `c` stands at `p`.
pub open spec fn char_at(s: Seq<char>, p: nat, c: char) -> bool {
    p < s.len() && s[p as int] == c
}

/// The text `t` stands at `p`.
pub open spec fn lit_at(s: Seq<char>, p: nat, t: Seq<char>) -> bool {
    p + t.len() <= s.len() && s.subrange(p as int, (p + t.len()) as int) == t
}

/// The rest of the line: everything up to the first carriage return or line
/// feed (or to the end). A carriage return that is not followed by a line feed
/// is refused.
pub open spec fn line_rest_at(s: Seq<char>, p: nat) -> Option<nat> {
    let q = run_end(Class::Line, s, p);
    if q < s.len() && s[q as int] == '\r' && !(q + 1 < s.len() && s[(q + 1) as int] == '\n') {
        None
    } else {
        Some(q)
    }
}

/// The first position at or after `p` where `t` stands.
pub open spec fn find_at(s: Seq<char>, p: nat, t: Seq<char>) -> Option<nat>
    decreases s.len() + 1 - p,
{
    if p + t.len() > s.len() {
        None
    } else if lit_at(s, p, t) {
        Some(p)
    } else {
        find_at(s, p + 1, t)
    }
}

pub proof fn lemma_find_at(s: Seq<char>, p: nat, t: Seq<char>)
    ensures
        find_at(s, p, t) matches Some(q) ==> p <= q && q + t.len() <= s.len() && lit_at(s, q, t),
    decreases s.len() + 1 - p,
{
    if p + t.len() > s.len() {
    } else if lit_at(s, p, t) {
    } else {
        lemma_find_at(s, p + 1, t);
    }
}

/// The value of the decimal digits `s[a..b]`.
pub open spec fn digits_value(s: Seq<char>, a: int, b: int) -> nat
    decreases b - a,
{
    if b <= a {
        0
    } else {
        digits_value(s, a, b - 1) * 10 + digit_of(s[b - 1])
    }
}

pub open spec fn digit_of(c: char) -> nat {
    if '0' <= c && c <= '9' {
        (c as int - 48) as nat
    } else {
        0
    }
}

/// ASCII upper-case letters folded to lower case; every other character kept.
pub open spec fn fold(c: char) -> int {
    let n = c as int;
    if 65 <= n && n <= 90 {
        n + 32
    } else {
        n
    }
}

/// U+212A KELVIN SIGN, the one character outside ASCII whose lower case is an
/// ASCII letter (`k`).
pub open spec fn is_kelvin(c: char) -> bool {
    c as int == 0x212A
}

/// Equal once lower-cased, character for character.
pub open spec fn folds_to(c: char, a: char) -> bool {
    fold(c) == fold(a) || (is_kelvin(c) && fold(a) == 107)
}

/// The number of bytes of `c` in UTF-8.
pub open spec fn utf8_width(c: char) -> nat {
    let n = c as int;
    if n < 0x80 {
        1
    } else if n < 0x800 {
        2
    } else if n < 0x10000 {
        3
    } else {
        4
    }
}

/// The number of bytes of `s[p..q]` in UTF-8.
pub open spec fn width(s: Seq<char>, p: int, q: int) -> nat
    decreases q - p,
{
    if q <= p {
        0
    } else {
        width(s, p, q - 1) + utf8_width(s[q - 1])
    }
}

pub proof fn lemma_width_mono(s: Seq<char>, p: int, q: int, r: int)
    requires
        p <= q <= r,
    ensures
        width(s, p, q) <= width(s, p, r),
    decreases r - q,
{
    if q < r {
        lemma_width_mono(s, p, q, r - 1);
    }
}

/// `t` matches at `p` letter for letter, ASCII case folded.
pub open spec fn no_case_at(s: Seq<char>, p: nat, t: Seq<char>) -> bool {
    &&& p + t.len() <= s.len()
    &&& forall|i: int| 0 <= i < t.len() ==> fold(#[trigger] s[p + i]) == fold(t[i])
}

/// What a case-insensitive tag accepts on a `&str`: the lower-cased characters
/// agree on as many characters as both texts have, and the input holds at least
/// as many UTF-8 bytes as the tag. Through the Kelvin sign this accepts texts
/// that `no_case_at` does not.
pub open spec fn loose_no_case_at(s: Seq<char>, p: nat, t: Seq<char>) -> bool {
    let m = if s.len() - p < t.len() { s.len() - p } else { t.len() as int };
    &&& forall|i: int| 0 <= i < m ==> folds_to(#[trigger] s[p + i], t[i])
    &&& width(s, p as int, s.len() as int) >= width(t, 0, t.len() as int)
}

pub fn in_class_exec(k: Class, c: char) -> (b: bool)
    ensures
        b == in_class(k, c),
{
    match k {
        Class::Digit => '0' <= c && c <= '9',
        Class::Letter => ('a' <= c && c <= 'z') || ('A' <= c && c <= 'Z'),
        Class::Blank => c == ' ' || c == '\t',
        Class::Word => !(c == ' ' || c == '\t' || c == '|'),
        Class::Line => !(c == '\r' || c == '\n'),
    }
}

pub fn run_end_exec(k: Class, s: &Vec<char>, p: usize) -> (e: usize)
    requires
        p <= s.len(),
    ensures
        e == run_end(k, s@, p as nat),
{
    let mut q = p;
    while q < s.len() && in_class_exec(k, s[q])
        invariant
            p <= q <= s.len(),
            run_end(k, s@, p as nat) == run_end(k, s@, q as nat),
        decreases s.len() - q,
    {
        q += 1;
    }
    q
}

pub fn digits_exec(s: &Vec<char>, p: usize) -> (r: Option<usize>)
    requires
        p <= s.len(),
    ensures
        same_end(r, digits_at(s@, p as nat)),
        r matches Some(e) ==> p < e <= s.len(),
{
    proof {
        lemma_run_end(Class::Digit, s@, p as nat);
    }
    let e = run_end_exec(Class::Digit, s, p);
    if e > p {
        Some(e)
    } else {
        None
    }
}

pub fn letters_exec(s: &Vec<char>, p: usize) -> (r: Option<usize>)
    requires
        p <= s.len(),
    ensures
        same_end(r, letters_at(s@, p as nat)),
        r matches Some(e) ==> p < e <= s.len(),
{
    proof {
        lemma_run_end(Class::Letter, s@, p as nat);
    }
    let e = run_end_exec(Class::Letter, s, p);
    if e > p {
        Some(e)
    } else {
        None
    }
}

pub fn word_exec(s: &Vec<char>, p: usize) -> (r: Option<usize>)
    requires
        p <= s.len(),
    ensures
        same_end(r, word_at(s@, p as nat)),
        r matches Some(e) ==> p < e <= s.len(),
{
    proof {
        lemma_run_end(Class::Word, s@, p as nat);
    }
    let e = run_end_exec(Class::Word, s, p);
    if e > p {
        Some(e)
    } else {
        None
    }
}

pub fn blanks_exec(s: &Vec<char>, p: usize) -> (e: usize)
    requires
        p <= s.len(),
    ensures
        e == blanks_at(s@, p as nat),
        p <= e <= s.len(),
{
    proof {
        lemma_run_end(Class::Blank, s@, p as nat);
    }
    run_end_exec(Class::Blank, s, p)
}

pub fn char_exec(s: &Vec<char>, p: usize, c: char) -> (b: bool)
    ensures
        b == char_at(s@, p as nat, c),
{
    p < s.len() && s[p] == c
}

pub fn lit_exec(s: &Vec<char>, p: usize, t: &str) -> (b: bool)
    requires
        p <= s.len(),
    ensures
        b == lit_at(s@, p as nat, t@),
{
    let n = t.unicode_len();
    if n > s.len() - p {
        return false;
    }
    let mut i: usize = 0;
    while i < n
        invariant
            n == t@.len(),
            p + n <= s.len(),
            i <= n,
            forall|j: int| 0 <= j < i ==> s@[p + j] == t@[j],
        decreases n - i,
    {
        if s[p + i] != t.get_char(i) {
            assert(s@.subrange(p as int, p + n)[i as int] != t@[i as int]);
            return false;
        }
        i += 1;
    }
    assert(s@.subrange(p as int, p + n) =~= t@);
    true
}

pub fn line_rest_exec(s: &Vec<char>, p: usize) -> (r: Option<usize>)
    requires
        p <= s.len(),
    ensures
        same_end(r, line_rest_at(s@, p as nat)),
        r matches Some(e) ==> p <= e <= s.len(),
{
    proof {
        lemma_run_end(Class::Line, s@, p as nat);
    }
    let q = run_end_exec(Class::Line, s, p);
    if q < s.len() && s[q] == '\r' && !(q + 1 < s.len() && s[q + 1] == '\n') {
        None
    } else {
        Some(q)
    }
}

pub fn find_exec(s: &Vec<char>, p: usize, t: &str) -> (r: Option<usize>)
    requires
        p <= s.len(),
    ensures
        same_end(r, find_at(s@, p as nat, t@)),
        r matches Some(q) ==> p <= q && q + t@.len() <= s.len(),
{
    proof {
        lemma_find_at(s@, p as nat, t@);
    }
    let n = t.unicode_len();
    let mut q = p;
    while q <= s.len() && n <= s.len() - q
        invariant
            p <= q,
            n == t@.len(),
            find_at(s@, p as nat, t@) == find_at(s@, q as nat, t@),
        decreases s.len() + 1 - q,
    {
        if lit_exec(s, q, t) {
            return Some(q);
        }
        if q == s.len() {
            assert(find_at(s@, (q + 1) as nat, t@) is None);
            return None;
        }
        q += 1;
    }
    None
}

/// The value of the digits `s[a..b]`, or 1000 where it is larger.
pub fn digits_value_capped(s: &Vec<char>, a: usize, b: usize) -> (v: u32)
    requires
        a <= b <= s.len(),
    ensures
        v == if digits_value(s@, a as int, b as int) < 1000 {
            digits_value(s@, a as int, b as int)
        } else {
            1000
        },
{
    let mut v: u32 = 0;
    let mut i = a;
    while i < b
        invariant
            a <= i <= b <= s.len(),
            v == if digits_value(s@, a as int, i as int) < 1000 {
                digits_value(s@, a as int, i as int)
            } else {
                1000
            },
        decreases b - i,
    {
        let c = s[i];
        let d: u32 = if '0' <= c && c <= '9' { (c as u32) - 48 } else { 0 };
        assert(d == digit_of(s@[i as int]));
        if v < 1000 {
            let w = v * 10 + d;
            v = if w < 1000 { w } else { 1000 };
        }
        i += 1;
    }
    v
}

pub fn fold_exec(c: char) -> (r: u32)
    ensures
        r == fold(c),
{
    let n = c as u32;
    if 65 <= n && n <= 90 {
        n + 32
    } else {
        n
    }
}

pub fn utf8_width_exec(c: char) -> (w: usize)
    ensures
        w == utf8_width(c),
        1 <= w <= 4,
{
    let n = c as u32;
    if n < 0x80 {
        1
    } else if n < 0x800 {
        2
    } else if n < 0x10000 {
        3
    } else {
        4
    }
}

/// Whether `s[p..]` holds at least `need` bytes in UTF-8.
fn width_at_least(s: &Vec<char>, p: usize, need: u128) -> (b: bool)
    requires
        p <= s.len(),
    ensures
        b == (width(s@, p as int, s.len() as int) >= need),
{
    let mut acc: u128 = 0;
    let mut q = p;
    while q < s.len() && acc < need
        invariant
            p <= q <= s.len(),
            acc == width(s@, p as int, q as int),
            acc <= 4 * (q - p),
        decreases s.len() - q,
    {
        acc = acc + utf8_width_exec(s[q]) as u128;
        q += 1;
    }
    proof {
        lemma_width_mono(s@, p as int, q as int, s.len() as int);
    }
    acc >= need
}

/// The number of UTF-8 bytes of `t`.
fn str_width(t: &str) -> (w: u128)
    ensures
        w == width(t@, 0, t@.len() as int),
{
    let n = t.unicode_len();
    let mut acc: u128 = 0;
    let mut i: usize = 0;
    while i < n
        invariant
            n == t@.len(),
            i <= n,
            acc == width(t@, 0, i as int),
            acc <= 4 * i,
        decreases n - i,
    {
        let w = utf8_width_exec(t.get_char(i));
        acc = acc + w as u128;
        i += 1;
    }
    acc
}

/// Reports `(loose_no_case_at(..), no_case_at(..))` for `t` at `p`.
pub fn no_case_exec(s: &Vec<char>, p: usize, t: &str) -> (r: (bool, bool))
    requires
        p <= s.len(),
    ensures
        r.0 == loose_no_case_at(s@, p as nat, t@),
        r.1 == no_case_at(s@, p as nat, t@),
{
    let n = t.unicode_len();
    let avail = s.len() - p;
    let m = if avail < n { avail } else { n };
    let mut strict = true;
    let mut i: usize = 0;
    while i < m
        invariant
            n == t@.len(),
            avail == s.len() - p,
            m == if avail < n { avail } else { n },
            i <= m,
            forall|j: int| 0 <= j < i ==> folds_to(#[trigger] s@[p + j], t@[j]),
            strict == (forall|j: int| 0 <= j < i ==> fold(#[trigger] s@[p + j]) == fold(t@[j])),
        decreases m - i,
    {
        let c = s[p + i];
        let a = t.get_char(i);
        let fc = fold_exec(c);
        let fa = fold_exec(a);
        if fc != fa && !(c as u32 == 0x212A && fa == 107) {
            assert(!folds_to(s@[p + i], t@[i as int]));
            proof {
                if no_case_at(s@, p as nat, t@) {
                    assert(fold(s@[p + i]) == fold(t@[i as int]));
                }
            }
            return (false, false);
        }
        if fc != fa {
            strict = false;
        }
        i += 1;
    }
    let clean = strict && m == n;
    proof {
        if no_case_at(s@, p as nat, t@) {
            assert(m == n);
            assert forall|j: int| 0 <= j < i implies fold(#[trigger] s@[p + j]) == fold(t@[j]) by {
                assert(fold(s@[p + j]) == fold(t@[j]));
            }
        }
    }
    let need = str_width(t);
    let loose = width_at_least(s, p, need);
    (loose, clean)
}

} // verus!
