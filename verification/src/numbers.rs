//! The textual grammar of floating-point literals accepted by `f64::from_str`,
//! and comparisons of `f64` values carried as their IEEE-754 bit patterns.
use vstd::prelude::*;
use crate::text::{
    eq_ignore_case, find_char, find_char_from, is_digit, is_digit_char, seq_eq_ignore_case,
    slice_chars, chars_of,
};

verus! {

pub open spec fn all_digits(s: Seq<char>) -> bool {
    forall|i: int| 0 <= i < s.len() ==> is_digit(#[trigger] s[i])
}

/// Index of the first exponent marker (`e` or `E`), or the length.
pub open spec fn exp_index(s: Seq<char>, i: int) -> int
    decreases s.len() - i,
{
    if i >= s.len() {
        s.len() as int
    } else if s[i] == 'e' || s[i] == 'E' {
        i
    } else {
        exp_index(s, i + 1)
    }
}

/// `Digit+ | Digit+ '.' Digit* | Digit* '.' Digit+`
pub open spec fn mantissa(s: Seq<char>) -> bool {
    let d = find_char_from(s, 0, '.');
    if d >= s.len() {
        s.len() > 0 && all_digits(s)
    } else {
        all_digits(s.subrange(0, d)) && all_digits(s.subrange(d + 1, s.len() as int)) && (d > 0
            || s.len() - d - 1 > 0)
    }
}

pub open spec fn is_sign(c: char) -> bool {
    c == '+' || c == '-'
}

/// `Sign? Digit+`
pub open spec fn exponent_digits(s: Seq<char>) -> bool {
    if s.len() > 0 && is_sign(s[0]) {
        s.len() > 1 && all_digits(s.drop_first())
    } else {
        s.len() > 0 && all_digits(s)
    }
}

/// `Number ::= Mantissa Exp?` where `Exp ::= ('e'|'E') Sign? Digit+`.
pub open spec fn number_literal(s: Seq<char>) -> bool {
    let e = exp_index(s, 0);
    if e >= s.len() {
        mantissa(s)
    } else {
        0 <= e && mantissa(s.subrange(0, e)) && exponent_digits(s.subrange(e + 1, s.len() as int))
    }
}

/// The strings that `str::parse::<f64>` accepts: an optional sign followed
/// by `inf`, `infinity`, `nan` (any letter case) or a decimal number.
pub open spec fn float_literal(s: Seq<char>) -> bool {
    let b = if s.len() > 0 && is_sign(s[0]) {
        s.drop_first()
    } else {
        s
    };
    eq_ignore_case(b, "inf"@) || eq_ignore_case(b, "infinity"@) || eq_ignore_case(b, "nan"@)
        || number_literal(b)
}

proof fn lemma_exp_index(s: Seq<char>, i: int)
    requires
        0 <= i <= s.len(),
    ensures
        i <= exp_index(s, i) <= s.len(),
    decreases s.len() - i,
{
    if i < s.len() && !(s[i] == 'e' || s[i] == 'E') {
        lemma_exp_index(s, i + 1);
    }
}

fn all_digits_exec(v: &Vec<char>) -> (r: bool)
    ensures
        r == all_digits(v@),
{
    let mut i: usize = 0;
    while i < v.len()
        invariant
            i <= v.len(),
            forall|k: int| 0 <= k < i ==> is_digit(#[trigger] v@[k]),
        decreases v.len() - i,
    {
        if !is_digit_char(v[i]) {
            return false;
        }
        i += 1;
    }
    true
}

fn mantissa_exec(v: &Vec<char>) -> (r: bool)
    ensures
        r == mantissa(v@),
{
    let d = find_char(v, 0, '.');
    if d >= v.len() {
        v.len() > 0 && all_digits_exec(v)
    } else {
        let a = slice_chars(v, 0, d);
        let b = slice_chars(v, d + 1, v.len());
        all_digits_exec(&a) && all_digits_exec(&b) && (d > 0 || v.len() - d - 1 > 0)
    }
}

fn exponent_exec(v: &Vec<char>) -> (r: bool)
    ensures
        r == exponent_digits(v@),
{
    if v.len() > 0 && (v[0] == '+' || v[0] == '-') {
        let rest = slice_chars(v, 1, v.len());
        assert(rest@ =~= v@.drop_first());
        v.len() > 1 && all_digits_exec(&rest)
    } else {
        v.len() > 0 && all_digits_exec(v)
    }
}

fn number_exec(v: &Vec<char>) -> (r: bool)
    ensures
        r == number_literal(v@),
{
    proof {
        lemma_exp_index(v@, 0);
    }
    let mut e: usize = 0;
    while e < v.len() && v[e] != 'e' && v[e] != 'E'
        invariant
            e <= v.len(),
            exp_index(v@, e as int) == exp_index(v@, 0),
        decreases v.len() - e,
    {
        e += 1;
    }
    if e >= v.len() {
        mantissa_exec(v)
    } else {
        let m = slice_chars(v, 0, e);
        let x = slice_chars(v, e + 1, v.len());
        mantissa_exec(&m) && exponent_exec(&x)
    }
}

/// Whether `str::parse::<f64>` accepts the characters.
pub fn is_float_literal(v: &Vec<char>) -> (r: bool)
    ensures
        r == float_literal(v@),
{
    let b = if v.len() > 0 && (v[0] == '+' || v[0] == '-') {
        let t = slice_chars(v, 1, v.len());
        assert(t@ =~= v@.drop_first());
        t
    } else {
        v.clone()
    };
    let inf = chars_of("inf");
    let infinity = chars_of("infinity");
    let nan = chars_of("nan");
    seq_eq_ignore_case(&b, &inf) || seq_eq_ignore_case(&b, &infinity) || seq_eq_ignore_case(
        &b,
        &nan,
    ) || number_exec(&b)
}

} // verus!
