//! Chances: percentages written in decimal notation, as the application shows them.
use vstd::prelude::*;

use crate::text::{chars_of, same_chars, string_of};

verus! {

broadcast use vstd::string::group_string_axioms;

/// `c` is one of the digits `0` to `9`.
pub open spec fn is_digit(c: char) -> bool {
    '0' <= c && c <= '9'
}

/// Every character of `s` is a digit.
pub open spec fn all_digits(s: Seq<char>) -> bool {
    forall|i: int| 0 <= i < s.len() ==> is_digit(#[trigger] s[i])
}

/// Every character of `s` is the digit `0`.
pub open spec fn all_zeros(s: Seq<char>) -> bool {
    forall|i: int| 0 <= i < s.len() ==> #[trigger] s[i] == '0'
}

/// The number of digits at the start of `s`.
pub open spec fn leading_digits(s: Seq<char>) -> nat
    decreases s.len(),
{
    if s.len() > 0 && is_digit(s[0]) {
        1 + leading_digits(s.skip(1))
    } else {
        0
    }
}

/// The value of a string of digits.
pub open spec fn digits_value(s: Seq<char>) -> nat
    decreases s.len(),
{
    if s.len() == 0 {
        0
    } else {
        digits_value(s.drop_last()) * 10 + ((s.last() as int - '0' as int) as nat)
    }
}

/// `t` with its minus sign, if it has one, taken off.
pub open spec fn unsigned_part(t: Seq<char>) -> Seq<char> {
    if t.len() > 0 && t[0] == '-' {
        t.skip(1)
    } else {
        t
    }
}

/// The digits before the decimal point.
pub open spec fn integer_digits(t: Seq<char>) -> Seq<char> {
    let u = unsigned_part(t);
    u.take(leading_digits(u) as int)
}

/// The digits after the decimal point (none when there is no point).
pub open spec fn fraction_digits(t: Seq<char>) -> Seq<char> {
    let u = unsigned_part(t);
    if leading_digits(u) < u.len() {
        u.skip(leading_digits(u) + 1int)
    } else {
        Seq::empty()
    }
}

/// `t` is a finite number in decimal notation: an optional minus sign, at least one digit,
/// and optionally a point followed by at least one digit.
pub open spec fn is_finite_decimal(t: Seq<char>) -> bool {
    let u = unsigned_part(t);
    let n = leading_digits(u);
    &&& n > 0
    &&& (n == u.len() || (u[n as int] == '.' && n + 1 < u.len() && all_digits(u.skip(n + 1int))))
}

/// `t` is how a number is written in the application: a finite decimal, `NaN`, `inf` or
/// `-inf` (the forms in which a 64-bit float is displayed).
pub open spec fn is_chance_text(t: Seq<char>) -> bool {
    ||| is_finite_decimal(t)
    ||| t == "NaN"@
    ||| t == "inf"@
    ||| t == "-inf"@
}

/// The number written `t` is neither above 100 nor below 0. `NaN` is neither, and `-0` is
/// not below 0.
pub open spec fn in_percent_range(t: Seq<char>) -> bool {
    ||| t == "NaN"@
    ||| {
        &&& is_finite_decimal(t)
        &&& (t[0] == '-' ==> all_zeros(integer_digits(t)) && all_zeros(fraction_digits(t)))
        &&& (digits_value(integer_digits(t)) < 100 || (digits_value(integer_digits(t)) == 100
            && all_zeros(fraction_digits(t))))
    }
}

/// A chance in percent, kept as the decimal text in which it is shown.
#[derive(Debug, PartialEq)]
pub struct Chance {
    text: String,
}

impl Clone for Chance {
    fn clone(&self) -> (c: Self)
        ensures
            c@ == self@,
    {
        Chance { text: self.text.clone() }
    }
}

impl View for Chance {
    type V = Seq<char>;

    closed spec fn view(&self) -> Seq<char> {
        self.text@
    }
}

proof fn lemma_leading_digits_step(s: Seq<char>, i: int)
    requires
        0 <= i <= s.len(),
        forall|k: int| 0 <= k < i ==> is_digit(#[trigger] s[k]),
    ensures
        leading_digits(s) == i + leading_digits(s.skip(i)),
    decreases i,
{
    if i > 0 {
        assert(s.skip(1).skip(i - 1) =~= s.skip(i));
        lemma_leading_digits_step(s.skip(1), i - 1);
    } else {
        assert(s.skip(0) =~= s);
    }
}

proof fn lemma_leading_digits_bound(s: Seq<char>)
    ensures
        leading_digits(s) <= s.len(),
        forall|k: int| 0 <= k < leading_digits(s) ==> is_digit(#[trigger] s[k]),
        leading_digits(s) < s.len() ==> !is_digit(s[leading_digits(s) as int]),
    decreases s.len(),
{
    if s.len() > 0 && is_digit(s[0]) {
        lemma_leading_digits_bound(s.skip(1));
        assert forall|k: int| 0 <= k < leading_digits(s) implies is_digit(#[trigger] s[k]) by {
            if k > 0 {
                assert(s[k] == s.skip(1)[k - 1]);
            }
        }
        if leading_digits(s) < s.len() {
            assert(s[leading_digits(s) as int] == s.skip(1)[leading_digits(s.skip(1)) as int]);
        }
    }
}

/// The number of digits at the start of `u` from position `from` on.
fn count_digits(u: &Vec<char>, from: usize) -> (n: usize)
    requires
        from <= u.len(),
    ensures
        from + n <= u.len(),
        n == leading_digits(u@.skip(from as int)),
{
    let mut i: usize = from;
    while i < u.len() && '0' <= u[i] && u[i] <= '9'
        invariant
            from <= i <= u.len(),
            forall|k: int| 0 <= k < i - from ==> is_digit(#[trigger] u@.skip(from as int)[k]),
        decreases u.len() - i,
    {
        i = i + 1;
    }
    proof {
        let s = u@.skip(from as int);
        lemma_leading_digits_step(s, (i - from) as int);
        if i < u.len() {
            assert(s.skip((i - from) as int)[0] == u@[i as int]);
        } else {
            assert(s.skip((i - from) as int).len() == 0);
        }
    }
    i - from
}

/// The value of the digits `u[from..to]`, or 1000 when it is 1000 or more.
fn capped_value(u: &Vec<char>, from: usize, to: usize) -> (v: u64)
    requires
        from <= to <= u.len(),
        all_digits(u@.subrange(from as int, to as int)),
    ensures
        v == if digits_value(u@.subrange(from as int, to as int)) < 1000 {
            digits_value(u@.subrange(from as int, to as int))
        } else {
            1000
        },
{
    let mut v: u64 = 0;
    let mut i: usize = from;
    while i < to
        invariant
            from <= i <= to <= u.len(),
            all_digits(u@.subrange(from as int, to as int)),
            v == if digits_value(u@.subrange(from as int, i as int)) < 1000 {
                digits_value(u@.subrange(from as int, i as int))
            } else {
                1000
            },
        decreases to - i,
    {
        assert(u@.subrange(from as int, i + 1).drop_last() =~= u@.subrange(from as int, i as int));
        assert(is_digit(u@.subrange(from as int, to as int)[i - from]));
        let d: u64 = (u[i] as u64) - ('0' as u64);
        if v >= 100 {
            v = 1000;
        } else {
            v = v * 10 + d;
            if v > 1000 {
                v = 1000;
            }
        }
        i = i + 1;
    }
    v
}

/// Whether `u[from..to]` is all zeros.
fn zeros_only(u: &Vec<char>, from: usize, to: usize) -> (b: bool)
    requires
        from <= to <= u.len(),
    ensures
        b == all_zeros(u@.subrange(from as int, to as int)),
{
    let mut i: usize = from;
    while i < to
        invariant
            from <= i <= to <= u.len(),
            forall|k: int| from <= k < i ==> u@[k] == '0',
        decreases to - i,
    {
        if u[i] != '0' {
            assert(u@.subrange(from as int, to as int)[i - from] != '0');
            return false;
        }
        i = i + 1;
    }
    assert forall|k: int| 0 <= k < to - from implies #[trigger] u@.subrange(
        from as int,
        to as int,
    )[k] == '0' by {
        assert(u@[from + k] == '0');
    }
    true
}


/// Where the digits of `u` start (after a minus sign, if any) and how many digits precede the
/// decimal point.
fn integer_part(u: &Vec<char>) -> (r: (usize, usize))
    ensures
        r.0 == u@.len() - unsigned_part(u@).len(),
        r.0 + r.1 <= u.len(),
        unsigned_part(u@) == u@.skip(r.0 as int),
        r.1 == leading_digits(unsigned_part(u@)),
{
    let start: usize = if u.len() > 0 && u[0] == '-' { 1 } else { 0 };
    assert(start == 0 ==> u@.skip(0) =~= u@);
    let n = count_digits(u, start);
    (start, n)
}

/// Whether `u` is a finite decimal (see `is_finite_decimal`).
fn finite_decimal(u: &Vec<char>) -> (b: bool)
    ensures
        b == is_finite_decimal(u@),
{
    let (start, n) = integer_part(u);
    let ghost v = unsigned_part(u@);
    proof {
        lemma_leading_digits_bound(v);
    }
    if n == 0 {
        return false;
    }
    if start + n == u.len() {
        return true;
    }
    assert(v[n as int] == u@[start + n]);
    if u[start + n] != '.' || start + n + 1 >= u.len() {
        return false;
    }
    let m = count_digits(u, start + n + 1);
    proof {
        let w = v.skip(n + 1int);
        assert(w =~= u@.skip(start + n + 1));
        lemma_leading_digits_bound(w);
        if m == w.len() {
            assert forall|k: int| 0 <= k < w.len() implies is_digit(#[trigger] w[k]) by {}
        } else {
            assert(!is_digit(w[m as int]));
        }
    }
    m == u.len() - (start + n + 1)
}

impl Chance {
    /// The chance written `text`, if `text` is how the application writes a number (see
    /// `is_chance_text`).
    pub fn from_decimal(text: &str) -> (res: Option<Chance>)
        ensures
            res is Some <==> is_chance_text(text@),
            res matches Some(c) ==> c@ == text@,
    {
        let u = chars_of(text);
        if finite_decimal(&u) || same_chars(&u, &chars_of("NaN")) || same_chars(
            &u,
            &chars_of("inf"),
        ) || same_chars(&u, &chars_of("-inf")) {
            Some(Chance { text: string_of(&u) })
        } else {
            None
        }
    }

    /// The decimal text of the chance.
    pub fn text(&self) -> (t: String)
        ensures
            t@ == self@,
    {
        self.text.clone()
    }

    /// Whether the chance is neither above 100 nor below 0 (see `in_percent_range`).
    pub fn in_range(&self) -> (b: bool)
        ensures
            b == in_percent_range(self@),
    {
        let u = chars_of(self.text.as_str());
        if same_chars(&u, &chars_of("NaN")) {
            return true;
        }
        if !finite_decimal(&u) {
            return false;
        }
        let (start, n) = integer_part(&u);
        let ghost v = unsigned_part(u@);
        proof {
            lemma_leading_digits_bound(v);
            assert(integer_digits(u@) =~= u@.subrange(start as int, (start + n) as int));
        }
        let frac_from: usize = if start + n < u.len() { start + n + 1 } else { u.len() };
        assert(fraction_digits(u@) =~= u@.subrange(frac_from as int, u@.len() as int));
        let frac_zero = zeros_only(&u, frac_from, u.len());
        if start == 1 && !(zeros_only(&u, start, start + n) && frac_zero) {
            return false;
        }
        assert forall|k: int| 0 <= k < n implies is_digit(
            #[trigger] u@.subrange(start as int, (start + n) as int)[k],
        ) by {
            assert(u@.subrange(start as int, (start + n) as int)[k] == v[k]);
        }
        let value = capped_value(&u, start, start + n);
        value < 100 || (value == 100 && frac_zero)
    }
}

} // verus!
