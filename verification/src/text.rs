//! Character-level text operations shared by the generators.
use vstd::prelude::*;

verus! {

broadcast use vstd::string::group_string_axioms;

/// Appends one character to a `String`.
#[verifier::external_body]
fn push_char(s: &mut String, c: char)
    ensures
        final(s)@ == old(s)@.push(c),
{
    s.push(c);
}

/// The characters of a string slice, in order.
pub fn chars_of(s: &str) -> (v: Vec<char>)
    ensures
        v@ == s@,
{
    let mut v: Vec<char> = Vec::new();
    for c in it: s.chars()
        invariant
            v@ == it.history(),
    {
        v.push(c);
    }
    v
}

/// A `String` holding exactly the given characters.
pub fn string_of(v: &Vec<char>) -> (s: String)
    ensures
        s@ == v@,
{
    let mut s = String::new();
    let mut i: usize = 0;
    while i < v.len()
        invariant
            i <= v.len(),
            s@ == v@.take(i as int),
        decreases v.len() - i,
    {
        push_char(&mut s, v[i]);
        i = i + 1;
        assert(v@.take(i as int) =~= v@.take((i - 1) as int).push(v@[i - 1]));
    }
    assert(v@.take(v.len() as int) =~= v@);
    s
}

} // verus!

verus! {

/// `s` begins with `p`.
pub open spec fn has_prefix(s: Seq<char>, p: Seq<char>) -> bool {
    p.len() <= s.len() && s.take(p.len() as int) == p
}

/// `s` ends with `p`.
pub open spec fn has_suffix(s: Seq<char>, p: Seq<char>) -> bool {
    p.len() <= s.len() && s.skip(s.len() - p.len()) == p
}

/// `s` with every occurrence of the non-empty `pat` replaced by `with`, occurrences being found
/// from left to right without overlapping (as `str::replace` does).
pub open spec fn replaced(s: Seq<char>, pat: Seq<char>, with: Seq<char>) -> Seq<char>
    decreases s.len(),
{
    if pat.len() == 0 || s.len() < pat.len() {
        s
    } else if s.take(pat.len() as int) == pat {
        with + replaced(s.skip(pat.len() as int), pat, with)
    } else {
        seq![s[0]] + replaced(s.skip(1), pat, with)
    }
}

/// The concatenation of `parts`, in order.
pub open spec fn concat(parts: Seq<Seq<char>>) -> Seq<char>
    decreases parts.len(),
{
    if parts.len() == 0 {
        Seq::empty()
    } else {
        concat(parts.drop_last()) + parts.last()
    }
}

/// `parts` joined with `sep` between consecutive parts (as `Itertools::join` does).
pub open spec fn joined(parts: Seq<Seq<char>>, sep: Seq<char>) -> Seq<char>
    decreases parts.len(),
{
    if parts.len() == 0 {
        Seq::empty()
    } else if parts.len() == 1 {
        parts[0]
    } else {
        joined(parts.drop_last(), sep) + sep + parts.last()
    }
}

/// The views of a sequence of strings.
pub open spec fn views(v: Seq<String>) -> Seq<Seq<char>> {
    v.map_values(|s: String| s@)
}

/// Whether `pat` occurs in `s` at position `i`.
pub fn occurs_at(s: &Vec<char>, i: usize, pat: &Vec<char>) -> (b: bool)
    requires
        i <= s.len(),
    ensures
        b == has_prefix(s@.skip(i as int), pat@),
{
    if pat.len() > s.len() - i {
        return false;
    }
    let mut j: usize = 0;
    while j < pat.len()
        invariant
            j <= pat.len(),
            i + pat.len() <= s.len(),
            forall|k: int| 0 <= k < j ==> s@[i + k] == pat@[k],
        decreases pat.len() - j,
    {
        if s[i + j] != pat[j] {
            assert(s@.skip(i as int).take(pat.len() as int)[j as int] != pat@[j as int]);
            return false;
        }
        j = j + 1;
    }
    assert(s@.skip(i as int).take(pat.len() as int) =~= pat@);
    true
}

/// Appends all of `w` to `out`.
pub fn extend(out: &mut Vec<char>, w: &Vec<char>)
    ensures
        final(out)@ == old(out)@ + w@,
{
    let mut i: usize = 0;
    while i < w.len()
        invariant
            i <= w.len(),
            out@ == old(out)@ + w@.take(i as int),
        decreases w.len() - i,
    {
        out.push(w[i]);
        i = i + 1;
        assert(w@.take(i as int) =~= w@.take((i - 1) as int).push(w@[i - 1]));
    }
    assert(w@.take(w.len() as int) =~= w@);
}

/// Appends the characters of `s` to `out`.
pub fn extend_str(out: &mut Vec<char>, s: &str)
    ensures
        final(out)@ == old(out)@ + s@,
{
    let w = chars_of(s);
    extend(out, &w);
}

proof fn lemma_replaced_step(s: Seq<char>, i: int, pat: Seq<char>, with: Seq<char>)
    requires
        0 <= i < s.len(),
        pat.len() > 0,
    ensures
        has_prefix(s.skip(i), pat) ==> replaced(s.skip(i), pat, with) == with + replaced(
            s.skip(i + pat.len()),
            pat,
            with,
        ),
        !has_prefix(s.skip(i), pat) ==> replaced(s.skip(i), pat, with) == seq![s[i]] + replaced(
            s.skip(i + 1),
            pat,
            with,
        ),
{
    let r = s.skip(i);
    if i + pat.len() <= s.len() {
        assert(r.skip(pat.len() as int) =~= s.skip(i + pat.len()));
    }
    assert(r.skip(1) =~= s.skip(i + 1));
    if !has_prefix(r, pat) && r.len() < pat.len() {
        assert(s.skip(i + 1).len() < pat.len());
        assert(r =~= seq![s[i]] + s.skip(i + 1));
    }
}

/// `s` with every occurrence of `pat` replaced by `with` (see `replaced`).
pub fn replace(s: &Vec<char>, pat: &Vec<char>, with: &Vec<char>) -> (out: Vec<char>)
    requires
        pat.len() > 0,
    ensures
        out@ == replaced(s@, pat@, with@),
{
    let mut out: Vec<char> = Vec::new();
    let mut i: usize = 0;
    assert(s@.skip(0) =~= s@);
    while i < s.len()
        invariant
            i <= s.len(),
            pat.len() > 0,
            out@ + replaced(s@.skip(i as int), pat@, with@) == replaced(s@, pat@, with@),
        decreases s.len() - i,
    {
        proof {
            lemma_replaced_step(s@, i as int, pat@, with@);
        }
        if occurs_at(s, i, pat) {
            let ghost before = out@;
            extend(&mut out, with);
            i = i + pat.len();
            assert(out@ + replaced(s@.skip(i as int), pat@, with@) =~= before + (with@
                + replaced(s@.skip(i as int), pat@, with@)));
        } else {
            let ghost before = out@;
            out.push(s[i]);
            i = i + 1;
            assert(out@ + replaced(s@.skip(i as int), pat@, with@) =~= before + (seq![s@[i - 1]]
                + replaced(s@.skip(i as int), pat@, with@)));
        }
    }
    assert(s@.skip(i as int) =~= Seq::<char>::empty());
    assert(out@ + Seq::<char>::empty() =~= out@);
    out
}

/// The parts joined with `sep` between them.
pub fn join(parts: &Vec<Vec<char>>, sep: &Vec<char>) -> (out: Vec<char>)
    ensures
        out@ == joined(parts@.map_values(|p: Vec<char>| p@), sep@),
{
    let ghost ps = parts@.map_values(|p: Vec<char>| p@);
    let mut out: Vec<char> = Vec::new();
    let mut i: usize = 0;
    while i < parts.len()
        invariant
            i <= parts.len(),
            ps == parts@.map_values(|p: Vec<char>| p@),
            out@ == joined(ps.take(i as int), sep@),
        decreases parts.len() - i,
    {
        if i > 0 {
            extend(&mut out, sep);
        }
        extend(&mut out, &parts[i]);
        i = i + 1;
        assert(ps.take(i as int).drop_last() =~= ps.take((i - 1) as int));
    }
    assert(ps.take(parts.len() as int) =~= ps);
    out
}

} // verus!

verus! {

/// The decimal digit character for `d < 10`.
pub open spec fn digit(d: nat) -> char {
    if d == 0 { '0' }
    else if d == 1 { '1' }
    else if d == 2 { '2' }
    else if d == 3 { '3' }
    else if d == 4 { '4' }
    else if d == 5 { '5' }
    else if d == 6 { '6' }
    else if d == 7 { '7' }
    else if d == 8 { '8' }
    else { '9' }
}

/// The decimal notation of `n`, without leading zeros.
pub open spec fn decimal(n: nat) -> Seq<char>
    decreases n,
{
    if n < 10 {
        seq![digit(n)]
    } else {
        decimal(n / 10).push(digit(n % 10))
    }
}

fn digit_char(d: u64) -> (c: char)
    requires
        d < 10,
    ensures
        c == digit(d as nat),
{
    match d {
        0 => '0',
        1 => '1',
        2 => '2',
        3 => '3',
        4 => '4',
        5 => '5',
        6 => '6',
        7 => '7',
        8 => '8',
        _ => '9',
    }
}

/// The decimal notation of `n` (see `decimal`).
pub fn decimal_of(n: u64) -> (v: Vec<char>)
    ensures
        v@ == decimal(n as nat),
    decreases n,
{
    if n < 10 {
        let mut v: Vec<char> = Vec::new();
        v.push(digit_char(n));
        assert(v@ =~= seq![digit(n as nat)]);
        v
    } else {
        let mut v = decimal_of(n / 10);
        v.push(digit_char(n % 10));
        v
    }
}

} // verus!

verus! {

/// The number of occurrences of the non-empty `pat` in `s`, found from left to right without
/// overlapping.
pub open spec fn occurrences(s: Seq<char>, pat: Seq<char>) -> nat
    decreases s.len(),
{
    if pat.len() == 0 || s.len() < pat.len() {
        0
    } else if s.take(pat.len() as int) == pat {
        1 + occurrences(s.skip(pat.len() as int), pat)
    } else {
        occurrences(s.skip(1), pat)
    }
}

/// `p` written `n` times.
pub open spec fn repeated(p: Seq<char>, n: nat) -> Seq<char>
    decreases n,
{
    if n == 0 {
        Seq::empty()
    } else {
        repeated(p, (n - 1) as nat) + p
    }
}

/// Whether `c` has the Unicode `White_Space` property (as `char::is_whitespace` tells).
pub open spec fn is_white_space(c: char) -> bool {
    ||| c == '\u{9}'
    ||| c == '\u{a}'
    ||| c == '\u{b}'
    ||| c == '\u{c}'
    ||| c == '\u{d}'
    ||| c == '\u{20}'
    ||| c == '\u{85}'
    ||| c == '\u{a0}'
    ||| c == '\u{1680}'
    ||| c == '\u{2000}'
    ||| c == '\u{2001}'
    ||| c == '\u{2002}'
    ||| c == '\u{2003}'
    ||| c == '\u{2004}'
    ||| c == '\u{2005}'
    ||| c == '\u{2006}'
    ||| c == '\u{2007}'
    ||| c == '\u{2008}'
    ||| c == '\u{2009}'
    ||| c == '\u{200a}'
    ||| c == '\u{2028}'
    ||| c == '\u{2029}'
    ||| c == '\u{202f}'
    ||| c == '\u{205f}'
    ||| c == '\u{3000}'
}

/// `s` without its trailing white space (as `str::trim_end` gives it).
pub open spec fn trimmed_end(s: Seq<char>) -> Seq<char>
    decreases s.len(),
{
    if s.len() > 0 && is_white_space(s.last()) {
        trimmed_end(s.drop_last())
    } else {
        s
    }
}

/// Whether `c` is white space (see `is_white_space`).
pub fn white_space(c: char) -> (b: bool)
    ensures
        b == is_white_space(c),
{
    match c {
        '\u{9}' | '\u{a}' | '\u{b}' | '\u{c}' | '\u{d}' | '\u{20}' | '\u{85}' | '\u{a0}'
        | '\u{1680}' | '\u{2000}' | '\u{2001}' | '\u{2002}' | '\u{2003}' | '\u{2004}'
        | '\u{2005}' | '\u{2006}' | '\u{2007}' | '\u{2008}' | '\u{2009}' | '\u{200a}'
        | '\u{2028}' | '\u{2029}' | '\u{202f}' | '\u{205f}' | '\u{3000}' => true,
        _ => false,
    }
}

/// `s` without its trailing white space (see `trimmed_end`).
pub fn trim_end(s: &Vec<char>) -> (t: Vec<char>)
    ensures
        t@ == trimmed_end(s@),
{
    let mut n: usize = s.len();
    assert(s@.take(n as int) =~= s@);
    while n > 0 && white_space(s[n - 1])
        invariant
            n <= s.len(),
            trimmed_end(s@.take(n as int)) == trimmed_end(s@),
        decreases n,
    {
        assert(s@.take(n as int).drop_last() =~= s@.take(n - 1));
        n = n - 1;
    }
    let mut t: Vec<char> = Vec::new();
    let mut i: usize = 0;
    while i < n
        invariant
            i <= n <= s.len(),
            t@ == s@.take(i as int),
        decreases n - i,
    {
        t.push(s[i]);
        i = i + 1;
        assert(t@ =~= s@.take(i as int));
    }
    t
}

proof fn lemma_occurrences_step(s: Seq<char>, i: int, pat: Seq<char>)
    requires
        0 <= i < s.len(),
        pat.len() > 0,
    ensures
        has_prefix(s.skip(i), pat) ==> occurrences(s.skip(i), pat) == 1 + occurrences(
            s.skip(i + pat.len()),
            pat,
        ),
        !has_prefix(s.skip(i), pat) ==> occurrences(s.skip(i), pat) == occurrences(
            s.skip(i + 1),
            pat,
        ),
{
    let r = s.skip(i);
    if i + pat.len() <= s.len() {
        assert(r.skip(pat.len() as int) =~= s.skip(i + pat.len()));
    }
    assert(r.skip(1) =~= s.skip(i + 1));
    if !has_prefix(r, pat) && r.len() < pat.len() {
        assert(s.skip(i + 1).len() < pat.len());
    }
}

/// The number of occurrences of `pat` in `s` (see `occurrences`).
pub fn count_occurrences(s: &Vec<char>, pat: &Vec<char>) -> (n: usize)
    requires
        pat.len() > 0,
    ensures
        n == occurrences(s@, pat@),
{
    let mut n: usize = 0;
    let mut i: usize = 0;
    assert(s@.skip(0) =~= s@);
    while i < s.len()
        invariant
            i <= s.len(),
            pat.len() > 0,
            n <= i,
            n + occurrences(s@.skip(i as int), pat@) == occurrences(s@, pat@),
        decreases s.len() - i,
    {
        proof {
            lemma_occurrences_step(s@, i as int, pat@);
        }
        if occurs_at(s, i, pat) {
            n = n + 1;
            i = i + pat.len();
        } else {
            i = i + 1;
        }
    }
    assert(s@.skip(i as int) =~= Seq::<char>::empty());
    n
}

/// `p` written `n` times (see `repeated`).
pub fn repeat(p: &Vec<char>, n: usize) -> (out: Vec<char>)
    ensures
        out@ == repeated(p@, n as nat),
{
    let mut out: Vec<char> = Vec::new();
    let mut k: usize = 0;
    while k < n
        invariant
            k <= n,
            out@ == repeated(p@, k as nat),
        decreases n - k,
    {
        extend(&mut out, p);
        k = k + 1;
    }
    out
}

/// Whether the two character sequences are equal.
pub fn same_chars(a: &Vec<char>, b: &Vec<char>) -> (eq: bool)
    ensures
        eq == (a@ == b@),
{
    if a.len() != b.len() {
        return false;
    }
    let found = occurs_at(a, 0, b);
    assert(a@.skip(0) =~= a@);
    assert(a@.take(b.len() as int) =~= a@);
    found
}

/// Whether `s` ends with `p`.
pub fn ends_with(s: &Vec<char>, p: &Vec<char>) -> (b: bool)
    ensures
        b == has_suffix(s@, p@),
{
    if p.len() > s.len() {
        return false;
    }
    let found = occurs_at(s, s.len() - p.len(), p);
    assert(s@.skip(s.len() - p.len()).take(p.len() as int) =~= s@.skip(s.len() - p.len()));
    found
}

} // verus!

verus! {

/// `c` does not occur in `s`.
pub open spec fn free_of(s: Seq<char>, c: char) -> bool {
    forall|i: int| 0 <= i < s.len() ==> s[i] != c
}

/// Replacing cannot bring in a character that neither the text nor the replacement holds.
pub proof fn lemma_replaced_keeps_out(s: Seq<char>, pat: Seq<char>, with: Seq<char>, c: char)
    requires
        free_of(s, c),
        free_of(with, c),
    ensures
        free_of(replaced(s, pat, with), c),
    decreases s.len(),
{
    if pat.len() == 0 || s.len() < pat.len() {
    } else if s.take(pat.len() as int) == pat {
        lemma_replaced_keeps_out(s.skip(pat.len() as int), pat, with, c);
        let r = replaced(s.skip(pat.len() as int), pat, with);
        assert forall|i: int| 0 <= i < (with + r).len() implies (with + r)[i] != c by {
            if i >= with.len() {
                assert((with + r)[i] == r[i - with.len()]);
            }
        }
    } else {
        lemma_replaced_keeps_out(s.skip(1), pat, with, c);
        let r = replaced(s.skip(1), pat, with);
        assert forall|i: int| 0 <= i < (seq![s[0]] + r).len() implies (seq![s[0]] + r)[i]
            != c by {
            if i >= 1 {
                assert((seq![s[0]] + r)[i] == r[i - 1]);
            }
        }
    }
}

/// Replacing every `c` by a text without `c` leaves no `c`.
pub proof fn lemma_replaced_removes(s: Seq<char>, c: char, with: Seq<char>)
    requires
        free_of(with, c),
    ensures
        free_of(replaced(s, seq![c], with), c),
    decreases s.len(),
{
    let pat = seq![c];
    if s.len() < 1 {
    } else if s.take(1) == pat {
        lemma_replaced_removes(s.skip(1), c, with);
        let r = replaced(s.skip(1), pat, with);
        assert forall|i: int| 0 <= i < (with + r).len() implies (with + r)[i] != c by {
            if i >= with.len() {
                assert((with + r)[i] == r[i - with.len()]);
            }
        }
    } else {
        if s[0] == c {
            assert(s.take(1) =~= pat);
        }
        lemma_replaced_removes(s.skip(1), c, with);
        let r = replaced(s.skip(1), pat, with);
        assert forall|i: int| 0 <= i < (seq![s[0]] + r).len() implies (seq![s[0]] + r)[i]
            != c by {
            if i >= 1 {
                assert((seq![s[0]] + r)[i] == r[i - 1]);
            }
        }
    }
}

/// A text that does not hold the first character of the pattern is left as it is.
pub proof fn lemma_replaced_absent(s: Seq<char>, pat: Seq<char>, with: Seq<char>)
    requires
        pat.len() > 0,
        free_of(s, pat[0]),
    ensures
        replaced(s, pat, with) == s,
    decreases s.len(),
{
    if s.len() < pat.len() {
    } else if s.take(pat.len() as int) == pat {
        assert(s.take(pat.len() as int)[0] == s[0]);
    } else {
        lemma_replaced_absent(s.skip(1), pat, with);
        assert(seq![s[0]] + s.skip(1) =~= s);
    }
}

} // verus!

verus! {

/// Replacing a single character by a single character changes exactly the positions that
/// hold it, and nothing else.
pub proof fn lemma_replaced_char(s: Seq<char>, p: char, w: char)
    ensures
        replaced(s, seq![p], seq![w]).len() == s.len(),
        forall|i: int|
            0 <= i < s.len() ==> #[trigger] replaced(s, seq![p], seq![w])[i] == if s[i] == p {
                w
            } else {
                s[i]
            },
    decreases s.len(),
{
    if s.len() > 0 {
        lemma_replaced_char(s.skip(1), p, w);
        let r = replaced(s.skip(1), seq![p], seq![w]);
        if s.take(1) == seq![p] {
            assert(s[0] == s.take(1)[0]);
            assert forall|i: int| 0 <= i < s.len() implies #[trigger] replaced(
                s,
                seq![p],
                seq![w],
            )[i] == if s[i] == p {
                w
            } else {
                s[i]
            } by {
                if i > 0 {
                    assert(s[i] == s.skip(1)[i - 1]);
                    assert((seq![w] + r)[i] == r[i - 1]);
                }
            }
        } else {
            if s[0] == p {
                assert(s.take(1) =~= seq![p]);
            }
            assert forall|i: int| 0 <= i < s.len() implies #[trigger] replaced(
                s,
                seq![p],
                seq![w],
            )[i] == if s[i] == p {
                w
            } else {
                s[i]
            } by {
                if i > 0 {
                    assert(s[i] == s.skip(1)[i - 1]);
                    assert((seq![s[0]] + r)[i] == r[i - 1]);
                }
            }
        }
    }
}

/// A leading part that does not hold the first character of the pattern passes through a
/// replacement unchanged.
pub proof fn lemma_replaced_after_free_prefix(
    a: Seq<char>,
    rest: Seq<char>,
    pat: Seq<char>,
    with: Seq<char>,
)
    requires
        pat.len() > 0,
        free_of(a, pat[0]),
    ensures
        replaced(a + rest, pat, with) == a + replaced(rest, pat, with),
    decreases a.len(),
{
    let s = a + rest;
    if a.len() == 0 {
        assert(s =~= rest);
        assert(a + replaced(rest, pat, with) =~= replaced(rest, pat, with));
    } else if s.len() < pat.len() {
        assert(rest.len() < pat.len());
    } else if s.take(pat.len() as int) == pat {
        assert(s.take(pat.len() as int)[0] == s[0]);
        assert(s[0] == a[0]);
    } else {
        lemma_replaced_after_free_prefix(a.skip(1), rest, pat, with);
        assert(s.skip(1) =~= a.skip(1) + rest);
        assert(seq![s[0]] + (a.skip(1) + replaced(rest, pat, with)) =~= a + replaced(
            rest,
            pat,
            with,
        ));
    }
}

} // verus!
