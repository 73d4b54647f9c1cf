//! Verified text utilities: substring matching and leftmost non-overlapping
//! replacement over character sequences, plus conversions between `String`
//! and `Vec<char>`.

use vstd::prelude::*;

verus! {

/// The pattern `pat` occurs in `s` starting at position `i`.
pub open spec fn matches_at(s: Seq<char>, pat: Seq<char>, i: int) -> bool {
    0 <= i && i + pat.len() <= s.len() && s.subrange(i, i + pat.len()) == pat
}

/// The pattern `pat` occurs somewhere in `s`.
pub open spec fn has_substring(s: Seq<char>, pat: Seq<char>) -> bool {
    exists|i: int| matches_at(s, pat, i)
}

/// Leftmost non-overlapping replacement of every occurrence of `pat` in `s`
/// by `to`, as `str::replace` performs it. An empty pattern replaces nothing.
pub open spec fn replace_all(s: Seq<char>, pat: Seq<char>, to: Seq<char>) -> Seq<char>
    decreases s.len(),
{
    if pat.len() == 0 || s.len() < pat.len() {
        s
    } else if s.subrange(0, pat.len() as int) == pat {
        to + replace_all(s.skip(pat.len() as int), pat, to)
    } else {
        seq![s[0]] + replace_all(s.skip(1), pat, to)
    }
}

/// An occurrence in the tail shifted by one is an occurrence in the whole.
proof fn lemma_shift_occurrence(s: Seq<char>, pat: Seq<char>, i: int)
    requires
        s.len() >= 1,
        matches_at(s.skip(1), pat, i),
    ensures
        matches_at(s, pat, i + 1),
{
    assert(s.subrange(i + 1, i + 1 + pat.len()) =~= s.skip(1).subrange(i, i + pat.len()));
}

/// If the pattern occurs nowhere in `s`, replacement leaves `s` unchanged.
pub proof fn lemma_replace_absent(s: Seq<char>, pat: Seq<char>, to: Seq<char>)
    requires
        !has_substring(s, pat),
    ensures
        replace_all(s, pat, to) == s,
    decreases s.len(),
{
    if pat.len() == 0 || s.len() < pat.len() {
    } else {
        assert(!matches_at(s, pat, 0));
        assert(s.subrange(0, pat.len() as int) != pat);
        assert forall|i: int| !matches_at(s.skip(1), pat, i) by {
            if matches_at(s.skip(1), pat, i) {
                lemma_shift_occurrence(s, pat, i);
            }
        }
        lemma_replace_absent(s.skip(1), pat, to);
        assert(seq![s[0]] + s.skip(1) =~= s);
    }
}

/// An occurrence in the whole, past a cut, is an occurrence in the tail.
pub proof fn lemma_unshift_occurrence(s: Seq<char>, pat: Seq<char>, i: int, b: int)
    requires
        0 <= b <= i,
        matches_at(s, pat, i),
    ensures
        matches_at(s.skip(b), pat, i - b),
{
    assert(s.skip(b).subrange(i - b, i - b + pat.len()) =~= s.subrange(i, i + pat.len()));
}

/// Where a stretch holds no occurrence of the pattern, replacement copies
/// it and goes on behind it.
pub proof fn lemma_replace_block(s: Seq<char>, pat: Seq<char>, to: Seq<char>, b: int)
    requires
        pat.len() >= 1,
        0 <= b <= s.len(),
        forall|j: int| 0 <= j < b ==> !matches_at(s, pat, j),
    ensures
        replace_all(s, pat, to) == s.take(b) + replace_all(s.skip(b), pat, to),
    decreases b,
{
    if b == 0 {
        assert(s.skip(0) =~= s);
        assert(s.take(0) + replace_all(s, pat, to) =~= replace_all(s, pat, to));
    } else {
        assert(!matches_at(s, pat, 0));
        if s.len() < pat.len() {
            assert(replace_all(s, pat, to) == s);
            assert(s.skip(b).len() < pat.len());
            assert(replace_all(s.skip(b), pat, to) == s.skip(b));
            assert(s.take(b) + s.skip(b) =~= s);
        } else {
            assert(s.subrange(0, pat.len() as int) != pat) by {
                if s.subrange(0, pat.len() as int) == pat {
                    assert(matches_at(s, pat, 0));
                }
            }
            assert(replace_all(s, pat, to) == seq![s[0]] + replace_all(s.skip(1), pat, to));
            assert forall|j: int| 0 <= j < b - 1 implies !matches_at(s.skip(1), pat, j) by {
                if matches_at(s.skip(1), pat, j) {
                    lemma_shift_occurrence(s, pat, j);
                }
            }
            lemma_replace_block(s.skip(1), pat, to, b - 1);
            assert(s.skip(1).skip(b - 1) =~= s.skip(b));
            assert(seq![s[0]] + (s.skip(1).take(b - 1) + replace_all(s.skip(b), pat, to))
                =~= (seq![s[0]] + s.skip(1).take(b - 1)) + replace_all(s.skip(b), pat, to));
            assert(seq![s[0]] + s.skip(1).take(b - 1) =~= s.take(b));
        }
    }
}

/// Relies on `String::push`: appends exactly the given character.
#[verifier::external_body]
fn push_char(s: &mut String, c: char)
    ensures
        final(s)@ == old(s)@.push(c),
{
    s.push(c);
}

/// The characters of `s`, in order, as a vector.
pub fn str_chars(s: &str) -> (v: Vec<char>)
    ensures
        v@ == s@,
{
    let n: usize = s.unicode_len();
    let mut v: Vec<char> = Vec::new();
    let mut i: usize = 0;
    while i < n
        invariant
            i <= n,
            v@ == s@.take(i as int),
        decreases n - i,
    {
        v.push(s.get_char(i));
        i = i + 1;
        assert(s@.take(i as int) =~= s@.take(i - 1).push(s@[i - 1]));
    }
    assert(s@.take(n as int) =~= s@);
    v
}

/// The string holding exactly the characters of `v`, in order.
pub fn string_of_chars(v: &Vec<char>) -> (s: String)
    ensures
        s@ == v@,
{
    let mut s = String::new();
    let mut i: usize = 0;
    while i < v.len()
        invariant
            i <= v.len(),
            s@ == v@.take(i as int),
        decreases v.len() - i,
    {
        push_char(&mut s, v[i]);
        i = i + 1;
        assert(v@.take(i as int) =~= v@.take(i - 1).push(v@[i - 1]));
    }
    assert(v@.take(v.len() as int) =~= v@);
    s
}

/// Whether `pat` occurs in `s` at position `i`.
pub fn is_match_at(s: &Vec<char>, pat: &Vec<char>, i: usize) -> (b: bool)
    requires
        i + pat.len() <= s.len(),
    ensures
        b == matches_at(s@, pat@, i as int),
{
    let mut j: usize = 0;
    while j < pat.len()
        invariant
            j <= pat.len(),
            i + pat.len() <= s.len(),
            forall|q: int| 0 <= q < j ==> s@[i + q] == pat@[q],
        decreases pat.len() - j,
    {
        if s[i + j] != pat[j] {
            assert(s@.subrange(i as int, i + pat@.len()) != pat@) by {
                assert(s@.subrange(i as int, i + pat@.len())[j as int] != pat@[j as int]);
            }
            return false;
        }
        j = j + 1;
    }
    assert(s@.subrange(i as int, i + pat@.len()) =~= pat@);
    true
}

/// Replaces every occurrence of `pat` in `s` by `to`, scanning left to
/// right without overlap.
pub fn replace_chars(s: &Vec<char>, pat: &Vec<char>, to: &Vec<char>) -> (r: Vec<char>)
    ensures
        r@ == replace_all(s@, pat@, to@),
{
    let m: usize = pat.len();
    if m == 0 {
        let mut r: Vec<char> = Vec::new();
        let mut i: usize = 0;
        while i < s.len()
            invariant
                i <= s.len(),
                r@ == s@.take(i as int),
            decreases s.len() - i,
        {
            r.push(s[i]);
            i = i + 1;
            assert(s@.take(i as int) =~= s@.take(i - 1).push(s@[i - 1]));
        }
        assert(s@.take(s.len() as int) =~= s@);
        return r;
    }
    let mut out: Vec<char> = Vec::new();
    let mut i: usize = 0;
    proof {
        assert(s@.skip(0) =~= s@);
        assert(Seq::<char>::empty() + replace_all(s@, pat@, to@) =~= replace_all(s@, pat@, to@));
    }
    while i < s.len()
        invariant
            i <= s.len(),
            m == pat@.len(),
            replace_all(s@, pat@, to@) == out@ + replace_all(s@.skip(i as int), pat@, to@),
        decreases s.len() - i,
    {
        let ghost rest = s@.skip(i as int);
        if s.len() - i >= m && is_match_at(s, pat, i) {
            proof {
                assert(rest.subrange(0, m as int) =~= s@.subrange(i as int, i + m));
                assert(rest.subrange(0, m as int) == pat@);
                assert(replace_all(rest, pat@, to@) == to@ + replace_all(
                    rest.skip(m as int),
                    pat@,
                    to@,
                ));
                assert(rest.skip(m as int) =~= s@.skip(i + m));
            }
            let ghost old_out = out@;
            let mut j: usize = 0;
            while j < to.len()
                invariant
                    j <= to.len(),
                    out@ == old_out + to@.take(j as int),
                decreases to.len() - j,
            {
                out.push(to[j]);
                j = j + 1;
                assert(to@.take(j as int) =~= to@.take(j - 1).push(to@[j - 1]));
            }
            assert(to@.take(to.len() as int) =~= to@);
            i = i + m;
        } else {
            proof {
                if i + m <= s.len() {
                    assert(rest.subrange(0, m as int) =~= s@.subrange(i as int, i + m));
                    assert(rest.subrange(0, m as int) != pat@);
                } else {
                    assert(rest.len() < m);
                }
                assert(rest[0] == s@[i as int]);
                if rest.len() >= m {
                    assert(replace_all(rest, pat@, to@) == seq![rest[0]] + replace_all(
                        rest.skip(1),
                        pat@,
                        to@,
                    ));
                }
                assert(rest.skip(1) =~= s@.skip(i + 1));
            }
            out.push(s[i]);
            i = i + 1;
            proof {
                if s@.skip(i - 1).len() < m {
                    lemma_short_replace(s@, pat@, to@, i - 1);
                }
            }
        }
    }
    assert(s@.skip(s.len() as int) =~= Seq::<char>::empty());
    assert(out@ + Seq::<char>::empty() =~= out@);
    out
}

/// A sequence shorter than the pattern is returned unchanged, piece by piece.
proof fn lemma_short_replace(s: Seq<char>, pat: Seq<char>, to: Seq<char>, i: int)
    requires
        0 <= i < s.len(),
        pat.len() >= 1,
        s.skip(i).len() < pat.len(),
    ensures
        seq![s[i]] + replace_all(s.skip(i + 1), pat, to) == replace_all(s.skip(i), pat, to),
{
    assert(replace_all(s.skip(i), pat, to) == s.skip(i));
    assert(replace_all(s.skip(i + 1), pat, to) == s.skip(i + 1));
    assert(seq![s[i]] + s.skip(i + 1) =~= s.skip(i));
}

/// Replaces every occurrence of `pat` in `s` by `to`, as `str::replace`.
pub fn replace_in_string(s: &String, pat: &Vec<char>, to: &Vec<char>) -> (r: String)
    ensures
        r@ == replace_all(s@, pat@, to@),
{
    let chars = str_chars(s.as_str());
    let replaced = replace_chars(&chars, pat, to);
    string_of_chars(&replaced)
}

/// The decimal digit character for `d`, which must lie in 0..=9.
pub open spec fn dec_digit(d: int) -> char {
    if d == 0 {
        '0'
    } else if d == 1 {
        '1'
    } else if d == 2 {
        '2'
    } else if d == 3 {
        '3'
    } else if d == 4 {
        '4'
    } else if d == 5 {
        '5'
    } else if d == 6 {
        '6'
    } else if d == 7 {
        '7'
    } else if d == 8 {
        '8'
    } else {
        '9'
    }
}

/// The decimal rendering of a non-negative integer, without leading zeros.
pub open spec fn dec_str_nat(n: nat) -> Seq<char>
    decreases n,
{
    if n < 10 {
        seq![dec_digit(n as int)]
    } else {
        dec_str_nat(n / 10) + seq![dec_digit((n % 10) as int)]
    }
}

/// The decimal rendering of an integer, with a leading minus when negative.
pub open spec fn dec_str(n: int) -> Seq<char> {
    if n < 0 {
        seq!['-'] + dec_str_nat((-n) as nat)
    } else {
        dec_str_nat(n as nat)
    }
}

fn dec_digit_exec(d: u64) -> (c: char)
    requires
        d < 10,
    ensures
        c == dec_digit(d as int),
{
    if d == 0 {
        '0'
    } else if d == 1 {
        '1'
    } else if d == 2 {
        '2'
    } else if d == 3 {
        '3'
    } else if d == 4 {
        '4'
    } else if d == 5 {
        '5'
    } else if d == 6 {
        '6'
    } else if d == 7 {
        '7'
    } else if d == 8 {
        '8'
    } else {
        '9'
    }
}

/// The decimal rendering of `n` as characters.
fn u64_dec_chars(n: u64) -> (v: Vec<char>)
    ensures
        v@ == dec_str_nat(n as nat),
{
    let mut digits: Vec<char> = Vec::new();
    let mut k: u64 = n;
    loop
        invariant
            if digits@.len() == 0 {
                k == n
            } else {
                dec_str_nat(n as nat) == dec_str_nat(k as nat) + digits@.reverse()
            },
        decreases k, 10u64 - ((digits@.len() == 0) as u64),
    {
        let ghost prev = digits@;
        let d = dec_digit_exec(k % 10);
        digits.push(d);
        proof {
            assert(digits@.reverse() =~= seq![d] + prev.reverse());
            if k >= 10 {
                assert(dec_str_nat(k as nat) == dec_str_nat((k / 10) as nat) + seq![d]);
                if prev.len() == 0 {
                    assert(dec_str_nat(k as nat) + prev.reverse() =~= dec_str_nat(k as nat));
                }
                assert(dec_str_nat((k / 10) as nat) + (seq![d] + prev.reverse())
                    =~= (dec_str_nat((k / 10) as nat) + seq![d]) + prev.reverse());
            } else {
                assert(dec_str_nat(k as nat) == seq![d]);
                if prev.len() == 0 {
                    assert(seq![d] + prev.reverse() =~= dec_str_nat(k as nat));
                }
            }
        }
        if k < 10 {
            break;
        }
        k = k / 10;
    }
    let mut v: Vec<char> = Vec::new();
    let mut i: usize = digits.len();
    while i > 0
        invariant
            i <= digits.len(),
            v@ == digits@.subrange(i as int, digits@.len() as int).reverse(),
        decreases i,
    {
        i = i - 1;
        v.push(digits[i]);
        assert(digits@.subrange(i as int, digits@.len() as int).reverse() =~= digits@.subrange(
            i + 1,
            digits@.len() as int,
        ).reverse().push(digits@[i as int]));
    }
    assert(digits@.subrange(0, digits@.len() as int) =~= digits@);
    assert(v@ =~= dec_str_nat(n as nat));
    v
}

/// The decimal rendering of `n` as a string, as `i64`'s display writes it.
pub fn i64_to_string(n: i64) -> (s: String)
    ensures
        s@ == dec_str(n as int),
{
    if n >= 0 {
        let v = u64_dec_chars(n as u64);
        string_of_chars(&v)
    } else {
        let mag: u64 = ((-(n + 1)) as u64) + 1;
        let v = u64_dec_chars(mag);
        let mut w: Vec<char> = Vec::new();
        w.push('-');
        let mut i: usize = 0;
        while i < v.len()
            invariant
                i <= v.len(),
                w@ == seq!['-'] + v@.take(i as int),
            decreases v.len() - i,
        {
            w.push(v[i]);
            i = i + 1;
            assert(seq!['-'] + v@.take(i as int) =~= (seq!['-'] + v@.take(i - 1)).push(
                v@[i - 1],
            ));
        }
        assert(v@.take(v.len() as int) =~= v@);
        string_of_chars(&w)
    }
}

/// Whether two strings hold the same characters.
pub fn str_eq(a: &str, b: &str) -> (r: bool)
    ensures
        r == (a@ == b@),
{
    let n: usize = a.unicode_len();
    if n != b.unicode_len() {
        return false;
    }
    let mut i: usize = 0;
    while i < n
        invariant
            i <= n,
            n == a@.len() == b@.len(),
            forall|q: int| 0 <= q < i ==> a@[q] == b@[q],
        decreases n - i,
    {
        if a.get_char(i) != b.get_char(i) {
            return false;
        }
        i = i + 1;
    }
    assert(a@ =~= b@);
    true
}

/// The two characters are equal up to ASCII case.
pub open spec fn char_eq_ci(x: char, y: char) -> bool {
    x == y || (65 <= x as u32 <= 90 && x as u32 + 32 == y as u32) || (65 <= y as u32 <= 90
        && y as u32 + 32 == x as u32)
}

/// The two texts are equal up to ASCII case.
pub open spec fn seq_eq_ci(a: Seq<char>, b: Seq<char>) -> bool {
    a.len() == b.len() && forall|i: int| 0 <= i < a.len() ==> char_eq_ci(a[i], b[i])
}

/// Whether two strings are equal up to ASCII case.
pub fn str_eq_ci(a: &str, b: &str) -> (r: bool)
    ensures
        r == seq_eq_ci(a@, b@),
{
    let n: usize = a.unicode_len();
    if n != b.unicode_len() {
        return false;
    }
    let mut i: usize = 0;
    while i < n
        invariant
            i <= n,
            n == a@.len() == b@.len(),
            forall|q: int| 0 <= q < i ==> char_eq_ci(a@[q], b@[q]),
        decreases n - i,
    {
        let x = a.get_char(i);
        let y = b.get_char(i);
        let xc = x as u32;
        let yc = y as u32;
        let same = x == y || (65 <= xc && xc <= 90 && xc + 32 == yc) || (65 <= yc && yc <= 90
            && yc + 32 == xc);
        if !same {
            return false;
        }
        i = i + 1;
    }
    true
}

/// The pieces joined in order with the separator between consecutive pieces.
pub open spec fn join_with(parts: Seq<Seq<char>>, sep: Seq<char>) -> Seq<char>
    decreases parts.len(),
{
    if parts.len() == 0 {
        Seq::empty()
    } else if parts.len() == 1 {
        parts[0]
    } else {
        parts[0] + sep + join_with(parts.drop_first(), sep)
    }
}

} // verus!
