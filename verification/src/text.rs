//! Character-level text utilities: conversion between strings and character
//! vectors, substring search, decimal rendering with zero padding, digit
//! parsing, and ASCII case folding.

use vstd::prelude::*;
use vstd::string::*;

verus! {

/// Collects the characters of a string into a vector.
pub fn chars_of(s: &str) -> (r: Vec<char>)
    ensures
        r@ == s@,
{
    let n = s.unicode_len();
    let mut r: Vec<char> = Vec::new();
    let mut i: usize = 0;
    while i < n
        invariant
            i <= n,
            n == s@.len(),
            r@ == s@.subrange(0, i as int),
        decreases n - i,
    {
        let c = s.get_char(i);
        r.push(c);
        proof {
            assert(s@.subrange(0, i as int).push(s@[i as int]) =~= s@.subrange(0, i + 1 as int));
        }
        i = i + 1;
    }
    proof {
        assert(s@.subrange(0, n as int) =~= s@);
    }
    r
}

/// Relies on String's `FromIterator<char>` impl: collecting characters
/// yields the string of exactly those characters, in order.
#[verifier::external_body]
pub fn string_from_chars(v: &Vec<char>) -> (r: String)
    ensures
        r@ == v@,
{
    v.iter().collect()
}

/// `sub` occurs in `s` starting at position `i`.
pub open spec fn matches_at(s: Seq<char>, sub: Seq<char>, i: int) -> bool {
    0 <= i && i + sub.len() <= s.len() && s.subrange(i, i + sub.len()) == sub
}

/// `sub` occurs somewhere in `s`.
pub open spec fn contains_seq(s: Seq<char>, sub: Seq<char>) -> bool {
    exists|i: int| matches_at(s, sub, i)
}

/// Substring search: whether `sub` occurs in `s`.
pub fn contains_chars(s: &Vec<char>, sub: &Vec<char>) -> (r: bool)
    ensures
        r == contains_seq(s@, sub@),
{
    let n = s.len();
    let m = sub.len();
    if m > n {
        proof {
            assert(forall|i: int| !matches_at(s@, sub@, i));
        }
        return false;
    }
    let mut i: usize = 0;
    while i <= n - m
        invariant
            m <= n == s@.len(),
            m == sub@.len(),
            i <= n - m + 1,
            forall|k: int| 0 <= k < i ==> !matches_at(s@, sub@, k),
        decreases n - m + 1 - i,
    {
        let mut j: usize = 0;
        while j < m && s[i + j] == sub[j]
            invariant
                m <= n == s@.len(),
                m == sub@.len(),
                i + m <= n,
                j <= m,
                forall|t: int| 0 <= t < j ==> s@[i + t] == sub@[t],
            decreases m - j,
        {
            j = j + 1;
        }
        if j == m {
            proof {
                assert(s@.subrange(i as int, i + m) =~= sub@);
                assert(matches_at(s@, sub@, i as int));
            }
            return true;
        }
        proof {
            if matches_at(s@, sub@, i as int) {
                assert(s@.subrange(i as int, i + m)[j as int] == sub@[j as int]);
                assert(s@[i + j] == sub@[j as int]);
            }
        }
        i = i + 1;
    }
    proof {
        assert(forall|k: int| !matches_at(s@, sub@, k));
    }
    false
}

/// `i` is the position of the last occurrence of `c` in `s`.
pub open spec fn is_last_index_of(s: Seq<char>, c: char, i: int) -> bool {
    0 <= i < s.len() && s[i] == c && (forall|j: int| i < j < s.len() ==> s[j] != c)
}

/// Finds the last occurrence of `c` in `s`.
pub fn last_index_of(s: &Vec<char>, c: char) -> (r: Option<usize>)
    ensures
        match r {
            Some(i) => is_last_index_of(s@, c, i as int),
            None => forall|j: int| 0 <= j < s@.len() ==> s@[j] != c,
        },
{
    let mut i: usize = s.len();
    while i > 0
        invariant
            i <= s@.len(),
            forall|j: int| i <= j < s@.len() ==> s@[j] != c,
        decreases i,
    {
        i = i - 1;
        if s[i] == c {
            return Some(i);
        }
    }
    None
}

/// Whether `c` is a decimal digit.
pub open spec fn is_digit(c: char) -> bool {
    '0' <= c && c <= '9'
}

/// The character for a decimal digit value.
pub open spec fn digit_char(d: nat) -> char {
    ((48 + d) as char)
}

/// The decimal rendering of `n`, most significant digit first.
pub open spec fn spec_dec(n: nat) -> Seq<char>
    decreases n,
{
    if n < 10 {
        seq![digit_char(n)]
    } else {
        spec_dec(n / 10) + seq![digit_char(n % 10)]
    }
}

/// The decimal rendering of `n`, left-padded with zeros to `width`
/// characters. A value too wide for `width` is rendered in full.
pub open spec fn spec_dec_pad(n: nat, width: nat) -> Seq<char>
    decreases width,
{
    if spec_dec(n).len() >= width {
        spec_dec(n)
    } else {
        seq!['0'] + spec_dec_pad(n, (width - 1) as nat)
    }
}

/// Appends the decimal rendering of `n` to `out`.
pub fn push_dec(n: u64, out: &mut Vec<char>)
    ensures
        final(out)@ == old(out)@ + spec_dec(n as nat),
    decreases n,
{
    if n < 10 {
        let d = (48 + n as u8) as char;
        proof {
            assert(d == digit_char(n as nat));
        }
        out.push(d);
        proof {
            assert(final(out)@ =~= old(out)@ + spec_dec(n as nat));
        }
    } else {
        push_dec(n / 10, out);
        let d = (48 + (n % 10) as u8) as char;
        proof {
            assert(d == digit_char(n as nat % 10));
        }
        out.push(d);
        proof {
            assert(final(out)@ =~= old(out)@ + spec_dec(n as nat));
        }
    }
}

/// `spec_dec_pad` prepends exactly the zeros that the width calls for.
proof fn lemma_dec_pad_shape(n: nat, w: nat)
    ensures
        spec_dec_pad(n, w) == if spec_dec(n).len() >= w {
            spec_dec(n)
        } else {
            Seq::new((w - spec_dec(n).len()) as nat, |i: int| '0') + spec_dec(n)
        },
    decreases w,
{
    if spec_dec(n).len() < w {
        lemma_dec_pad_shape(n, (w - 1) as nat);
        if spec_dec(n).len() >= w - 1 {
            assert(seq!['0'] + spec_dec(n) =~= Seq::new(
                (w - spec_dec(n).len()) as nat,
                |i: int| '0',
            ) + spec_dec(n));
        } else {
            assert(seq!['0'] + (Seq::new((w - 1 - spec_dec(n).len()) as nat, |i: int| '0')
                + spec_dec(n)) =~= Seq::new((w - spec_dec(n).len()) as nat, |i: int| '0')
                + spec_dec(n));
        }
    }
}

/// Appends the decimal rendering of `n`, zero-padded to `width`, to `out`.
pub fn push_dec_pad(n: u64, width: usize, out: &mut Vec<char>)
    ensures
        final(out)@ == old(out)@ + spec_dec_pad(n as nat, width as nat),
{
    let mut digits: Vec<char> = Vec::new();
    push_dec(n, &mut digits);
    let mut k: usize = digits.len();
    proof {
        assert(out@ =~= old(out)@ + Seq::new((k - digits@.len()) as nat, |i: int| '0'));
    }
    while k < width
        invariant
            digits@ == spec_dec(n as nat),
            digits@.len() <= k,
            k <= width || k == digits@.len(),
            out@ == old(out)@ + Seq::new((k - digits@.len()) as nat, |i: int| '0'),
        decreases width - k,
    {
        out.push('0');
        k = k + 1;
        proof {
            assert(out@ =~= old(out)@ + Seq::new((k - digits@.len()) as nat, |i: int| '0'));
        }
    }
    out.append(&mut digits);
    proof {
        lemma_dec_pad_shape(n as nat, width as nat);
        let d = spec_dec(n as nat);
        if d.len() >= width as nat {
            assert(k == d.len());
            assert(final(out)@ =~= old(out)@ + spec_dec_pad(n as nat, width as nat));
        } else {
            assert(k == width);
            assert(spec_dec_pad(n as nat, width as nat) == Seq::new(
                (width - d.len()) as nat,
                |i: int| '0',
            ) + d);
            assert(final(out)@ =~= old(out)@ + spec_dec_pad(n as nat, width as nat));
        }
    }
}

/// The decimal rendering consists of digits and is inverted by the digit
/// string's value.
pub proof fn lemma_dec_val(n: nat)
    ensures
        all_digits(spec_dec(n)),
        digits_val(spec_dec(n)) == n,
    decreases n,
{
    if n < 10 {
        let s = spec_dec(n);
        assert(s == seq![digit_char(n)]);
        assert(s.drop_last() =~= Seq::<char>::empty());
        assert(s.last() == digit_char(n));
        assert(digit_char(n) as int == 48 + n);
        assert(digits_val(Seq::<char>::empty()) == 0);
        assert(digits_val(s) == digits_val(s.drop_last()) * 10 + (s.last() as int - 48));
    } else {
        lemma_dec_val(n / 10);
        let s = spec_dec(n);
        assert(s == spec_dec(n / 10) + seq![digit_char(n % 10)]);
        assert(s.drop_last() =~= spec_dec(n / 10));
        assert(s.last() == digit_char(n % 10));
        assert(digit_char(n % 10) as int == 48 + n % 10);
        assert(digits_val(s) == digits_val(spec_dec(n / 10)) * 10 + (n % 10));
        assert(forall|j: int| 0 <= j < s.len() ==> is_digit(#[trigger] s[j])) by {
            assert(forall|j: int|
                0 <= j < s.len() - 1 ==> s[j] == #[trigger] spec_dec(n / 10)[j]);
        }
    }
}

/// A leading zero does not change a digit string's value.
proof fn lemma_zero_prefix_val(t: Seq<char>)
    ensures
        digits_val(seq!['0'] + t) == digits_val(t),
    decreases t.len(),
{
    let s = seq!['0'] + t;
    if t.len() == 0 {
        assert(s =~= seq!['0']);
        assert(s.drop_last() =~= Seq::<char>::empty());
        assert(s.last() == '0');
        assert(digits_val(Seq::<char>::empty()) == 0);
        assert(digits_val(s) == digits_val(s.drop_last()) * 10 + (s.last() as int - 48));
        assert(digits_val(t) == 0);
    } else {
        assert(s.drop_last() =~= seq!['0'] + t.drop_last());
        assert(s.last() == t.last());
        lemma_zero_prefix_val(t.drop_last());
    }
}

/// Zero padding does not change a digit string's value: the padded rendering
/// is inverted by the digit string's value too.
pub proof fn lemma_dec_pad_val(n: nat, w: nat)
    ensures
        digits_val(spec_dec_pad(n, w)) == n,
    decreases w,
{
    if spec_dec(n).len() >= w {
        lemma_dec_val(n);
    } else {
        lemma_dec_pad_val(n, (w - 1) as nat);
        lemma_zero_prefix_val(spec_dec_pad(n, (w - 1) as nat));
    }
}

/// The padded rendering is exactly as wide as the padding calls for, where
/// the plain rendering is narrower.
pub proof fn lemma_dec_pad_len(n: nat, w: nat)
    ensures
        spec_dec_pad(n, w).len() == if spec_dec(n).len() >= w {
            spec_dec(n).len() as int
        } else {
            w as int
        },
    decreases w,
{
    if spec_dec(n).len() < w {
        lemma_dec_pad_len(n, (w - 1) as nat);
    }
}

/// The numeric value of a digit string, most significant digit first.
pub open spec fn digits_val(s: Seq<char>) -> int
    decreases s.len(),
{
    if s.len() == 0 {
        0
    } else {
        digits_val(s.drop_last()) * 10 + (s.last() as int - 48)
    }
}

/// All characters of `s` are decimal digits.
pub open spec fn all_digits(s: Seq<char>) -> bool {
    forall|i: int| 0 <= i < s.len() ==> is_digit(#[trigger] s[i])
}

/// Extending a digit string never lowers its value.
proof fn lemma_digits_val_prefix(s: Seq<char>, i: int)
    requires
        all_digits(s),
        0 <= i <= s.len(),
    ensures
        digits_val(s.subrange(0, i)) <= digits_val(s),
        digits_val(s) >= 0,
    decreases s.len() - i,
{
    if i == s.len() {
        assert(s.subrange(0, i) =~= s);
        lemma_digits_val_nonneg(s);
    } else {
        lemma_digits_val_prefix(s, i + 1);
        let p = s.subrange(0, i);
        let q = s.subrange(0, i + 1);
        assert(q.drop_last() =~= p);
        assert(q.last() == s[i]);
        lemma_digits_val_nonneg(p);
    }
}

/// The value of a digit string is never negative.
proof fn lemma_digits_val_nonneg(s: Seq<char>)
    requires
        all_digits(s),
    ensures
        digits_val(s) >= 0,
    decreases s.len(),
{
    if s.len() > 0 {
        assert(all_digits(s.drop_last()));
        lemma_digits_val_nonneg(s.drop_last());
    }
}

/// Parses a decimal digit string as a `u32`. Succeeds exactly on non-empty
/// all-digit strings whose value fits in a `u32`.
pub fn parse_u32(s: &Vec<char>) -> (r: Option<u32>)
    ensures
        match r {
            Some(v) => s@.len() > 0 && all_digits(s@) && digits_val(s@) == v,
            None => s@.len() == 0 || !all_digits(s@) || digits_val(s@) > u32::MAX,
        },
{
    if s.len() == 0 {
        return None;
    }
    let mut acc: u64 = 0;
    let mut i: usize = 0;
    while i < s.len()
        invariant
            i <= s@.len(),
            all_digits(s@.subrange(0, i as int)),
            acc == digits_val(s@.subrange(0, i as int)),
            acc <= u32::MAX,
        decreases s@.len() - i,
    {
        let c = s[i];
        if c < '0' || c > '9' {
            proof {
                assert(!is_digit(s@[i as int]));
            }
            return None;
        }
        let u = c as u32;
        acc = acc * 10 + (u - 48) as u64;
        proof {
            let p = s@.subrange(0, i + 1);
            assert(p.drop_last() =~= s@.subrange(0, i as int));
            assert(p.last() == s@[i as int]);
            assert(all_digits(p)) by {
                assert(forall|t: int| 0 <= t < p.len() ==> is_digit(#[trigger] p[t]));
            }
        }
        i = i + 1;
        if acc > u32::MAX as u64 {
            proof {
                if all_digits(s@) {
                    lemma_digits_val_prefix(s@, i as int);
                }
            }
            return None;
        }
    }
    proof {
        assert(s@.subrange(0, s@.len() as int) =~= s@);
    }
    Some(acc as u32)
}

/// A path joined with one child component, using the `/` separator.
pub open spec fn spec_path_join(base: Seq<char>, child: Seq<char>) -> Seq<char> {
    base + "/"@ + child
}

/// Joins a path with one child component.
pub fn path_join(base: &str, child: &str) -> (r: String)
    ensures
        r@ == spec_path_join(base@, child@),
{
    String::from_str(base).concat("/").concat(child)
}

/// Compares two character vectors element by element.
pub fn chars_eq(a: &Vec<char>, b: &Vec<char>) -> (r: bool)
    ensures
        r == (a@ == b@),
{
    if a.len() != b.len() {
        return false;
    }
    let mut i: usize = 0;
    while i < a.len()
        invariant
            a@.len() == b@.len(),
            i <= a@.len(),
            forall|j: int| 0 <= j < i ==> a@[j] == b@[j],
        decreases a@.len() - i,
    {
        if a[i] != b[i] {
            proof {
                assert(a@ != b@) by {
                    assert(a@[i as int] != b@[i as int]);
                }
            }
            return false;
        }
        i = i + 1;
    }
    proof {
        assert(a@ =~= b@);
    }
    true
}

/// ASCII lower-casing of one character; everything else is untouched.
pub open spec fn lower_char(c: char) -> char {
    if 'A' <= c && c <= 'Z' {
        (((c as u32) + 32) as char)
    } else {
        c
    }
}

/// ASCII lower-casing of a character sequence.
pub open spec fn lower_seq(s: Seq<char>) -> Seq<char> {
    s.map_values(|c: char| lower_char(c))
}

/// Lower-cases the ASCII letters of `s`.
pub fn to_lower_chars(s: &Vec<char>) -> (r: Vec<char>)
    ensures
        r@ == lower_seq(s@),
{
    let mut r: Vec<char> = Vec::new();
    let mut i: usize = 0;
    while i < s.len()
        invariant
            i <= s@.len(),
            r@ =~= lower_seq(s@).subrange(0, i as int),
        decreases s@.len() - i,
    {
        let c = s[i];
        let u = c as u32;
        if 65 <= u && u <= 90 {
            let l = ((u + 32) as u8) as char;
            proof {
                assert(l == lower_char(s@[i as int]));
            }
            r.push(l);
        } else {
            proof {
                assert(c == lower_char(s@[i as int]));
            }
            r.push(c);
        }
        i = i + 1;
    }
    proof {
        assert(r@ =~= lower_seq(s@));
    }
    r
}

} // verus!
