//! Verified utilities over character sequences: conversion between `str`,
//! `String` and `Vec<char>`, substring search, substring replacement,
//! ASCII case folding, and decimal digit parsing and printing.

use vstd::prelude::*;
use vstd::string::StrSliceExecFns;

verus! {

/// Relies on std's String::push: appends exactly one character.
#[verifier::external_body]
pub fn push_char(s: &mut String, c: char)
    ensures
        final(s)@ == old(s)@.push(c),
{
    s.push(c);
}

/// The characters of a string slice, as a vector.
pub fn chars_of(s: &str) -> (v: Vec<char>)
    ensures
        v@ == s@,
{
    let n = s.unicode_len();
    let mut v: Vec<char> = Vec::new();
    let mut i: usize = 0;
    while i < n
        invariant
            i <= n,
            n == s@.len(),
            v@ == s@.take(i as int),
        decreases n - i,
    {
        v.push(s.get_char(i));
        i = i + 1;
        proof {
            assert(v@ =~= s@.take(i as int));
        }
    }
    proof {
        assert(v@ =~= s@);
    }
    v
}

/// A string holding exactly the given characters.
pub fn string_from(v: &Vec<char>) -> (s: String)
    ensures
        s@ == v@,
{
    let mut s = String::new();
    let mut i: usize = 0;
    while i < v.len()
        invariant
            i <= v.len(),
            s@ == v@.take(i as int),
        decreases v.len() - i,
    {
        push_char(&mut s, v[i]);
        i = i + 1;
        proof {
            assert(s@ =~= v@.take(i as int));
        }
    }
    proof {
        assert(s@ =~= v@);
    }
    s
}

/// The needle `t` occurs in `s` starting at index `i`.
pub open spec fn sub_at(s: Seq<char>, t: Seq<char>, i: int) -> bool {
    0 <= i && i + t.len() <= s.len() && s.subrange(i, i + t.len() as int) == t
}

/// The needle `t` occurs somewhere in `s`.
pub open spec fn contains_sub(s: Seq<char>, t: Seq<char>) -> bool {
    exists|i: int| sub_at(s, t, i)
}

/// Whether `t` occurs in `s` at exactly position `i`.
pub fn check_sub_at(s: &Vec<char>, t: &Vec<char>, i: usize) -> (r: bool)
    requires
        i + t@.len() <= s@.len(),
    ensures
        r == sub_at(s@, t@, i as int),
{
    let n = s.len();
    let mut j: usize = 0;
    while j < t.len()
        invariant
            j <= t@.len(),
            i + t@.len() <= s@.len(),
            n == s@.len(),
            forall|k: int| 0 <= k < j ==> s@[i + k] == t@[k],
        decreases t.len() - j,
    {
        if s[i + j] != t[j] {
            proof {
                assert(s@.subrange(i as int, i + t@.len() as int)[j as int] != t@[j as int]);
            }
            return false;
        }
        j = j + 1;
    }
    proof {
        assert(s@.subrange(i as int, i + t@.len() as int) =~= t@);
    }
    true
}

/// The first occurrence of `t` in `s` at or after `from`, if any.
pub fn find_sub(s: &Vec<char>, t: &Vec<char>, from: usize) -> (r: Option<usize>)
    ensures
        match r {
            Some(i) => from <= i && sub_at(s@, t@, i as int) && forall|k: int|
                from <= k < i ==> !sub_at(s@, t@, k),
            None => forall|k: int| from <= k ==> !sub_at(s@, t@, k),
        },
{
    if t.len() > s.len() {
        return None;
    }
    let last = s.len() - t.len();
    if from > last {
        return None;
    }
    let mut i: usize = from;
    loop
        invariant
            from <= i <= last,
            last == s@.len() - t@.len(),
            forall|k: int| from <= k < i ==> !sub_at(s@, t@, k),
        decreases last - i,
    {
        if check_sub_at(s, t, i) {
            return Some(i);
        }
        if i == last {
            return None;
        }
        i = i + 1;
    }
}

/// Whether `t` occurs anywhere in `s`.
pub fn contains_chars(s: &Vec<char>, t: &Vec<char>) -> (r: bool)
    ensures
        r == contains_sub(s@, t@),
{
    match find_sub(s, t, 0) {
        Some(i) => {
            proof {
                assert(sub_at(s@, t@, i as int));
            }
            true
        },
        None => {
            proof {
                assert(forall|k: int| !sub_at(s@, t@, k)) by {
                    assert(forall|k: int| k < 0 ==> !sub_at(s@, t@, k));
                }
            }
            false
        },
    }
}

/// Whether the string `t` occurs anywhere in the string `s`.
pub fn str_contains(s: &str, t: &str) -> (r: bool)
    ensures
        r == contains_sub(s@, t@),
{
    let sv = chars_of(s);
    let tv = chars_of(t);
    contains_chars(&sv, &tv)
}

/// Whether the characters of two string slices are equal.
pub fn str_eq(a: &str, b: &str) -> (r: bool)
    ensures
        r == (a@ == b@),
{
    let av = chars_of(a);
    let bv = chars_of(b);
    if av.len() != bv.len() {
        return false;
    }
    let mut i: usize = 0;
    while i < av.len()
        invariant
            i <= av@.len(),
            av@.len() == bv@.len(),
            av@ == a@,
            bv@ == b@,
            forall|k: int| 0 <= k < i ==> av@[k] == bv@[k],
        decreases av.len() - i,
    {
        if av[i] != bv[i] {
            return false;
        }
        i = i + 1;
    }
    proof {
        assert(a@ =~= b@);
    }
    true
}

/// A decimal digit.
pub open spec fn is_digit(c: char) -> bool {
    '0' <= c && c <= '9'
}

/// The numeric value of a decimal digit.
pub open spec fn digit_val(c: char) -> int {
    c as int - '0' as int
}

/// The value of a sequence of decimal digits, most significant first.
pub open spec fn digits_val(s: Seq<char>) -> int
    decreases s.len(),
{
    if s.len() == 0 {
        0
    } else {
        digits_val(s.drop_last()) * 10 + digit_val(s.last())
    }
}

/// Ten to the given power.
pub open spec fn pow10(n: nat) -> int
    decreases n,
{
    if n == 0 {
        1
    } else {
        10 * pow10((n - 1) as nat)
    }
}

/// A sequence of decimal digits is non-negative and bounded by ten to its length.
pub proof fn lemma_digits_val_bound(s: Seq<char>)
    requires
        forall|i: int| 0 <= i < s.len() ==> is_digit(#[trigger] s[i]),
    ensures
        0 <= digits_val(s) < pow10(s.len()),
    decreases s.len(),
{
    if s.len() > 0 {
        lemma_digits_val_bound(s.drop_last());
    }
}

/// The length of the run of decimal digits in `s` that starts at `i`.
pub open spec fn run_len(s: Seq<char>, i: int) -> int
    decreases s.len() - i,
{
    if 0 <= i < s.len() && is_digit(s[i]) {
        1 + run_len(s, i + 1)
    } else {
        0
    }
}

/// Run lengths are non-negative and in bounds, and the run holds digits only.
pub proof fn lemma_run_len(s: Seq<char>, i: int)
    requires
        0 <= i <= s.len(),
    ensures
        0 <= run_len(s, i),
        i + run_len(s, i) <= s.len(),
        forall|k: int| i <= k < i + run_len(s, i) ==> is_digit(#[trigger] s[k]),
        i + run_len(s, i) < s.len() ==> !is_digit(s[i + run_len(s, i)]),
    decreases s.len() - i,
{
    if i < s.len() && is_digit(s[i]) {
        lemma_run_len(s, i + 1);
    }
}

/// The end of the digit run starting at `from` (equals `from` when no digit
/// starts there).
pub fn scan_run(s: &Vec<char>, from: usize) -> (e: usize)
    requires
        from <= s@.len(),
    ensures
        e == from + run_len(s@, from as int),
        from <= e <= s@.len(),
{
    proof {
        lemma_run_len(s@, from as int);
    }
    let n = s.len();
    let mut e = from;
    while e < n && is_digit_exec(s[e])
        invariant
            from <= e <= n,
            n == s@.len(),
            run_len(s@, from as int) == (e - from) + run_len(s@, e as int),
            forall|k: int| from <= k < e ==> is_digit(#[trigger] s@[k]),
        decreases n - e,
    {
        e = e + 1;
    }
    proof {
        lemma_run_len(s@, e as int);
    }
    e
}

/// Whether the character is a decimal digit.
pub fn is_digit_exec(c: char) -> (r: bool)
    ensures
        r == is_digit(c),
{
    '0' <= c && c <= '9'
}

/// The value of the digits `s[start..end]`, most significant first.
pub fn parse_digits(s: &Vec<char>, start: usize, end: usize) -> (r: i64)
    requires
        start <= end <= s@.len(),
        end - start <= 12,
        forall|i: int| start <= i < end ==> is_digit(#[trigger] s@[i]),
    ensures
        r == digits_val(s@.subrange(start as int, end as int)),
        0 <= r,
{
    proof {
        lemma_digits_val_bound(s@.subrange(start as int, end as int));
    }
    let mut r: i64 = 0;
    let mut i = start;
    while i < end
        invariant
            start <= i <= end <= s@.len(),
            end - start <= 12,
            forall|k: int| start <= k < end ==> is_digit(#[trigger] s@[k]),
            r == digits_val(s@.subrange(start as int, i as int)),
            0 <= r < pow10((i - start) as nat),
        decreases end - i,
    {
        proof {
            lemma_digits_val_bound(s@.subrange(start as int, i as int));
            lemma_pow10_mono((i - start) as nat, 11);
            reveal_with_fuel(pow10, 13);
            assert(pow10(11) == 100000000000int);
            assert(s@.subrange(start as int, (i + 1) as int).drop_last() =~= s@.subrange(
                start as int,
                i as int,
            ));
            assert(s@.subrange(start as int, (i + 1) as int).last() == s@[i as int]);
        }
        r = r * 10 + (digit_exec(s[i]) as i64);
        i = i + 1;
        proof {
            lemma_digits_val_bound(s@.subrange(start as int, i as int));
        }
    }
    r
}

/// Ten to the power grows with the exponent.
pub proof fn lemma_pow10_mono(a: nat, b: nat)
    requires
        a <= b,
    ensures
        pow10(a) <= pow10(b),
        pow10(a) >= 1,
    decreases b,
{
    if a < b {
        lemma_pow10_mono(a, (b - 1) as nat);
    } else if a > 0 {
        lemma_pow10_mono((a - 1) as nat, (b - 1) as nat);
    }
}

/// The numeric value of a decimal digit character.
pub fn digit_exec(c: char) -> (r: u32)
    requires
        is_digit(c),
    ensures
        r == digit_val(c),
        r <= 9,
{
    (c as u32) - ('0' as u32)
}

/// The decimal digit character for a value below ten.
pub open spec fn digit_char(d: int) -> char {
    (('0' as u8) + d as u8) as char
}

/// The decimal digits of a non-negative number, most significant first.
pub open spec fn dec_digits(n: int) -> Seq<char>
    decreases n,
{
    if n <= 0 {
        seq![digit_char(0)]
    } else if n < 10 {
        seq![digit_char(n)]
    } else {
        dec_digits(n / 10).push(digit_char(n % 10))
    }
}

/// The decimal rendering of an integer, with a leading minus sign when
/// negative.
pub open spec fn int_str(n: int) -> Seq<char> {
    if n < 0 {
        seq!['-'] + dec_digits(-n)
    } else {
        dec_digits(n)
    }
}

/// The decimal rendering of a non-negative number, as characters.
fn dec_digits_exec(n: u64) -> (v: Vec<char>)
    ensures
        v@ == dec_digits(n as int),
    decreases n,
{
    if n < 10 {
        let d = (('0' as u32) + (n as u32)) as u8 as char;
        let mut v: Vec<char> = Vec::new();
        v.push(d);
        proof {
            assert(v@ =~= dec_digits(n as int));
        }
        v
    } else {
        let mut v = dec_digits_exec(n / 10);
        let d = (('0' as u32) + ((n % 10) as u32)) as u8 as char;
        v.push(d);
        v
    }
}

/// The decimal rendering of an integer as a string.
pub fn i64_to_string(n: i64) -> (s: String)
    requires
        n > i64::MIN,
    ensures
        s@ == int_str(n as int),
{
    if n < 0 {
        let mut v: Vec<char> = Vec::new();
        v.push('-');
        let mut d = dec_digits_exec((-n) as u64);
        v.append(&mut d);
        proof {
            assert(v@ =~= int_str(n as int));
        }
        string_from(&v)
    } else {
        let v = dec_digits_exec(n as u64);
        string_from(&v)
    }
}

/// The decimal rendering of a 32-bit integer as a string.
pub fn i32_to_string(n: i32) -> (s: String)
    ensures
        s@ == int_str(n as int),
{
    i64_to_string(n as i64)
}

/// ASCII upper-case letters fold to lower case; all else is unchanged.
pub open spec fn lower_char(c: char) -> char {
    if 'A' <= c && c <= 'Z' {
        (((c as u8) + 32) as char)
    } else {
        c
    }
}

/// The ASCII-lower-cased copy of a character sequence.
pub open spec fn lower_seq(s: Seq<char>) -> Seq<char> {
    s.map_values(|c: char| lower_char(c))
}

/// The ASCII-lower-cased copy of a character vector.
pub fn to_lower(s: &Vec<char>) -> (r: Vec<char>)
    ensures
        r@ == lower_seq(s@),
{
    let mut r: Vec<char> = Vec::new();
    let mut i: usize = 0;
    while i < s.len()
        invariant
            i <= s@.len(),
            r@ == lower_seq(s@.take(i as int)),
        decreases s.len() - i,
    {
        let c = s[i];
        if 'A' <= c && c <= 'Z' {
            r.push(((c as u8) + 32) as char);
        } else {
            r.push(c);
        }
        i = i + 1;
        proof {
            assert(r@ =~= lower_seq(s@.take(i as int)));
        }
    }
    proof {
        assert(r@ =~= lower_seq(s@));
    }
    r
}

/// Replacement of every non-overlapping occurrence of `from` by `to`,
/// scanning left to right.
pub open spec fn replace_seq(s: Seq<char>, from: Seq<char>, to: Seq<char>) -> Seq<char>
    recommends
        from.len() > 0,
    decreases s.len(),
    when from.len() > 0
{
    if s.len() < from.len() {
        s
    } else if s.take(from.len() as int) == from {
        to + replace_seq(s.skip(from.len() as int), from, to)
    } else {
        seq![s[0]] + replace_seq(s.skip(1), from, to)
    }
}

/// Every non-overlapping occurrence of `from` in `s` replaced by `to`.
pub fn replace_chars(s: &Vec<char>, from: &Vec<char>, to: &Vec<char>) -> (r: Vec<char>)
    requires
        from@.len() > 0,
    ensures
        r@ == replace_seq(s@, from@, to@),
{
    let flen = from.len();
    let n = s.len();
    let mut r: Vec<char> = Vec::new();
    let mut i: usize = 0;
    proof {
        assert(s@.skip(0) =~= s@);
        assert(r@ + replace_seq(s@, from@, to@) =~= replace_seq(s@, from@, to@));
    }
    while i < n
        invariant
            i <= n,
            n == s@.len(),
            flen == from@.len() > 0,
            replace_seq(s@, from@, to@) == r@ + replace_seq(s@.skip(i as int), from@, to@),
        decreases n - i,
    {
        if flen <= n - i && check_sub_at(s, from, i) {
            proof {
                assert(s@.skip(i as int).take(flen as int) =~= s@.subrange(
                    i as int,
                    i + flen as int,
                ));
                assert(s@.skip(i as int).skip(flen as int) =~= s@.skip(i + flen as int));
            }
            let mut t = to.clone();
            r.append(&mut t);
            i = i + flen;
            proof {
                assert(replace_seq(s@, from@, to@) == r@ + replace_seq(
                    s@.skip(i as int),
                    from@,
                    to@,
                ));
            }
        } else {
            proof {
                if i + flen <= n {
                    assert(s@.skip(i as int).take(flen as int) =~= s@.subrange(
                        i as int,
                        i + flen as int,
                    ));
                } else {
                    assert(s@.skip(i as int).len() < flen);
                }
                assert(s@.skip(i as int).skip(1) =~= s@.skip(i + 1));
                assert(seq![s@[i as int]] =~= s@.skip(i as int).take(1));
            }
            r.push(s[i]);
            i = i + 1;
        }
    }
    proof {
        assert(s@.skip(n as int) =~= Seq::<char>::empty());
        assert(r@ + Seq::<char>::empty() =~= r@);
    }
    r
}

/// A copy of the characters `s[a..b]`.
pub fn copy_range(s: &Vec<char>, a: usize, b: usize) -> (r: Vec<char>)
    requires
        a <= b <= s@.len(),
    ensures
        r@ == s@.subrange(a as int, b as int),
{
    let mut r: Vec<char> = Vec::new();
    let mut k = a;
    while k < b
        invariant
            a <= k <= b <= s@.len(),
            r@ == s@.subrange(a as int, k as int),
        decreases b - k,
    {
        r.push(s[k]);
        k = k + 1;
        proof {
            assert(r@ =~= s@.subrange(a as int, k as int));
        }
    }
    r
}

/// A digit run is unchanged by dropping a prefix that ends before it.
pub proof fn lemma_run_len_skip(s: Seq<char>, i: int, d: int)
    requires
        0 <= i,
        0 <= d,
        i + d <= s.len(),
    ensures
        run_len(s.skip(i), d) == run_len(s, i + d),
    decreases s.len() - i - d,
{
    let tl = s.skip(i);
    if d < tl.len() && is_digit(tl[d]) {
        lemma_run_len_skip(s, i, d + 1);
    }
}

} // verus!

