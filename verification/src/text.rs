//! Verified text utilities: prefix/suffix tests, single-pass pattern
//! replacement, and decimal rendering and parsing. Strings are specified by
//! their character sequences.

use vstd::prelude::*;

verus! {

/// `p` is a prefix of `s`.
pub open spec fn has_prefix(s: Seq<char>, p: Seq<char>) -> bool {
    p.len() <= s.len() && s.subrange(0, p.len() as int) == p
}

/// `p` is a suffix of `s`.
pub open spec fn has_suffix(s: Seq<char>, p: Seq<char>) -> bool {
    p.len() <= s.len() && s.subrange(s.len() - p.len(), s.len() as int) == p
}

/// Characters of `s`, every occurrence of `pat` replaced by `rep`, scanning
/// once from the left, occurrences never overlapping.
pub open spec fn seq_replace(s: Seq<char>, pat: Seq<char>, rep: Seq<char>) -> Seq<char>
    decreases s.len(),
{
    if pat.len() == 0 || s.len() < pat.len() {
        s
    } else if s.subrange(0, pat.len() as int) == pat {
        rep + seq_replace(s.skip(pat.len() as int), pat, rep)
    } else {
        seq![s[0]] + seq_replace(s.skip(1), pat, rep)
    }
}

/// Character-wise equality of two string slices.
pub fn str_eq(a: &str, b: &str) -> (r: bool)
    ensures
        r == (a@ == b@),
{
    let alen = a.unicode_len();
    let blen = b.unicode_len();
    if alen != blen {
        assert(a@ != b@) by {
            assert(a@.len() != b@.len());
        }
        return false;
    }
    let mut i: usize = 0;
    while i < alen
        invariant
            i <= alen,
            alen == a@.len(),
            alen == b@.len(),
            forall|j: int| 0 <= j < i ==> a@[j] == b@[j],
        decreases alen - i,
    {
        if a.get_char(i) != b.get_char(i) {
            return false;
        }
        i += 1;
    }
    assert(a@ =~= b@);
    true
}

/// Does `s` start with `p`?
pub fn starts_with(s: &str, p: &str) -> (r: bool)
    ensures
        r == has_prefix(s@, p@),
{
    let slen = s.unicode_len();
    let plen = p.unicode_len();
    if plen > slen {
        return false;
    }
    let mut i: usize = 0;
    while i < plen
        invariant
            i <= plen,
            plen <= slen,
            slen == s@.len(),
            plen == p@.len(),
            forall|j: int| 0 <= j < i ==> s@[j] == p@[j],
        decreases plen - i,
    {
        if s.get_char(i) != p.get_char(i) {
            assert(!has_prefix(s@, p@)) by {
                assert(s@.subrange(0, p@.len() as int)[i as int] != p@[i as int]);
            }
            return false;
        }
        i += 1;
    }
    assert(s@.subrange(0, p@.len() as int) =~= p@);
    true
}

/// Does `s` end with `p`?
pub fn ends_with(s: &str, p: &str) -> (r: bool)
    ensures
        r == has_suffix(s@, p@),
{
    let slen = s.unicode_len();
    let plen = p.unicode_len();
    if plen > slen {
        return false;
    }
    let off = slen - plen;
    let mut i: usize = 0;
    while i < plen
        invariant
            i <= plen,
            plen <= slen,
            off == slen - plen,
            slen == s@.len(),
            plen == p@.len(),
            forall|j: int| 0 <= j < i ==> s@[off + j] == p@[j],
        decreases plen - i,
    {
        if s.get_char(off + i) != p.get_char(i) {
            assert(!has_suffix(s@, p@)) by {
                assert(s@.subrange(s@.len() - p@.len(), s@.len() as int)[i as int] != p@[i as int]);
            }
            return false;
        }
        i += 1;
    }
    assert(s@.subrange(s@.len() - p@.len(), s@.len() as int) =~= p@);
    true
}

/// `s` without the suffix `p`, when `p` is one.
pub fn strip_suffix<'a>(s: &'a str, p: &str) -> (r: Option<&'a str>)
    ensures
        match r {
            Some(t) => has_suffix(s@, p@) && t@ == s@.subrange(0, s@.len() - p@.len()),
            None => !has_suffix(s@, p@),
        },
{
    if ends_with(s, p) {
        let slen = s.unicode_len();
        let plen = p.unicode_len();
        Some(s.substring_char(0, slen - plen))
    } else {
        None
    }
}

/// Does `s` hold the character `c`?
pub fn contains_char(s: &str, c: char) -> (r: bool)
    ensures
        r == s@.contains(c),
{
    let slen = s.unicode_len();
    let mut i: usize = 0;
    while i < slen
        invariant
            i <= slen,
            slen == s@.len(),
            forall|j: int| 0 <= j < i ==> s@[j] != c,
        decreases slen - i,
    {
        if s.get_char(i) == c {
            return true;
        }
        i += 1;
    }
    false
}

/// `sub` occurs somewhere in `s`.
pub open spec fn contains_sub(s: Seq<char>, sub: Seq<char>) -> bool {
    exists|i: int|
        0 <= i && i + sub.len() <= s.len() && #[trigger] s.subrange(i, i + sub.len()) == sub
}

/// Does `s` hold `sub` as a substring?
pub fn contains_str(s: &str, sub: &str) -> (r: bool)
    ensures
        r == contains_sub(s@, sub@),
{
    let slen = s.unicode_len();
    let plen = sub.unicode_len();
    if plen == 0 {
        proof {
            assert(s@.subrange(0, 0 + sub@.len() as int) =~= sub@);
            assert(contains_sub(s@, sub@));
        }
        return true;
    }
    if plen > slen {
        proof {
            if contains_sub(s@, sub@) {
                let w = choose|w: int|
                    0 <= w && w + sub@.len() <= s@.len() && #[trigger] s@.subrange(
                        w,
                        w + sub@.len(),
                    ) == sub@;
            }
        }
        return false;
    }
    let mut i: usize = 0;
    while i <= slen - plen
        invariant
            1 <= plen <= slen,
            i <= slen - plen + 1,
            slen == s@.len(),
            plen == sub@.len(),
            forall|j: int| 0 <= j < i ==> #[trigger] s@.subrange(j, j + sub@.len()) != sub@,
        decreases slen - plen + 1 - i,
    {
        if match_at(s, i, sub) {
            proof {
                assert(contains_sub(s@, sub@)) by {
                    assert(s@.subrange(i as int, i + sub@.len()) == sub@);
                }
            }
            return true;
        }
        i += 1;
    }
    proof {
        if contains_sub(s@, sub@) {
            let w = choose|w: int|
                0 <= w && w + sub@.len() <= s@.len() && #[trigger] s@.subrange(
                    w,
                    w + sub@.len(),
                ) == sub@;
            assert(w < i);
        }
    }
    false
}

/// `pat` occurs in `s` at position `i`.
fn match_at(s: &str, i: usize, pat: &str) -> (r: bool)
    requires
        i + pat@.len() <= s@.len(),
    ensures
        r == (s@.subrange(i as int, i + pat@.len()) == pat@),
{
    let slen = s.unicode_len();
    let plen = pat.unicode_len();
    let mut j: usize = 0;
    while j < plen
        invariant
            j <= plen,
            plen == pat@.len(),
            slen == s@.len(),
            i + plen <= slen,
            forall|k: int| 0 <= k < j ==> s@[i + k] == pat@[k],
        decreases plen - j,
    {
        if s.get_char(i + j) != pat.get_char(j) {
            assert(s@.subrange(i as int, i + pat@.len())[j as int] != pat@[j as int]);
            return false;
        }
        j += 1;
    }
    assert(s@.subrange(i as int, i + pat@.len()) =~= pat@);
    true
}

/// Every occurrence of `pat` in `s` replaced by `rep`.
pub fn replace(s: &str, pat: &str, rep: &str) -> (r: String)
    ensures
        r@ == seq_replace(s@, pat@, rep@),
{
    let slen = s.unicode_len();
    let plen = pat.unicode_len();
    if plen == 0 || plen > slen {
        return s.to_owned();
    }
    let mut out = String::new();
    let mut i: usize = 0;
    assert(s@.skip(0) =~= s@);
    assert(out@ + seq_replace(s@, pat@, rep@) =~= seq_replace(s@, pat@, rep@));
    while i <= slen - plen
        invariant
            plen >= 1,
            plen <= slen,
            i <= slen,
            slen == s@.len(),
            plen == pat@.len(),
            seq_replace(s@, pat@, rep@) == out@ + seq_replace(
                s@.skip(i as int),
                pat@,
                rep@,
            ),
        decreases slen - i,
    {
        let ghost rest = s@.skip(i as int);
        assert(rest.len() == slen - i);
        if match_at(s, i, pat) {
            assert(rest.subrange(0, pat@.len() as int) =~= s@.subrange(
                i as int,
                i + pat@.len(),
            ));
            out.append(rep);
            i += plen;
            assert(rest.skip(pat@.len() as int) =~= s@.skip(i as int));
            assert(seq_replace(s@, pat@, rep@) == out@ + seq_replace(
                s@.skip(i as int),
                pat@,
                rep@,
            )) by {
                assert(seq_replace(rest, pat@, rep@) == rep@ + seq_replace(
                    rest.skip(pat@.len() as int),
                    pat@,
                    rep@,
                ));
                assert(forall|a: Seq<char>, b: Seq<char>, c: Seq<char>|
                    (a + b) + c =~= a + (b + c));
            }
        } else {
            assert(rest.subrange(0, pat@.len() as int) =~= s@.subrange(
                i as int,
                i + pat@.len(),
            ));
            let piece = s.substring_char(i, i + 1);
            out.append(piece);
            i += 1;
            assert(rest.skip(1) =~= s@.skip(i as int));
            assert(seq_replace(s@, pat@, rep@) == out@ + seq_replace(
                s@.skip(i as int),
                pat@,
                rep@,
            )) by {
                assert(seq_replace(rest, pat@, rep@) == seq![rest[0]] + seq_replace(
                    rest.skip(1),
                    pat@,
                    rep@,
                ));
                assert(piece@ =~= seq![rest[0]]);
                assert(forall|a: Seq<char>, b: Seq<char>, c: Seq<char>|
                    (a + b) + c =~= a + (b + c));
            }
        }
    }
    let tail = s.substring_char(i, slen);
    out.append(tail);
    assert(seq_replace(s@.skip(i as int), pat@, rep@) == s@.skip(i as int));
    assert(tail@ =~= s@.skip(i as int));
    out
}

/// The character for one decimal digit.
pub open spec fn dec_digit(d: int) -> char {
    if d == 0 {
        '0'
    } else if d == 1 {
        '1'
    } else if d == 2 {
        '2'
    } else if d == 3 {
        '3'
    } else if d == 4 {
        '4'
    } else if d == 5 {
        '5'
    } else if d == 6 {
        '6'
    } else if d == 7 {
        '7'
    } else if d == 8 {
        '8'
    } else {
        '9'
    }
}

/// The decimal rendering of `n`, most significant digit first, no leading
/// zeros except for zero itself.
pub open spec fn dec_of(n: nat) -> Seq<char>
    decreases n,
{
    if n < 10 {
        seq![dec_digit(n as int)]
    } else {
        dec_of(n / 10) + seq![dec_digit((n % 10) as int)]
    }
}

/// The decimal rendering of a signed value: a minus sign before the digits
/// of the magnitude when negative.
pub open spec fn dec_of_int(v: int) -> Seq<char> {
    if v < 0 {
        seq!['-'] + dec_of((-v) as nat)
    } else {
        dec_of(v as nat)
    }
}

pub open spec fn is_dec_digit(c: char) -> bool {
    '0' <= c && c <= '9'
}

pub open spec fn dec_digit_value(c: char) -> int {
    c as int - '0' as int
}

pub open spec fn all_dec_digits(s: Seq<char>) -> bool {
    forall|i: int| 0 <= i < s.len() ==> is_dec_digit(#[trigger] s[i])
}

/// The numeric value of a digit string, by place value.
pub open spec fn dec_value(s: Seq<char>) -> nat
    decreases s.len(),
{
    if s.len() == 0 {
        0
    } else {
        dec_value(s.drop_last()) * 10 + dec_digit_value(s.last()) as nat
    }
}

/// What `u64` a string denotes: its digits' value, if it is all digits,
/// nonempty, and in range.
pub open spec fn parse_u64_of(s: Seq<char>) -> Option<u64> {
    if s.len() > 0 && all_dec_digits(s) && dec_value(s) <= u64::MAX {
        Some(dec_value(s) as u64)
    } else {
        None
    }
}

/// One decimal digit as a string slice.
fn dec_digit_str(d: u64) -> (r: &'static str)
    requires
        d < 10,
    ensures
        r@ == seq![dec_digit(d as int)],
{
    proof {
        reveal_strlit("0");
        reveal_strlit("1");
        reveal_strlit("2");
        reveal_strlit("3");
        reveal_strlit("4");
        reveal_strlit("5");
        reveal_strlit("6");
        reveal_strlit("7");
        reveal_strlit("8");
        reveal_strlit("9");
    }
    let r = if d == 0 {
        "0"
    } else if d == 1 {
        "1"
    } else if d == 2 {
        "2"
    } else if d == 3 {
        "3"
    } else if d == 4 {
        "4"
    } else if d == 5 {
        "5"
    } else if d == 6 {
        "6"
    } else if d == 7 {
        "7"
    } else if d == 8 {
        "8"
    } else {
        "9"
    };
    assert(r@ =~= seq![dec_digit(d as int)]);
    r
}

/// Appends the decimal rendering of `n` to `out`.
pub fn push_decimal(out: &mut String, n: u64)
    ensures
        final(out)@ == old(out)@ + dec_of(n as nat),
    decreases n,
{
    if n >= 10 {
        push_decimal(out, n / 10);
        out.append(dec_digit_str(n % 10));
        proof {
            assert((n / 10) as nat == n as nat / 10);
            assert((n % 10) as nat == n as nat % 10);
            assert(old(out)@ + dec_of(n as nat) =~= (old(out)@ + dec_of(n as nat / 10)) + seq![
                dec_digit((n as nat % 10) as int),
            ]);
        }
    } else {
        out.append(dec_digit_str(n));
    }
}

/// Appends a signed decimal rendering to `out`.
pub fn push_decimal_i64(out: &mut String, v: i64)
    ensures
        final(out)@ == old(out)@ + dec_of_int(v as int),
{
    if v < 0 {
        let ghost mid = out@;
        out.append("-");
        proof {
            reveal_strlit("-");
        }
        let m: u64 = if v == i64::MIN {
            9223372036854775808u64
        } else {
            (-v) as u64
        };
        push_decimal(out, m);
        proof {
            assert(m as nat == (-(v as int)) as nat);
            assert(old(out)@ + dec_of_int(v as int) =~= (old(out)@ + seq!['-']) + dec_of(
                m as nat,
            ));
        }
    } else {
        push_decimal(out, v as u64);
    }
}

proof fn lemma_dec_value_take_step(s: Seq<char>, i: int)
    requires
        0 <= i < s.len(),
    ensures
        dec_value(s.take(i + 1)) == dec_value(s.take(i)) * 10 + (dec_digit_value(s[i]) as nat),
{
    assert(s.take(i + 1).drop_last() =~= s.take(i));
    assert(s.take(i + 1).last() == s[i]);
}

proof fn lemma_dec_value_nonneg_digit(s: Seq<char>, i: int)
    requires
        0 <= i < s.len(),
        all_dec_digits(s),
    ensures
        0 <= dec_digit_value(s[i]) <= 9,
{
    assert(is_dec_digit(s[i]));
}

/// Extending a digit string never shrinks its value.
proof fn lemma_dec_value_mono(s: Seq<char>, i: int, j: int)
    requires
        0 <= i <= j <= s.len(),
        all_dec_digits(s),
    ensures
        dec_value(s.take(i)) <= dec_value(s.take(j)),
    decreases j - i,
{
    if i < j {
        lemma_dec_value_mono(s, i, j - 1);
        lemma_dec_value_take_step(s, j - 1);
        lemma_dec_value_nonneg_digit(s, j - 1);
        assert(dec_value(s.take(j - 1)) * 10 >= dec_value(s.take(j - 1))) by (nonlinear_arith);
    }
}

/// Parses a string as an unsigned decimal number.
pub fn parse_u64(s: &str) -> (r: Option<u64>)
    ensures
        r == parse_u64_of(s@),
{
    let slen = s.unicode_len();
    if slen == 0 {
        return None;
    }
    let mut acc: u64 = 0;
    let mut i: usize = 0;
    while i < slen
        invariant
            i <= slen,
            slen == s@.len(),
            slen > 0,
            all_dec_digits(s@.take(i as int)),
            acc == dec_value(s@.take(i as int)),
        decreases slen - i,
    {
        let c = s.get_char(i);
        if !('0' <= c && c <= '9') {
            assert(!all_dec_digits(s@)) by {
                assert(!is_dec_digit(s@[i as int]));
            }
            return None;
        }
        let d: u64 = (c as u32 - '0' as u32) as u64;
        assert(d == dec_digit_value(s@[i as int]));
        let step = match acc.checked_mul(10) {
            Some(m) => m.checked_add(d),
            None => None,
        };
        match step {
            Some(v) => {
                proof {
                    lemma_dec_value_take_step(s@, i as int);
                }
                acc = v;
            },
            None => {
                proof {
                    lemma_dec_value_take_step(s@, i as int);
                    assert(all_dec_digits(s@.take(i + 1)));
                    assert(dec_value(s@.take(i + 1)) > u64::MAX);
                    if all_dec_digits(s@) {
                        lemma_dec_value_mono(s@, i + 1, slen as int);
                        assert(s@.take(slen as int) =~= s@);
                    }
                }
                return None;
            },
        }
        assert(s@.take(i + 1).drop_last() =~= s@.take(i as int));
        i += 1;
    }
    assert(s@.take(slen as int) =~= s@);
    Some(acc)
}

/// What `u32` a string denotes, an optional leading plus sign accepted.
pub open spec fn parse_u32_of(s: Seq<char>) -> Option<u32> {
    let digits = if s.len() > 0 && s[0] == '+' {
        s.skip(1)
    } else {
        s
    };
    match parse_u64_of(digits) {
        Some(v) => if v <= u32::MAX {
            Some(v as u32)
        } else {
            None
        },
        None => None,
    }
}

/// What `i32` a string denotes, an optional leading sign accepted.
pub open spec fn parse_i32_of(s: Seq<char>) -> Option<i32> {
    if s.len() > 0 && s[0] == '-' {
        match parse_u64_of(s.skip(1)) {
            Some(v) => if v <= 0x8000_0000u64 {
                Some((-(v as int)) as i32)
            } else {
                None
            },
            None => None,
        }
    } else {
        let digits = if s.len() > 0 && s[0] == '+' {
            s.skip(1)
        } else {
            s
        };
        match parse_u64_of(digits) {
            Some(v) => if v <= i32::MAX as u64 {
                Some(v as i32)
            } else {
                None
            },
            None => None,
        }
    }
}

/// Parses a string as a `u32`, accepting a leading plus sign.
pub fn parse_u32(s: &str) -> (r: Option<u32>)
    ensures
        r == parse_u32_of(s@),
{
    let slen = s.unicode_len();
    let digits = if slen > 0 && s.get_char(0) == '+' {
        s.substring_char(1, slen)
    } else {
        s
    };
    assert(digits@ =~= if s@.len() > 0 && s@[0] == '+' {
        s@.skip(1)
    } else {
        s@
    });
    match parse_u64(digits) {
        Some(v) => if v <= u32::MAX as u64 {
            Some(v as u32)
        } else {
            None
        },
        None => None,
    }
}

/// Parses a string as an `i32`, accepting a leading sign.
pub fn parse_i32(s: &str) -> (r: Option<i32>)
    ensures
        r == parse_i32_of(s@),
{
    let slen = s.unicode_len();
    if slen > 0 && s.get_char(0) == '-' {
        let digits = s.substring_char(1, slen);
        assert(digits@ =~= s@.skip(1));
        match parse_u64(digits) {
            Some(v) => if v <= 0x8000_0000u64 {
                Some((0i64 - v as i64) as i32)
            } else {
                None
            },
            None => None,
        }
    } else {
        let digits = if slen > 0 && s.get_char(0) == '+' {
            s.substring_char(1, slen)
        } else {
            s
        };
        assert(digits@ =~= if s@.len() > 0 && s@[0] == '+' {
            s@.skip(1)
        } else {
            s@
        });
        match parse_u64(digits) {
            Some(v) => if v <= i32::MAX as u64 {
                Some(v as i32)
            } else {
                None
            },
            None => None,
        }
    }
}

/// Printing then parsing an unsigned number gives the number back.
pub proof fn lemma_dec_roundtrip(n: u64)
    ensures
        parse_u64_of(dec_of(n as nat)) == Some(n),
    decreases n,
{
    lemma_dec_of_digits(n as nat);
    lemma_dec_value_of(n as nat);
}

/// Printing then parsing a signed 32-bit number gives the number back.
pub proof fn lemma_dec_roundtrip_i32(v: i32)
    ensures
        parse_i32_of(dec_of_int(v as int)) == Some(v),
{
    if v < 0 {
        let m = (-(v as int)) as nat;
        lemma_dec_of_digits(m);
        lemma_dec_value_of(m);
        assert(dec_of_int(v as int)[0] == '-');
        assert(dec_of_int(v as int).skip(1) =~= dec_of(m));
        assert(m <= 0x8000_0000);
    } else {
        lemma_dec_of_digits(v as nat);
        lemma_dec_value_of(v as nat);
        assert(dec_of_int(v as int) == dec_of(v as nat));
        assert(dec_of(v as nat)[0] != '-' && dec_of(v as nat)[0] != '+') by {
            if v as nat >= 10 {
                lemma_dec_first_is_digit(v as nat);
            }
            assert(is_dec_digit(dec_of(v as nat)[0]));
        }
    }
}

proof fn lemma_dec_first_is_digit(n: nat)
    ensures
        is_dec_digit(dec_of(n)[0]),
    decreases n,
{
    lemma_dec_of_digits(n);
    assert(dec_of(n).len() > 0);
}

/// The first index holding `c`, or the length when `c` does not occur.
pub open spec fn find_char(s: Seq<char>, c: char) -> nat
    decreases s.len(),
{
    if s.len() == 0 {
        0
    } else if s[0] == c {
        0
    } else {
        1 + find_char(s.skip(1), c)
    }
}

pub proof fn lemma_find_char(s: Seq<char>, c: char)
    ensures
        0 <= find_char(s, c) <= s.len(),
        find_char(s, c) < s.len() ==> s[find_char(s, c) as int] == c,
        forall|j: int| 0 <= j < find_char(s, c) ==> s[j] != c,
    decreases s.len(),
{
    if s.len() > 0 && s[0] != c {
        lemma_find_char(s.skip(1), c);
        assert(forall|j: int| 0 <= j < find_char(s, c) ==> s[j] != c) by {
            assert(forall|j: int|
                1 <= j < find_char(s, c) ==> s[j] == s.skip(1)[j - 1] && s.skip(1)[j - 1]
                    != c);
        }
    }
}

/// The pieces of `s` between occurrences of `c`: one piece more than there
/// are occurrences.
pub open spec fn split_on(s: Seq<char>, c: char) -> Seq<Seq<char>>
    decreases s.len(),
{
    let i = find_char(s, c) as int;
    if i >= s.len() {
        seq![s]
    } else {
        seq![s.take(i)] + split_on(s.skip(i + 1), c)
    }
}

pub proof fn lemma_find_char_absent(a: Seq<char>, c: char)
    requires
        !a.contains(c),
    ensures
        find_char(a, c) == a.len(),
{
    lemma_find_char(a, c);
    if find_char(a, c) < a.len() {
        assert(a[find_char(a, c) as int] == c);
        assert(a.contains(c));
    }
}

/// Splitting a string with no separator gives the string alone.
pub proof fn lemma_split_absent(a: Seq<char>, c: char)
    requires
        !a.contains(c),
    ensures
        split_on(a, c) == seq![a],
{
    lemma_find_char_absent(a, c);
}

proof fn lemma_find_char_concat(a: Seq<char>, b: Seq<char>, c: char)
    requires
        !a.contains(c),
    ensures
        find_char(a + seq![c] + b, c) == a.len(),
    decreases a.len(),
{
    let s = a + seq![c] + b;
    if a.len() == 0 {
        assert(s[0] == c);
    } else {
        assert(s[0] == a[0]);
        assert(a[0] != c) by {
            assert(a.contains(c) <==> exists|i: int| 0 <= i < a.len() && a[i] == c);
        }
        let a1 = a.skip(1);
        assert(!a1.contains(c)) by {
            if a1.contains(c) {
                let i = choose|i: int| 0 <= i < a1.len() && a1[i] == c;
                assert(a[i + 1] == c);
            }
        }
        lemma_find_char_concat(a1, b, c);
        assert(s.skip(1) =~= a1 + seq![c] + b);
    }
}

/// Splitting `a + c + b` where `a` is free of the separator yields `a`
/// followed by the split of `b`.
pub proof fn lemma_split_once(a: Seq<char>, b: Seq<char>, c: char)
    requires
        !a.contains(c),
    ensures
        split_on(a + seq![c] + b, c) == seq![a] + split_on(b, c),
{
    let s = a + seq![c] + b;
    lemma_find_char_concat(a, b, c);
    assert(s.take(a.len() as int) =~= a);
    assert(s.skip(a.len() as int + 1) =~= b);
}

/// Splits `s` at every occurrence of `c`.
pub fn split_char(s: &str, c: char) -> (r: Vec<String>)
    ensures
        r@.map_values(|t: String| t@) == split_on(s@, c),
{
    let slen = s.unicode_len();
    let mut out: Vec<String> = Vec::new();
    let mut start: usize = 0;
    let mut i: usize = 0;
    assert(s@.skip(0) =~= s@);
    assert(out@.map_values(|t: String| t@) + split_on(s@, c) =~= split_on(s@, c));
    while i < slen
        invariant
            start <= i <= slen,
            slen == s@.len(),
            forall|j: int| start <= j < i ==> s@[j] != c,
            split_on(s@, c) == out@.map_values(|t: String| t@) + split_on(
                s@.skip(start as int),
                c,
            ),
        decreases slen - i,
    {
        if s.get_char(i) == c {
            let piece = s.substring_char(start, i);
            proof {
                let rest = s@.skip(start as int);
                lemma_find_char(rest, c);
                assert(forall|j: int| 0 <= j < i - start ==> rest[j] == s@[start + j]);
                assert(rest[i - start] == c);
                assert(find_char(rest, c) == i - start) by {
                    if find_char(rest, c) < i - start {
                        assert(rest[find_char(rest, c) as int] != c);
                    }
                    if find_char(rest, c) > i - start {
                        assert(rest[i - start] != c);
                    }
                }
                assert(rest.take(i - start) =~= piece@);
                assert(rest.skip(i - start + 1) =~= s@.skip(i + 1));
            }
            let owned = piece.to_owned();
            proof {
                assert((out@ + seq![owned]).map_values(|t: String| t@) =~= out@.map_values(
                    |t: String| t@,
                ) + seq![owned@]);
                assert(out@.map_values(|t: String| t@) + (seq![owned@] + split_on(
                    s@.skip(i + 1),
                    c,
                )) =~= (out@.map_values(|t: String| t@) + seq![owned@]) + split_on(
                    s@.skip(i + 1),
                    c,
                ));
            }
            out.push(owned);
            start = i + 1;
        }
        i += 1;
    }
    let last = s.substring_char(start, slen);
    proof {
        let rest = s@.skip(start as int);
        lemma_find_char(rest, c);
        assert(forall|j: int| 0 <= j < rest.len() ==> rest[j] == s@[start + j] && s@[start + j]
            != c);
        assert(find_char(rest, c) >= rest.len());
        assert(split_on(rest, c) == seq![rest]);
        assert(last@ =~= rest);
    }
    let owned_last = last.to_owned();
    proof {
        assert((out@ + seq![owned_last]).map_values(|t: String| t@) =~= out@.map_values(
            |t: String| t@,
        ) + seq![owned_last@]);
    }
    out.push(owned_last);
    out
}

pub proof fn lemma_dec_of_digits(n: nat)
    ensures
        dec_of(n).len() > 0,
        all_dec_digits(dec_of(n)),
    decreases n,
{
    if n >= 10 {
        lemma_dec_of_digits(n / 10);
        assert(is_dec_digit(dec_digit((n % 10) as int)));
        assert(forall|i: int|
            0 <= i < dec_of(n).len() ==> is_dec_digit(#[trigger] dec_of(n)[i])) by {
            assert(forall|i: int|
                0 <= i < dec_of(n / 10).len() ==> dec_of(n)[i] == #[trigger] dec_of(
                    n / 10,
                )[i]);
            assert(dec_of(n)[dec_of(n).len() - 1] == dec_digit((n % 10) as int));
        }
    } else {
        assert(is_dec_digit(dec_digit(n as int)));
    }
}

proof fn lemma_dec_value_of(n: nat)
    ensures
        dec_value(dec_of(n)) == n,
    decreases n,
{
    if n >= 10 {
        lemma_dec_value_of(n / 10);
        assert(dec_of(n).drop_last() =~= dec_of(n / 10));
        assert(dec_of(n).last() == dec_digit((n % 10) as int));
        assert(dec_digit_value(dec_digit((n % 10) as int)) == n % 10);
        assert(n / 10 * 10 + n % 10 == n) by (nonlinear_arith);
    } else {
        assert(dec_of(n) =~= seq![dec_digit(n as int)]);
        assert(dec_value(dec_of(n).drop_last()) == 0);
        assert(dec_digit_value(dec_digit(n as int)) == n);
    }
}

} // verus!
