//! Small string utilities the protocol and listing logic builds on:
//! equality of string slices, UTF-8 decoding of wire bytes, Unicode
//! uppercasing, and decimal parsing of range bounds.

use vstd::prelude::*;
use vstd::string::StringSliceAdditionalSpecFns;
use vstd::utf8::*;

verus! {

/// Compare two byte slices for equality.
pub fn bytes_eq(a: &[u8], b: &[u8]) -> (r: bool)
    ensures
        r == (a@ == b@),
{
    if a.len() != b.len() {
        proof {
            assert(a@.len() != b@.len());
        }
        return false;
    }
    let mut i: usize = 0;
    while i < a.len()
        invariant
            i <= a.len(),
            a@.len() == b@.len(),
            forall|j: int| 0 <= j < i ==> a@[j] == b@[j],
        decreases a.len() - i,
    {
        if a[i] != b[i] {
            return false;
        }
        i = i + 1;
    }
    proof {
        assert(a@ =~= b@);
    }
    true
}

/// Compare two string slices for equality of their character sequences.
pub fn str_eq(a: &str, b: &str) -> (r: bool)
    ensures
        r == (a@ == b@),
{
    let r = bytes_eq(a.as_bytes(), b.as_bytes());
    proof {
        if r {
            encode_utf8_decode_utf8(a@);
            encode_utf8_decode_utf8(b@);
        }
    }
    r
}

/// Relies on `core::str::from_utf8`: it returns `Ok` exactly on valid
/// UTF-8 input, and the returned slice borrows those same bytes.
#[verifier::external_body]
pub fn utf8_to_str(v: &[u8]) -> (r: Option<&str>)
    ensures
        r is Some <==> valid_utf8(v@),
        r matches Some(s) ==> s.spec_bytes() == v@,
{
    core::str::from_utf8(v).ok()
}

/// The Unicode uppercase mapping of a character sequence, as
/// `str::to_uppercase` computes it.  The mapping depends on the characters
/// alone.
pub uninterp spec fn upper_of(s: Seq<char>) -> Seq<char>;

/// Relies on `str::to_uppercase`: the result is the Unicode uppercase of
/// the input, a function of the characters alone, and empty input gives
/// empty output.
#[verifier::external_body]
pub fn to_uppercase(s: &str) -> (r: String)
    ensures
        r@ == upper_of(s@),
        s@.len() == 0 ==> r@.len() == 0,
{
    s.to_uppercase()
}

/// The first position at or after `from` holding the character `c`.
pub open spec fn spec_find_char(s: Seq<char>, from: int, c: char) -> Option<int>
    decreases s.len() - from,
{
    if from < 0 || from >= s.len() {
        None
    } else if s[from] == c {
        Some(from)
    } else {
        spec_find_char(s, from + 1, c)
    }
}

/// Find the first occurrence of `c` in `s` at or after `from`.
pub fn find_char(s: &str, from: usize, c: char) -> (r: Option<usize>)
    ensures
        match spec_find_char(s@, from as int, c) {
            Some(i) => r == Some(i as usize) && from <= i < s@.len() && s@[i] == c,
            None => r is None,
        },
{
    let n = s.unicode_len();
    let mut i = from;
    while i < n
        invariant
            from <= i,
            n == s@.len(),
            forall|j: int| from <= j < i ==> s@[j] != c,
            spec_find_char(s@, from as int, c) == spec_find_char(s@, i as int, c),
        decreases n - i,
    {
        if s.get_char(i) == c {
            proof {
                assert(spec_find_char(s@, i as int, c) == Some(i as int));
            }
            return Some(i);
        }
        i = i + 1;
    }
    None
}

/// Whether `suf` is a suffix of `s`.
pub open spec fn spec_str_suffix(s: Seq<char>, suf: Seq<char>) -> bool {
    s.len() >= suf.len() && s.skip(s.len() - suf.len()) == suf
}

/// Decide whether `s` ends with the characters of `suffix`.
pub fn str_ends_with(s: &str, suffix: &str) -> (r: bool)
    ensures
        r == spec_str_suffix(s@, suffix@),
{
    let n = s.unicode_len();
    let m = suffix.unicode_len();
    if m > n {
        proof {
            assert(!spec_str_suffix(s@, suffix@));
        }
        return false;
    }
    let mut i: usize = 0;
    while i < m
        invariant
            i <= m,
            m <= n,
            n == s@.len(),
            m == suffix@.len(),
            forall|j: int| 0 <= j < i ==> s@[n - m + j] == suffix@[j],
        decreases m - i,
    {
        if s.get_char(n - m + i) != suffix.get_char(i) {
            proof {
                assert(s@.skip(s@.len() - suffix@.len())[i as int] != suffix@[i as int]);
            }
            return false;
        }
        i = i + 1;
    }
    proof {
        assert(s@.skip(s@.len() - suffix@.len()) =~= suffix@);
    }
    true
}

/// Whether the character is a decimal digit.
pub open spec fn is_dec_digit(c: char) -> bool {
    48 <= c as u32 && c as u32 <= 57
}

/// The numeric value of a sequence of decimal digits, most significant
/// first.
pub open spec fn digits_val(s: Seq<char>) -> nat
    decreases s.len(),
{
    if s.len() == 0 {
        0
    } else {
        digits_val(s.drop_last()) * 10 + (s.last() as u32 - 48) as nat
    }
}

/// The digit run of a decimal literal: everything after an optional
/// leading plus sign.
pub open spec fn spec_dec_digits(s: Seq<char>) -> Seq<char> {
    if s.len() > 0 && s[0] == '+' {
        s.drop_first()
    } else {
        s
    }
}

/// Whether a string is a decimal `u64` literal: an optional leading plus
/// sign, then one or more digits, denoting a value that fits in 64 bits.
/// This is the grammar `u64::from_str` accepts.
pub open spec fn spec_is_u64_literal(s: Seq<char>) -> bool {
    &&& spec_dec_digits(s).len() > 0
    &&& forall|i: int| 0 <= i < spec_dec_digits(s).len() ==> is_dec_digit(#[trigger] spec_dec_digits(s)[i])
    &&& digits_val(spec_dec_digits(s)) <= u64::MAX
}

/// Extending a digit run multiplies its value by ten and adds the new
/// digit, so a prefix never exceeds the whole.
proof fn lemma_digits_val_take(s: Seq<char>, i: int)
    requires
        0 <= i < s.len(),
    ensures
        digits_val(s.take(i + 1)) == digits_val(s.take(i)) * 10 + (s[i] as u32 - 48) as nat,
    decreases s.len(),
{
    assert(s.take(i + 1).drop_last() =~= s.take(i));
    assert(s.take(i + 1).last() == s[i]);
}

/// The value of a digit run grows (weakly) as the run is extended.
proof fn lemma_digits_val_prefix_le(s: Seq<char>, i: int)
    requires
        0 <= i <= s.len(),
    ensures
        digits_val(s.take(i)) <= digits_val(s),
    decreases s.len() - i,
{
    if i == s.len() {
        assert(s.take(i) =~= s);
    } else {
        lemma_digits_val_take(s, i);
        lemma_digits_val_prefix_le(s, i + 1);
    }
}

/// Parse a decimal `u64` literal; `None` on any input `u64::from_str`
/// would refuse: an empty digit run, a non-digit, or a value over
/// `u64::MAX`.
pub fn parse_u64(s: &str) -> (r: Option<u64>)
    ensures
        r is Some <==> spec_is_u64_literal(s@),
        r matches Some(v) ==> v == digits_val(spec_dec_digits(s@)),
{
    let n = s.unicode_len();
    let start: usize = if n > 0 && s.get_char(0) == '+' {
        1
    } else {
        0
    };
    let ghost d = spec_dec_digits(s@);
    proof {
        assert(d =~= s@.skip(start as int));
    }
    if start >= n {
        return None;
    }
    let mut acc: u64 = 0;
    let mut i: usize = start;
    while i < n
        invariant
            start <= i <= n,
            n == s@.len(),
            d == s@.skip(start as int),
            d == spec_dec_digits(s@),
            forall|j: int| start <= j < i ==> is_dec_digit(#[trigger] s@[j]),
            acc == digits_val(d.take(i - start)),
        decreases n - i,
    {
        let c = s.get_char(i);
        let cv = c as u32;
        if !(48 <= cv && cv <= 57) {
            proof {
                assert(d[i - start] == s@[i as int]);
                assert(!is_dec_digit(spec_dec_digits(s@)[i - start]));
                assert(!spec_is_u64_literal(s@));
            }
            return None;
        }
        let digit: u64 = (cv - 48) as u64;
        proof {
            lemma_digits_val_take(d, i - start);
        }
        // `u64::MAX` is 18446744073709551615; the next digit overflows
        // exactly when the accumulator exceeds its first nineteen digits,
        // or equals them and the digit exceeds the last.
        if acc > 1844674407370955161u64 || (acc == 1844674407370955161u64 && digit > 5) {
            proof {
                assert(digits_val(d.take(i - start + 1)) > u64::MAX);
                lemma_digits_val_prefix_le(d, i - start + 1);
                assert(digits_val(spec_dec_digits(s@)) > u64::MAX);
                assert(!spec_is_u64_literal(s@));
            }
            return None;
        }
        acc = acc * 10 + digit;
        i = i + 1;
    }
    proof {
        assert(d.take(i - start) =~= d);
        assert(forall|j: int| 0 <= j < d.len() ==> is_dec_digit(#[trigger] d[j]));
    }
    Some(acc)
}

} // verus!
