//! JSON emission at the byte level.  Responses are UTF-8 byte vectors, so
//! string values are escaped on their UTF-8 bytes: multi-byte sequences
//! pass through untouched and never collide with the ASCII bytes that
//! escaping rewrites.

use vstd::prelude::*;
use vstd::string::StringSliceAdditionalSpecFns;

verus! {

/// The decimal digits of `n`, most significant first, as ASCII bytes.
pub open spec fn spec_dec(n: nat) -> Seq<u8>
    decreases n,
{
    if n < 10 {
        seq![(48 + n) as u8]
    } else {
        spec_dec(n / 10).push((48 + n % 10) as u8)
    }
}

/// The value of a run of ASCII digits, most significant first.
pub open spec fn spec_dec_val(s: Seq<u8>) -> nat
    decreases s.len(),
{
    if s.len() == 0 {
        0
    } else {
        spec_dec_val(s.drop_last()) * 10 + (s.last() - 48) as nat
    }
}

/// Whether a byte is an ASCII digit.
pub open spec fn spec_is_digit(b: u8) -> bool {
    48 <= b <= 57
}

/// Reading the digits of `n` back gives `n`; every byte is a digit.
pub proof fn lemma_dec_val_of_dec(n: nat)
    ensures
        spec_dec_val(spec_dec(n)) == n,
        spec_dec(n).len() >= 1,
        forall|i: int| 0 <= i < spec_dec(n).len() ==> spec_is_digit(#[trigger] spec_dec(n)[i]),
    decreases n,
{
    if n < 10 {
        assert(spec_dec(n).drop_last() =~= Seq::<u8>::empty());
        assert((48 + n) as u8 == 48 + n);
        assert(spec_dec(n).last() == (48 + n) as u8);
        assert(spec_dec_val(Seq::<u8>::empty()) == 0);
        assert(spec_dec_val(spec_dec(n)) == spec_dec_val(spec_dec(n).drop_last()) * 10 + (spec_dec(
            n,
        ).last() - 48) as nat);
    } else {
        lemma_dec_val_of_dec(n / 10);
        assert(spec_dec(n).drop_last() =~= spec_dec(n / 10));
        assert((48 + n % 10) as u8 == 48 + n % 10);
        assert(spec_dec(n).last() == (48 + n % 10) as u8);
        assert(spec_dec_val(spec_dec(n)) == spec_dec_val(spec_dec(n).drop_last()) * 10 + (spec_dec(
            n,
        ).last() - 48) as nat);
        assert(n / 10 * 10 + n % 10 == n);
        assert(spec_dec_val(spec_dec(n)) == spec_dec_val(spec_dec(n / 10)) * 10 + ((48 + n % 10)
            as u8 - 48) as nat);
        assert forall|i: int| 0 <= i < spec_dec(n).len() implies spec_is_digit(
            #[trigger] spec_dec(n)[i],
        ) by {
            if i < spec_dec(n).len() - 1 {
                assert(spec_dec(n)[i] == spec_dec(n / 10)[i]);
            }
        }
    }
}

/// Emit `n` in decimal.
pub fn u64_to_dec(n: u64) -> (r: Vec<u8>)
    ensures
        r@ == spec_dec(n as nat),
{
    let mut digits: Vec<u8> = Vec::new();
    let mut m = n;
    loop
        invariant_except_break
            (digits@.len() == 0 && m == n) || (m > 0 && spec_dec(n as nat) == spec_dec(m as nat)
                + digits@.reverse()),
        ensures
            spec_dec(n as nat) == digits@.reverse(),
        decreases m,
    {
        let d: u8 = (m % 10) as u8 + 48;
        let ghost pre = digits@;
        digits.push(d);
        proof {
            assert(digits@.reverse() =~= seq![d] + pre.reverse());
            if m >= 10 {
                assert(spec_dec(m as nat) == spec_dec((m / 10) as nat).push(d));
                assert(spec_dec((m / 10) as nat).push(d) + pre.reverse() =~= spec_dec(
                    (m / 10) as nat,
                ) + digits@.reverse());
            } else {
                assert(spec_dec(m as nat) =~= seq![d]);
                assert(spec_dec(m as nat) + pre.reverse() =~= digits@.reverse());
            }
        }
        m = m / 10;
        if m == 0 {
            break;
        }
    }
    let mut out: Vec<u8> = Vec::new();
    let mut i = digits.len();
    while i > 0
        invariant
            i <= digits@.len(),
            out@.len() == digits@.len() - i,
            forall|j: int| 0 <= j < out@.len() ==> out@[j] == digits@[digits@.len() - 1 - j],
        decreases i,
    {
        i = i - 1;
        out.push(digits[i]);
    }
    proof {
        assert(out@ =~= digits@.reverse());
    }
    out
}

/// The lowercase hexadecimal digit for a value below 16.
pub open spec fn spec_hex_digit(d: u8) -> u8 {
    if d < 10 {
        (48 + d) as u8
    } else {
        (87 + d) as u8
    }
}

/// How one byte of a string value is emitted: quote and backslash are
/// escaped, control bytes become `\u00XX`, everything else passes
/// through.
pub open spec fn spec_esc_byte(b: u8) -> Seq<u8> {
    if b == 34 {
        seq![92u8, 34u8]
    } else if b == 92 {
        seq![92u8, 92u8]
    } else if b < 32 {
        seq![92u8, 117u8, 48u8, 48u8, spec_hex_digit(b / 16), spec_hex_digit(b % 16)]
    } else {
        seq![b]
    }
}

/// A string value's bytes after escaping.
pub open spec fn spec_esc(s: Seq<u8>) -> Seq<u8>
    decreases s.len(),
{
    if s.len() == 0 {
        Seq::empty()
    } else {
        spec_esc_byte(s[0]) + spec_esc(s.drop_first())
    }
}

/// Escaping distributes over appending one byte at the end.
pub proof fn lemma_esc_push(s: Seq<u8>, b: u8)
    ensures
        spec_esc(s.push(b)) == spec_esc(s) + spec_esc_byte(b),
    decreases s.len(),
{
    if s.len() == 0 {
        assert(s.push(b)[0] == b);
        assert(s.push(b).drop_first() =~= Seq::<u8>::empty());
        assert(spec_esc(s.push(b)) == spec_esc_byte(b) + spec_esc(s.push(b).drop_first()));
        assert(spec_esc(s.push(b).drop_first()) =~= Seq::<u8>::empty());
        assert(spec_esc(s.push(b)) =~= spec_esc(s) + spec_esc_byte(b));
    } else {
        assert(s.push(b)[0] == s[0]);
        assert(s.push(b).drop_first() =~= s.drop_first().push(b));
        lemma_esc_push(s.drop_first(), b);
        assert(spec_esc_byte(s[0]) + (spec_esc(s.drop_first()) + spec_esc_byte(b)) =~= (spec_esc_byte(
            s[0],
        ) + spec_esc(s.drop_first())) + spec_esc_byte(b));
    }
}

/// Whether a byte passes through escaping unchanged.
pub open spec fn spec_is_plain_byte(b: u8) -> bool {
    b >= 32 && b != 34 && b != 92
}

/// Whether every byte of a string passes through escaping unchanged.
pub open spec fn spec_is_plain(s: Seq<u8>) -> bool {
    forall|i: int| 0 <= i < s.len() ==> spec_is_plain_byte(#[trigger] s[i])
}

/// Escaping leaves a plain string untouched.
pub proof fn lemma_esc_plain(s: Seq<u8>)
    requires
        spec_is_plain(s),
    ensures
        spec_esc(s) == s,
    decreases s.len(),
{
    if s.len() > 0 {
        assert(spec_is_plain(s.drop_first())) by {
            assert(forall|i: int|
                0 <= i < s.drop_first().len() ==> #[trigger] s.drop_first()[i] == s[i + 1]);
        }
        lemma_esc_plain(s.drop_first());
        assert(spec_esc(s) =~= s);
    }
}

/// A JSON string value: the escaped bytes between quotes.
pub open spec fn spec_json_string(b: Seq<u8>) -> Seq<u8> {
    seq![34u8] + spec_esc(b) + seq![34u8]
}

/// Append the UTF-8 bytes of `s` to `out`.
pub fn push_str_bytes(out: &mut Vec<u8>, s: &str)
    ensures
        final(out)@ == old(out)@ + s.spec_bytes(),
{
    let b = s.as_bytes();
    let mut i: usize = 0;
    while i < b.len()
        invariant
            i <= b@.len(),
            b@ == s.spec_bytes(),
            out@ == old(out)@ + b@.take(i as int),
        decreases b@.len() - i,
    {
        out.push(b[i]);
        proof {
            assert(old(out)@ + b@.take(i as int) + seq![b@[i as int]] =~= old(out)@ + b@.take(i
                + 1));
        }
        i = i + 1;
    }
    proof {
        assert(b@.take(i as int) =~= s.spec_bytes());
    }
}

/// Append the escaped bytes of a string value to `out`.
pub fn push_escaped(out: &mut Vec<u8>, s: &str)
    ensures
        final(out)@ == old(out)@ + spec_esc(s.spec_bytes()),
{
    let b = s.as_bytes();
    let mut i: usize = 0;
    while i < b.len()
        invariant
            i <= b@.len(),
            b@ == s.spec_bytes(),
            out@ == old(out)@ + spec_esc(b@.take(i as int)),
        decreases b@.len() - i,
    {
        let c = b[i];
        let ghost pre = out@;
        if c == 34 {
            out.push(92);
            out.push(34);
        } else if c == 92 {
            out.push(92);
            out.push(92);
        } else if c < 32 {
            out.push(92);
            out.push(117);
            out.push(48);
            out.push(48);
            let hi = c / 16;
            let lo = c % 16;
            out.push(if hi < 10 { 48 + hi } else { 87 + hi });
            out.push(if lo < 10 { 48 + lo } else { 87 + lo });
        } else {
            out.push(c);
        }
        proof {
            assert(out@ =~= pre + spec_esc_byte(c));
            lemma_esc_push(b@.take(i as int), c);
            assert(b@.take(i as int).push(c) =~= b@.take(i + 1));
            assert(out@ =~= old(out)@ + spec_esc(b@.take(i + 1)));
        }
        i = i + 1;
    }
    proof {
        assert(b@.take(i as int) =~= s.spec_bytes());
    }
}

/// Append a whole JSON string value (quotes included) to `out`.
pub fn push_json_string(out: &mut Vec<u8>, s: &str)
    ensures
        final(out)@ == old(out)@ + spec_json_string(s.spec_bytes()),
{
    out.push(34);
    push_escaped(out, s);
    out.push(34);
    proof {
        assert(out@ =~= old(out)@ + spec_json_string(s.spec_bytes()));
    }
}

/// Append `n` in decimal to `out`.
pub fn push_dec(out: &mut Vec<u8>, n: u64)
    ensures
        final(out)@ == old(out)@ + spec_dec(n as nat),
{
    let mut d = u64_to_dec(n);
    out.append(&mut d);
}

} // verus!
