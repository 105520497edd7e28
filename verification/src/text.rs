//! Numerals and comparisons over the bytes of a message.

use vstd::prelude::*;
use vstd::utf8::*;
use vstd::string::*;

verus! {

/// Carriage return.
pub const CR: u8 = 13;

/// Line feed.
pub const LF: u8 = 10;

/// The digit `0`.
pub const ZERO: u8 = 48;

/// The value of a byte read as a digit, up to hexadecimal; -1 where it is none.
pub open spec fn digit_of(b: u8) -> int {
    if 48 <= b <= 57 {
        b - 48
    } else if 97 <= b <= 102 {
        b - 87
    } else if 65 <= b <= 70 {
        b - 55
    } else {
        -1
    }
}

/// Whether a byte is a digit of the given radix.
pub open spec fn is_digit(b: u8, radix: int) -> bool {
    0 <= digit_of(b) < radix
}

/// Whether every byte is a digit of the given radix.
pub open spec fn all_digits(s: Seq<u8>, radix: int) -> bool {
    forall|i: int| 0 <= i < s.len() ==> is_digit(#[trigger] s[i], radix)
}

/// The number that a run of digits writes, most significant digit first.
pub open spec fn numeral_value(s: Seq<u8>, radix: int) -> int
    decreases s.len(),
{
    if s.len() == 0 {
        0
    } else {
        numeral_value(s.drop_last(), radix) * radix + digit_of(s.last())
    }
}

/// What a numeral denotes when it has to fit in 64 bits: a value for a
/// non-empty run of digits that fits, nothing otherwise.
pub open spec fn bounded_numeral(s: Seq<u8>, radix: int) -> Option<u64> {
    if s.len() > 0 && all_digits(s, radix) && numeral_value(s, radix) <= u64::MAX {
        Some(numeral_value(s, radix) as u64)
    } else {
        None
    }
}

/// The decimal numeral of a number, without leading zeros.
pub open spec fn decimal_text(n: nat) -> Seq<u8>
    decreases n,
{
    if n < 10 {
        seq![(48 + n) as u8]
    } else {
        decimal_text(n / 10).push((48 + n % 10) as u8)
    }
}

/// A numeral is worth at least as much as each of its prefixes.
pub proof fn lemma_numeral_prefix(s: Seq<u8>, radix: int, k: int)
    requires
        2 <= radix <= 16,
        all_digits(s, radix),
        0 <= k <= s.len(),
    ensures
        0 <= numeral_value(s.take(k), radix) <= numeral_value(s, radix),
    decreases s.len() - k,
{
    if k == s.len() {
        assert(s.take(k) =~= s);
        lemma_numeral_nonnegative(s, radix);
    } else {
        lemma_numeral_prefix(s, radix, k + 1);
        let longer = s.take(k + 1);
        assert(longer.drop_last() =~= s.take(k));
        assert(longer.last() == s[k]);
        assert(all_digits(s.take(k), radix));
        lemma_numeral_nonnegative(s.take(k), radix);
        let v = numeral_value(s.take(k), radix);
        assert(v * radix >= v) by (nonlinear_arith)
            requires
                v >= 0,
                radix >= 2,
        ;
    }
}

/// A run of digits denotes no negative number.
pub proof fn lemma_numeral_nonnegative(s: Seq<u8>, radix: int)
    requires
        2 <= radix <= 16,
        all_digits(s, radix),
    ensures
        0 <= numeral_value(s, radix),
    decreases s.len(),
{
    if s.len() > 0 {
        lemma_numeral_nonnegative(s.drop_last(), radix);
        let v = numeral_value(s.drop_last(), radix);
        assert(v * radix >= 0) by (nonlinear_arith)
            requires
                v >= 0,
                radix >= 2,
        ;
    }
}

/// The power of a radix.
pub open spec fn power(radix: int, exponent: nat) -> int
    decreases exponent,
{
    if exponent == 0 {
        1
    } else {
        radix * power(radix, (exponent - 1) as nat)
    }
}

/// A numeral that begins with a digit other than zero is worth at least
/// the radix to the power of the number of digits that follow the first.
pub proof fn lemma_numeral_at_least(s: Seq<u8>, radix: int)
    requires
        2 <= radix <= 16,
        all_digits(s, radix),
        s.len() >= 1,
        digit_of(s[0]) >= 1,
    ensures
        numeral_value(s, radix) >= power(radix, (s.len() - 1) as nat),
    decreases s.len(),
{
    let front = s.drop_last();
    if s.len() == 1 {
        assert(numeral_value(front, radix) == 0);
    } else {
        assert(front[0] == s[0]);
        lemma_numeral_at_least(front, radix);
        let v = numeral_value(front, radix);
        let p = power(radix, (front.len() - 1) as nat);
        assert(v * radix >= radix * p) by (nonlinear_arith)
            requires
                v >= p,
                radix >= 2,
        ;
    }
}

/// A numeral of more than twenty digits that begins with a digit other than
/// zero denotes no number of 64 bits, in decimal or hexadecimal.
pub proof fn lemma_long_numeral_overflows(s: Seq<u8>, radix: int)
    requires
        radix == 10 || radix == 16,
        all_digits(s, radix),
        s.len() > 20,
        digit_of(s[0]) >= 1,
    ensures
        numeral_value(s, radix) > u64::MAX,
{
    let front = s.take(21);
    lemma_numeral_prefix(s, radix, 21);
    assert(front[0] == s[0]);
    lemma_numeral_at_least(front, radix);
    reveal_with_fuel(power, 21);
    assert(power(10, 20) == 100000000000000000000);
    assert(power(16, 20) == 1208925819614629174706176);
}

/// Reading back the decimal numeral of a number gives the number.
pub proof fn lemma_decimal_text_value(n: nat)
    ensures
        decimal_text(n).len() > 0,
        all_digits(decimal_text(n), 10),
        numeral_value(decimal_text(n), 10) == n,
    decreases n,
{
    if n < 10 {
        let s = decimal_text(n);
        assert(s.drop_last() =~= Seq::<u8>::empty());
        assert(numeral_value(s.drop_last(), 10) == 0);
    } else {
        lemma_decimal_text_value(n / 10);
        let s = decimal_text(n);
        assert(s.drop_last() =~= decimal_text(n / 10));
    }
}

/// Reads a non-empty run of digits of a radix from 2 to 16 as a number of
/// 64 bits.
pub fn parse_numeral(s: &[u8], radix: u64) -> (r: Option<u64>)
    requires
        2 <= radix <= 16,
    ensures
        r == bounded_numeral(s@, radix as int),
{
    if s.len() == 0 {
        return None;
    }
    let mut acc: u64 = 0;
    let mut i: usize = 0;
    while i < s.len()
        invariant
            0 <= i <= s.len(),
            2 <= radix <= 16,
            all_digits(s@.take(i as int), radix as int),
            acc == numeral_value(s@.take(i as int), radix as int),
        decreases s.len() - i,
    {
        let b = s[i];
        let d: u64 = if 48 <= b && b <= 57 {
            (b - 48) as u64
        } else if 97 <= b && b <= 102 {
            (b - 87) as u64
        } else if 65 <= b && b <= 70 {
            (b - 55) as u64
        } else {
            16
        };
        if d >= radix {
            assert(!is_digit(s@[i as int], radix as int));
            return None;
        }
        proof {
            let longer = s@.take(i + 1);
            assert(longer.drop_last() =~= s@.take(i as int));
            assert(longer.last() == s@[i as int]);
            assert(all_digits(longer, radix as int)) by {
                assert forall|j: int| 0 <= j < longer.len() implies is_digit(
                    #[trigger] longer[j],
                    radix as int,
                ) by {
                    if j < i {
                        assert(longer[j] == s@.take(i as int)[j]);
                    }
                }
            }
            if !all_digits(s@, radix as int) {
            } else {
                lemma_numeral_prefix(s@, radix as int, i + 1);
            }
        }
        let scaled = match acc.checked_mul(radix) {
            Some(m) => m,
            None => {
                return None;
            },
        };
        acc = match scaled.checked_add(d) {
            Some(a) => a,
            None => {
                return None;
            },
        };
        i += 1;
    }
    assert(s@.take(i as int) =~= s@);
    Some(acc)
}

/// Appends the decimal numeral of `n`.
pub fn push_decimal(out: &mut Vec<u8>, n: u64)
    ensures
        final(out)@ == old(out)@ + decimal_text(n as nat),
    decreases n,
{
    if n >= 10 {
        push_decimal(out, n / 10);
    }
    out.push(48 + (n % 10) as u8);
    assert(final(out)@ =~= old(out)@ + decimal_text(n as nat));
}

/// Whether two byte strings hold the same bytes.
pub fn bytes_eq(a: &[u8], b: &[u8]) -> (r: bool)
    ensures
        r == (a@ == b@),
{
    if a.len() != b.len() {
        return false;
    }
    let mut i: usize = 0;
    while i < a.len()
        invariant
            0 <= i <= a.len(),
            a.len() == b.len(),
            a@.take(i as int) == b@.take(i as int),
        decreases a.len() - i,
    {
        if a[i] != b[i] {
            return false;
        }
        assert(a@.take(i + 1) =~= a@.take(i as int).push(a@[i as int]));
        assert(b@.take(i + 1) =~= b@.take(i as int).push(b@[i as int]));
        i += 1;
    }
    assert(a@.take(i as int) =~= a@);
    assert(b@.take(i as int) =~= b@);
    true
}

/// Two texts are the same when their encodings are.
pub proof fn lemma_encoding_injective(a: Seq<char>, b: Seq<char>)
    ensures
        (encode_utf8(a) == encode_utf8(b)) == (a == b),
{
    encode_utf8_decode_utf8(a);
    encode_utf8_decode_utf8(b);
}

/// Whether two texts are the same, byte for byte.
pub fn str_eq(a: &str, b: &str) -> (r: bool)
    ensures
        r == (a@ == b@),
{
    proof {
        lemma_encoding_injective(a@, b@);
    }
    bytes_eq(a.as_bytes(), b.as_bytes())
}

/// In well-formed text a character begins at every ASCII byte, and one
/// begins or the text ends behind it.
pub proof fn lemma_ascii_boundary(bytes: Seq<u8>, i: int)
    requires
        valid_utf8(bytes),
        0 <= i < bytes.len(),
        bytes[i] < 128,
    ensures
        is_char_boundary(bytes, i),
        is_char_boundary(bytes, i + 1),
{
    is_char_boundary_iff_not_is_continuation_byte(bytes, i);
    if i + 1 < bytes.len() {
        valid_utf8_split(bytes, i);
        let suffix = bytes.subrange(i, bytes.len() as int);
        let rest = pop_first_scalar(suffix);
        assert(suffix[0] == bytes[i]);
        assert(valid_utf8(rest));
        assert(rest[0] == bytes[i + 1]);
        assert(is_char_boundary(rest, 0));
        is_char_boundary_iff_not_is_continuation_byte(rest, 0);
        is_char_boundary_iff_not_is_continuation_byte(bytes, i + 1);
    } else {
        is_char_boundary_start_end_of_seq(bytes);
    }
}

/// The part of a text between two character boundaries.
pub fn str_slice<'a>(s: &'a str, from: usize, to: usize) -> (part: &'a str)
    requires
        from <= to <= s.spec_bytes().len(),
        is_char_boundary(s.spec_bytes(), from as int),
        is_char_boundary(s.spec_bytes(), to as int),
    ensures
        part.spec_bytes() == s.spec_bytes().subrange(from as int, to as int),
{
    let (front, _) = s.split_at(to);
    proof {
        encode_utf8_valid_utf8(s@);
        encode_utf8_valid_utf8(front@);
        if from < to {
            is_char_boundary_iff_not_is_continuation_byte(s.spec_bytes(), from as int);
            is_char_boundary_iff_not_is_continuation_byte(front.spec_bytes(), from as int);
        } else {
            is_char_boundary_start_end_of_seq(front.spec_bytes());
        }
    }
    let (_, part) = front.split_at(from);
    assert(part.spec_bytes() =~= s.spec_bytes().subrange(from as int, to as int));
    part
}

} // verus!
