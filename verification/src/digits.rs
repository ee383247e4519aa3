//! Writing integers as decimal and hexadecimal digits.
use vstd::prelude::*;

use crate::snr::layout::message_parser::sink::string_push;

verus! {

/// The character of a digit value below 16, lower case.
pub open spec fn digit_char(d: nat) -> char {
    if d < 10 {
        ((48 + d) as u32) as char
    } else {
        ((87 + d) as u32) as char
    }
}

/// The decimal digits of `n`, without leading zeros (`0` for zero).
pub open spec fn decimal(n: nat) -> Seq<char>
    decreases n,
{
    if n < 10 {
        seq![digit_char(n)]
    } else {
        decimal(n / 10).push(digit_char(n % 10))
    }
}

/// The last `k` hexadecimal digits of `n`, with leading zeros.
pub open spec fn hex_fixed(n: nat, k: nat) -> Seq<char>
    decreases k,
{
    if k == 0 {
        Seq::empty()
    } else {
        hex_fixed(n / 16, (k - 1) as nat).push(digit_char(n % 16))
    }
}

/// The character of a digit value below 16.
fn digit(d: u32) -> (r: char)
    requires
        d < 16,
    ensures
        r == digit_char(d as nat),
{
    if d < 10 {
        let c = (48 + d) as u8 as char;
        c
    } else {
        let c = (87 + d) as u8 as char;
        c
    }
}

/// Appends the decimal digits of `n`.
pub fn push_decimal(s: &mut String, n: u64)
    ensures
        final(s)@ == old(s)@ + decimal(n as nat),
    decreases n,
{
    if n >= 10 {
        push_decimal(s, n / 10);
    }
    string_push(s, digit((n % 10) as u32));
    proof {
        if n >= 10 {
            assert(old(s)@ + decimal((n / 10) as nat) + seq![digit_char((n % 10) as nat)] =~= old(s)@
                + decimal(n as nat));
        } else {
            assert(old(s)@.push(digit_char(n as nat)) =~= old(s)@ + decimal(n as nat));
        }
    }
}

/// Appends the eight hexadecimal digits of `n`, lower case with leading zeros.
pub fn push_hex8(s: &mut String, n: u32)
    ensures
        final(s)@ == old(s)@ + hex_fixed(n as nat, 8),
{
    let mut k: u32 = 8;
    let ghost start = s@;
    proof {
        lemma_pow16_positive(8);
    }
    assert(hex_fixed(n as nat / pow16(8), 0) =~= Seq::<char>::empty());
    assert(start + hex_fixed(n as nat / pow16(8), 0) =~= start);
    while k > 0
        invariant
            k <= 8,
            s@ == start + hex_fixed(n as nat / pow16(k as nat), (8 - k) as nat),
        decreases k,
    {
        k = k - 1;
        let shift = k * 4;
        let d = (n >> shift) & 0xf;
        proof {
            lemma_hex_digit_at(n, k);
            lemma_pow16_positive(k as nat);
            lemma_pow16_positive((k + 1) as nat);
        }
        string_push(s, digit(d));
        proof {
            assert(s@ =~= start + hex_fixed(n as nat / pow16(k as nat), (8 - k) as nat));
        }
    }
    proof {
        assert(pow16(0) == 1);
        assert(n as nat / 1 == n as nat);
    }
}

/// `16` to the power `k`.
pub open spec fn pow16(k: nat) -> nat
    decreases k,
{
    if k == 0 {
        1
    } else {
        16 * pow16((k - 1) as nat)
    }
}

/// Powers of 16 are positive.
proof fn lemma_pow16_positive(k: nat)
    ensures
        pow16(k) > 0,
    decreases k,
{
    if k > 0 {
        lemma_pow16_positive((k - 1) as nat);
    }
}

/// The hexadecimal digit of `n` at position `k`, and how the leading digits extend.
proof fn lemma_hex_digit_at(n: u32, k: u32)
    requires
        k < 8,
    ensures
        (n >> ((k * 4) as u32)) & 0xf < 16,
        ((n >> ((k * 4) as u32)) & 0xf) as nat == (n as nat / pow16(k as nat)) % 16,
        hex_fixed(n as nat / pow16(k as nat), (8 - k) as nat) == hex_fixed(
            n as nat / pow16((k + 1) as nat),
            (8 - (k + 1)) as nat,
        ).push(digit_char((n as nat / pow16(k as nat)) % 16)),
{
    assert((n >> ((k * 4) as u32)) & 0xf < 16) by (bit_vector);
    lemma_shift_is_div(n, k);
    let q = n as nat / pow16(k as nat);
    assert(pow16((k + 1) as nat) == 16 * pow16(k as nat));
    vstd::arithmetic::div_mod::lemma_div_denominator(n as int, pow16(k as nat) as int, 16);
    assert(q / 16 == n as nat / pow16((k + 1) as nat)) by {
        assert(pow16(k as nat) * 16 == 16 * pow16(k as nat)) by (nonlinear_arith);
    }
    assert((n >> ((k * 4) as u32)) & 0xf == (n >> ((k * 4) as u32)) % 16) by (bit_vector);
}

/// Shifting right by four bits per digit divides by a power of 16.
proof fn lemma_shift_is_div(n: u32, k: u32)
    requires
        k < 8,
    ensures
        (n >> ((k * 4) as u32)) as nat == n as nat / pow16(k as nat),
        pow16(k as nat) > 0,
    decreases k,
{
    if k == 0 {
        assert(n >> ((0u32 * 4) as u32) == n) by (bit_vector);
        assert(pow16(0) == 1);
        assert(n as nat / 1 == n as nat) by (nonlinear_arith);
    } else {
        let j = (k - 1) as u32;
        lemma_shift_is_div(n, j);
        let m = n >> ((j * 4) as u32);
        assert(n >> ((k * 4) as u32) == (n >> ((j * 4) as u32)) >> 4u32) by (bit_vector)
            requires
                k == j + 1,
                j < 7,
        ;
        assert(m >> 4u32 == m / 16) by (bit_vector);
        let pj = pow16(j as nat);
        assert(pow16(k as nat) == 16 * pj);
        vstd::arithmetic::div_mod::lemma_div_denominator(n as int, pj as int, 16);
        assert(pj * 16 == 16 * pj) by (nonlinear_arith);
        assert((n as nat / pj) / 16 == n as nat / pow16(k as nat));
        assert(m as nat == n as nat / pj);
        assert((n >> ((k * 4) as u32)) as nat == (m / 16) as nat);
    }
}

} // verus!

verus! {

/// The character of a digit value below 16, upper case.
pub open spec fn upper_digit_char(d: nat) -> char {
    if d < 10 {
        ((48 + d) as u32) as char
    } else {
        ((55 + d) as u32) as char
    }
}

/// The upper-case hexadecimal digits of `n`, without leading zeros (`0` for zero).
pub open spec fn hex_upper(n: nat) -> Seq<char>
    decreases n,
{
    if n < 16 {
        seq![upper_digit_char(n)]
    } else {
        hex_upper(n / 16).push(upper_digit_char(n % 16))
    }
}

/// `0x` and the upper-case hexadecimal digits of `n`, with zeros in front up to `width`
/// characters in all.
pub open spec fn hex_upper_prefixed(n: nat, width: nat) -> Seq<char> {
    let digits = hex_upper(n);
    let pad = if width > digits.len() + 2 {
        (width - digits.len() - 2) as nat
    } else {
        0
    };
    seq!['0', 'x'] + Seq::new(pad, |_i: int| '0') + digits
}

/// The upper-case character of a digit value below 16.
fn upper_digit(d: u32) -> (r: char)
    requires
        d < 16,
    ensures
        r == upper_digit_char(d as nat),
{
    if d < 10 {
        let c = (48 + d) as u8 as char;
        c
    } else {
        let c = (55 + d) as u8 as char;
        c
    }
}

/// The number of upper-case hexadecimal digits of `n`.
fn hex_upper_len(n: u32) -> (r: usize)
    ensures
        r == hex_upper(n as nat).len(),
        1 <= r <= 8,
    decreases n,
{
    if n < 16 {
        1
    } else {
        proof {
            lemma_hex_upper_len_bound(n as nat);
        }
        1 + hex_upper_len(n / 16)
    }
}

/// A 32-bit value has at most eight hexadecimal digits.
proof fn lemma_hex_upper_len_bound(n: nat)
    requires
        n <= u32::MAX,
    ensures
        1 <= hex_upper(n).len() <= 8,
        n < 16 ==> hex_upper(n).len() == 1,
    decreases n,
{
    if n >= 16 {
        lemma_hex_upper_len_bound(n / 16);
        if n / 16 >= 0x1000_0000 {
            assert(n >= 0x1_0000_0000);
        }
        lemma_hex_upper_len_small(n / 16);
    }
}

/// A value below `16^k` has at most `k` digits.
proof fn lemma_hex_upper_len_small(n: nat)
    ensures
        n < 0x1000_0000 ==> hex_upper(n).len() <= 7,
    decreases n,
{
    if n >= 16 {
        lemma_hex_upper_len_small(n / 16);
        if n < 0x1000_0000 {
            lemma_hex_upper_len_small6(n / 16);
        }
    }
}

/// A value below `16^6` has at most six digits.
proof fn lemma_hex_upper_len_small6(n: nat)
    requires
        n < 0x100_0000,
    ensures
        hex_upper(n).len() <= 6,
    decreases n,
{
    reveal_with_fuel(hex_upper, 7);
    if n >= 16 {
        lemma_hex_upper_len_small6(n / 16);
    }
}

/// Appends the upper-case hexadecimal digits of `n`.
fn push_hex_upper(s: &mut String, n: u32)
    ensures
        final(s)@ == old(s)@ + hex_upper(n as nat),
    decreases n,
{
    if n >= 16 {
        push_hex_upper(s, n / 16);
    }
    string_push(s, upper_digit(n % 16));
    proof {
        if n >= 16 {
            assert(old(s)@ + hex_upper((n / 16) as nat) + seq![upper_digit_char((n % 16) as nat)] =~= old(s)@
                + hex_upper(n as nat));
        } else {
            assert(old(s)@.push(upper_digit_char(n as nat)) =~= old(s)@ + hex_upper(n as nat));
        }
    }
}

/// Appends `0x` and the upper-case hexadecimal digits of `n`, zero-padded to `width`
/// characters in all.
pub fn push_hex_upper_prefixed(s: &mut String, n: u32, width: usize)
    ensures
        final(s)@ == old(s)@ + hex_upper_prefixed(n as nat, width as nat),
{
    string_push(s, '0');
    string_push(s, 'x');
    let len = hex_upper_len(n);
    let mut pad: usize = if width > len + 2 {
        width - len - 2
    } else {
        0
    };
    let ghost total = pad;
    let ghost start = s@;
    let mut i: usize = 0;
    while i < pad
        invariant
            i <= pad,
            s@ == start + Seq::new(i as nat, |_j: int| '0'),
        decreases pad - i,
    {
        string_push(s, '0');
        i = i + 1;
        assert(s@ =~= start + Seq::new(i as nat, |_j: int| '0'));
    }
    push_hex_upper(s, n);
    assert(s@ =~= old(s)@ + hex_upper_prefixed(n as nat, width as nat));
}

/// Appends the decimal digits of `n`.
pub fn push_decimal_u8(s: &mut String, n: u8)
    ensures
        final(s)@ == old(s)@ + decimal(n as nat),
{
    push_decimal(s, n as u64);
}

} // verus!

verus! {

/// The lower-case hexadecimal digits of `n`, without leading zeros (`0` for zero).
pub open spec fn hex_lower(n: nat) -> Seq<char>
    decreases n,
{
    if n < 16 {
        seq![digit_char(n)]
    } else {
        hex_lower(n / 16).push(digit_char(n % 16))
    }
}

/// Parts separated by `, `.
pub open spec fn joined(parts: Seq<Seq<char>>) -> Seq<char>
    decreases parts.len(),
{
    if parts.len() == 0 {
        Seq::empty()
    } else if parts.len() == 1 {
        parts[0]
    } else {
        joined(parts.drop_last()) + seq![',', ' '] + parts.last()
    }
}

} // verus!
