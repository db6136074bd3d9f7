//! Human-readable byte counts (`1.4 GB`).
//!
//! Sizes of a kilobyte or more are shown in the largest unit (up to PB) that
//! keeps the value at least 1, with one decimal. The count is first taken as a
//! 64-bit float (rounded to 53 significant bits, ties to even) and the decimal
//! is rounded half to even, so the text is exactly what formatting
//! `bytes as f64 / 1024^unit` with `{:.1}` prints.

use vstd::prelude::*;

use crate::text::push_char;

verus! {

pub open spec fn pow2(e: nat) -> nat
    decreases e,
{
    if e == 0 {
        1
    } else {
        2 * pow2((e - 1) as nat)
    }
}

/// 1024 to the power `k`.
pub open spec fn pow1024(k: nat) -> nat {
    pow2(10 * k)
}

/// The unit index (0 = B .. 5 = PB): the largest `k <= 5` with `bytes >= 1024^k`.
pub open spec fn unit_of(bytes: nat) -> nat {
    if bytes >= pow1024(5) {
        5
    } else if bytes >= pow1024(4) {
        4
    } else if bytes >= pow1024(3) {
        3
    } else if bytes >= pow1024(2) {
        2
    } else if bytes >= pow1024(1) {
        1
    } else {
        0
    }
}

pub open spec fn unit_name(k: nat) -> Seq<char> {
    if k == 0 {
        seq!['B']
    } else if k == 1 {
        seq!['K', 'B']
    } else if k == 2 {
        seq!['M', 'B']
    } else if k == 3 {
        seq!['G', 'B']
    } else if k == 4 {
        seq!['T', 'B']
    } else {
        seq!['P', 'B']
    }
}

/// Number of low bits dropped when `b` is held in 53 significant bits.
pub open spec fn excess_bits(b: nat) -> nat
    decreases b,
{
    if b < 0x20_0000_0000_0000 {
        0
    } else {
        1 + excess_bits(b / 2)
    }
}

/// `q * 2^s + rem` rounded to a multiple of `2^s`, ties to the even multiple.
pub open spec fn round_even_at(q: nat, rem: nat, s: nat) -> nat {
    if s == 0 {
        q
    } else if rem * 2 > pow2(s) || (rem * 2 == pow2(s) && q % 2 == 1) {
        (q + 1) * pow2(s)
    } else {
        q * pow2(s)
    }
}

/// The value of `b` as a 64-bit float: `b` rounded to 53 significant bits,
/// ties to even.
pub open spec fn as_float(b: nat) -> nat {
    let s = excess_bits(b);
    round_even_at(b / pow2(s), b % pow2(s), s)
}

/// `x / d` rounded to the nearest integer, ties to even.
pub open spec fn div_round_even(x: nat, d: nat) -> nat {
    let q = x / d;
    let r = x % d;
    if r * 2 > d || (r * 2 == d && q % 2 == 1) {
        q + 1
    } else {
        q
    }
}

pub open spec fn digit_char(d: nat) -> char {
    if d == 0 {
        '0'
    } else if d == 1 {
        '1'
    } else if d == 2 {
        '2'
    } else if d == 3 {
        '3'
    } else if d == 4 {
        '4'
    } else if d == 5 {
        '5'
    } else if d == 6 {
        '6'
    } else if d == 7 {
        '7'
    } else if d == 8 {
        '8'
    } else {
        '9'
    }
}

/// The decimal digits of `n`, without leading zeros.
pub open spec fn decimal(n: nat) -> Seq<char>
    decreases n,
{
    if n < 10 {
        seq![digit_char(n)]
    } else {
        decimal(n / 10).push(digit_char(n % 10))
    }
}

/// Tenths of the displayed value in unit `k`: `as_float(bytes) * 10 / 1024^k`,
/// rounded half to even.
pub open spec fn tenths(bytes: nat, k: nat) -> nat {
    div_round_even(as_float(bytes) * 10, pow1024(k))
}

/// The text `human_bytes` produces.
pub open spec fn human_bytes_spec(bytes: nat) -> Seq<char> {
    let k = unit_of(bytes);
    if k == 0 {
        decimal(bytes) + seq![' '] + unit_name(0)
    } else {
        let t = tenths(bytes, k);
        decimal(t / 10) + seq!['.', digit_char(t % 10), ' '] + unit_name(k)
    }
}

fn digit(d: u64) -> (c: char)
    requires
        d < 10,
    ensures
        c == digit_char(d as nat),
{
    if d == 0 {
        '0'
    } else if d == 1 {
        '1'
    } else if d == 2 {
        '2'
    } else if d == 3 {
        '3'
    } else if d == 4 {
        '4'
    } else if d == 5 {
        '5'
    } else if d == 6 {
        '6'
    } else if d == 7 {
        '7'
    } else if d == 8 {
        '8'
    } else {
        '9'
    }
}

/// Appends the decimal digits of `n`.
fn push_decimal(s: &mut String, n: u64)
    ensures
        final(s)@ == old(s)@ + decimal(n as nat),
    decreases n,
{
    if n >= 10 {
        push_decimal(s, n / 10);
    }
    push_char(s, digit(n % 10));
    assert(final(s)@ =~= old(s)@ + decimal(n as nat));
}

fn push_unit(s: &mut String, k: u64)
    requires
        k <= 5,
    ensures
        final(s)@ == old(s)@ + unit_name(k as nat),
{
    if k == 1 {
        push_char(s, 'K');
    } else if k == 2 {
        push_char(s, 'M');
    } else if k == 3 {
        push_char(s, 'G');
    } else if k == 4 {
        push_char(s, 'T');
    } else if k == 5 {
        push_char(s, 'P');
    }
    push_char(s, 'B');
    assert(final(s)@ =~= old(s)@ + unit_name(k as nat));
}


proof fn lemma_pow1024_values()
    ensures
        pow1024(1) == 1024,
        pow1024(2) == 1048576,
        pow1024(3) == 1073741824,
        pow1024(4) == 1099511627776,
        pow1024(5) == 1125899906842624,
{
    reveal_with_fuel(pow2, 51);
}

proof fn lemma_pow2_double(e: nat)
    ensures
        pow2(e + 1) == 2 * pow2(e),
        pow2(e) > 0,
    decreases e,
{
    if e > 0 {
        lemma_pow2_double((e - 1) as nat);
    }
}

proof fn lemma_halve(b: nat, p: nat)
    requires
        p > 0,
    ensures
        (b / p) / 2 == b / (p * 2),
{
    vstd::arithmetic::div_mod::lemma_div_denominator(b as int, p as int, 2);
}

/// `bytes` as a 64-bit float holds it (see `as_float`), as an exact integer.
fn float_value(b: u64) -> (r: u128)
    ensures
        r == as_float(b as nat),
{
    let mut x: u64 = b;
    let mut s: u64 = 0;
    let mut p: u64 = 1;
    proof {
        assert(pow2(0) == 1);
        assert(b as nat / 1 == b);
    }
    while x >= 0x20_0000_0000_0000
        invariant
            x == b as nat / p as nat,
            p == pow2(s as nat),
            1 <= p <= 4096,
            s <= p,
            excess_bits(b as nat) == s + excess_bits(x as nat),
        decreases x,
    {
        proof {
            lemma_halve(b as nat, p as nat);
            lemma_pow2_double(s as nat);
            assert(x as nat * p as nat <= b as nat) by (nonlinear_arith)
                requires
                    x == b as nat / p as nat,
                    p > 0,
            {
                vstd::arithmetic::div_mod::lemma_fundamental_div_mod(b as int, p as int);
            }
            assert(0x20_0000_0000_0000 * (p as nat) <= b as nat) by (nonlinear_arith)
                requires
                    x as nat * p as nat <= b as nat,
                    x >= 0x20_0000_0000_0000,
                    p > 0,
            {}
        }
        x = x / 2;
        s = s + 1;
        p = p * 2;
    }
    let q = x;
    proof {
        vstd::arithmetic::div_mod::lemma_fundamental_div_mod(b as int, p as int);
        vstd::arithmetic::div_mod::lemma_mod_bound(b as int, p as int);
        assert(q as nat * p as nat <= b as nat) by (nonlinear_arith)
            requires
                q == b as nat / p as nat,
                p > 0,
                b as int == p as int * (b as int / p as int) + b as int % p as int,
                b as int % p as int >= 0,
        {}
        assert((q as nat + 1) * (p as nat) <= 0x20_0000_0000_0000 * 4096) by (nonlinear_arith)
            requires
                q < 0x20_0000_0000_0000,
                p <= 4096,
        {}
    }
    let rem: u64 = b - q * p;
    assert(rem == b as nat % p as nat);
    assert(excess_bits(b as nat) == s);
    if s == 0 {
        b as u128
    } else if (rem as u128) * 2 > p as u128 || ((rem as u128) * 2 == p as u128 && q % 2 == 1) {
        ((q as u128) + 1) * (p as u128)
    } else {
        (q as u128) * (p as u128)
    }
}


/// Format a byte count as a human-readable string (e.g. `1.4 GB`).
pub fn human_bytes(bytes: u64) -> (s: String)
    ensures
        s@ == human_bytes_spec(bytes as nat),
{
    proof {
        lemma_pow1024_values();
    }
    let k: u64 = if bytes >= 1125899906842624 {
        5
    } else if bytes >= 1099511627776 {
        4
    } else if bytes >= 1073741824 {
        3
    } else if bytes >= 1048576 {
        2
    } else if bytes >= 1024 {
        1
    } else {
        0
    };
    assert(k == unit_of(bytes as nat));
    let mut s = String::new();
    if k == 0 {
        push_decimal(&mut s, bytes);
        push_char(&mut s, ' ');
        push_unit(&mut s, 0);
        assert(s@ =~= human_bytes_spec(bytes as nat));
        return s;
    }
    let r = float_value(bytes);
    let d: u128 = if k == 5 {
        1125899906842624
    } else if k == 4 {
        1099511627776
    } else if k == 3 {
        1073741824
    } else if k == 2 {
        1048576
    } else {
        1024
    };
    assert(d == pow1024(k as nat));
    assert(r <= 0x20_0000_0000_0000 * 4096) by {
        assert(as_float(bytes as nat) <= 0x20_0000_0000_0000 * 4096) by {
            lemma_float_bound(bytes);
        }
    }
    let x: u128 = r * 10;
    let q: u128 = x / d;
    let m: u128 = x % d;
    let t: u128 = if m * 2 > d || (m * 2 == d && q % 2 == 1) {
        q + 1
    } else {
        q
    };
    assert(t == tenths(bytes as nat, k as nat));
    assert(t <= 0xFFFF_FFFF_FFFF_FFFF) by {
        assert(q <= x / 1024) by {
            vstd::arithmetic::div_mod::lemma_div_is_ordered_by_denominator(x as int, 1024, d as int);
        }
    }
    let whole: u64 = (t / 10) as u64;
    let tenth: u64 = (t % 10) as u64;
    push_decimal(&mut s, whole);
    push_char(&mut s, '.');
    push_char(&mut s, digit(tenth));
    push_char(&mut s, ' ');
    push_unit(&mut s, k);
    assert(s@ =~= human_bytes_spec(bytes as nat));
    s
}

proof fn lemma_float_bound(b: u64)
    ensures
        as_float(b as nat) <= 0x20_0000_0000_0000 * 4096,
{
    let s = excess_bits(b as nat);
    lemma_excess_facts(b as nat);
    lemma_pow2_double(s);
    let p = pow2(s);
    let q = (b as nat) / p;
    assert((q + 1) * p <= 0x20_0000_0000_0000 * 4096) by (nonlinear_arith)
        requires
            q < 0x20_0000_0000_0000,
            p <= 4096,
    {}
    assert(q * p <= (q + 1) * p) by (nonlinear_arith);
}

/// After dropping `excess_bits(b)` bits the value is below 2^53.
proof fn lemma_excess_quotient(b: nat)
    ensures
        b / pow2(excess_bits(b)) < 0x20_0000_0000_0000,
    decreases b,
{
    if b >= 0x20_0000_0000_0000 {
        lemma_excess_quotient(b / 2);
        let s = excess_bits(b / 2);
        lemma_pow2_double(s);
        vstd::arithmetic::div_mod::lemma_div_denominator(b as int, 2, pow2(s) as int);
        assert(2 * pow2(s) == pow2(s) * 2);
    } else {
        assert(pow2(0) == 1);
    }
}

/// The dropped bits are fewer than the value's bits beyond 52.
proof fn lemma_excess_scale(b: nat)
    requires
        b >= 0x20_0000_0000_0000,
    ensures
        pow2(excess_bits(b)) * 0x10_0000_0000_0000 <= b,
    decreases b,
{
    let s = excess_bits(b / 2);
    lemma_pow2_double(s);
    if b / 2 >= 0x20_0000_0000_0000 {
        lemma_excess_scale(b / 2);
    } else {
        assert(pow2(0) == 1);
        assert(s == 0);
    }
}

/// At most 12 bits are dropped from a 64-bit count.
proof fn lemma_excess_facts(b: nat)
    requires
        b <= 0xFFFF_FFFF_FFFF_FFFF,
    ensures
        b / pow2(excess_bits(b)) < 0x20_0000_0000_0000,
        pow2(excess_bits(b)) <= 4096,
{
    lemma_excess_quotient(b);
    if b >= 0x20_0000_0000_0000 {
        lemma_excess_scale(b);
    } else {
        assert(pow2(0) == 1);
    }
}

} // verus!
