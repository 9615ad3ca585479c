//! Human-readable texts for byte counts and durations.
use vstd::prelude::*;
use crate::text::{decimal, digit, digits_value, push_char, push_decimal, digit_char, lemma_decimal_value, lemma_digit_value};

verus! {

// ---------------------------------------------------------------------------
// Byte counts
// ---------------------------------------------------------------------------

/// `2^k`.
pub open spec fn p2(k: nat) -> nat
    decreases k,
{
    if k == 0 {
        1
    } else {
        2 * p2((k - 1) as nat)
    }
}

/// The number of binary digits of `n` (0 for 0).
pub open spec fn bit_len(n: nat) -> nat
    decreases n,
{
    if n == 0 {
        0
    } else {
        1 + bit_len(n / 2)
    }
}

/// `num / den` rounded to the nearest integer, halves to the even one.
pub open spec fn round_half_even(num: nat, den: nat) -> nat {
    let q = num / den;
    let r = num % den;
    if 2 * r > den || (2 * r == den && q % 2 == 1) {
        q + 1
    } else {
        q
    }
}

/// The value of `n as f64`: `n` rounded to 53 significant bits, halves to
/// the even neighbour (exactly `n` below `2^53`).
pub open spec fn as_f64_value(n: nat) -> nat {
    let s: nat = if bit_len(n) > 53 { (bit_len(n) - 53) as nat } else { 0 };
    round_half_even(n, p2(s)) * p2(s)
}

/// `num / den` printed with one decimal (`{:.1}`), the exact quotient
/// rounded to tenths, halves to even.
pub open spec fn one_decimal(num: nat, den: nat) -> Seq<char> {
    let t = round_half_even(num * 10, den);
    decimal(t / 10) + seq!['.', digit(t % 10)]
}

/// What `format_bytes` returns: the count in the largest binary unit that
/// it reaches, with one decimal, or in plain bytes below a kibibyte.
pub open spec fn bytes_text(bytes: nat) -> Seq<char> {
    if bytes >= 1_073_741_824 {
        one_decimal(as_f64_value(bytes), 1_073_741_824) + seq![' ', 'G', 'B']
    } else if bytes >= 1_048_576 {
        one_decimal(bytes, 1_048_576) + seq![' ', 'M', 'B']
    } else if bytes >= 1_024 {
        one_decimal(bytes, 1_024) + seq![' ', 'K', 'B']
    } else {
        decimal(bytes) + seq![' ', 'B']
    }
}

pub proof fn lemma_p2_pos(k: nat)
    ensures
        p2(k) >= 1,
    decreases k,
{
    if k > 0 {
        lemma_p2_pos((k - 1) as nat);
    }
}

pub proof fn lemma_p2_add(a: nat, b: nat)
    ensures
        p2(a + b) == p2(a) * p2(b),
    decreases a,
{
    if a > 0 {
        lemma_p2_add((a - 1) as nat, b);
        assert(p2(a + b) == 2 * p2((a - 1 + b) as nat));
        assert(2 * (p2((a - 1) as nat) * p2(b)) == (2 * p2((a - 1) as nat)) * p2(b)) by (nonlinear_arith);
    } else {
        assert(p2(0) == 1);
        assert(a + b == b);
    }
}

pub proof fn lemma_p2_values()
    ensures
        p2(11) == 2048,
        p2(53) == 0x20_0000_0000_0000,
        p2(64) == 0x1_0000_0000_0000_0000,
{
    reveal_with_fuel(p2, 12);
    assert(p2(9) == 512);
    assert(p2(11) == 2048);
    lemma_p2_add(11, 11);
    lemma_p2_add(22, 11);
    lemma_p2_add(33, 11);
    lemma_p2_add(44, 9);
    lemma_p2_add(53, 11);
}

/// `n` has `bit_len(n)` binary digits: it is below `2^bit_len(n)`, and at
/// least `2^(bit_len(n) - 1)` when positive.
pub proof fn lemma_bit_len_bounds(n: nat)
    ensures
        n < p2(bit_len(n)),
        n > 0 ==> p2((bit_len(n) - 1) as nat) <= n,
    decreases n,
{
    if n > 0 {
        lemma_bit_len_bounds(n / 2);
        if n / 2 > 0 {
            assert(bit_len(n / 2) >= 1);
        } else {
            assert(bit_len(n / 2) == 0);
        }
    }
}

/// Below `2^k`, `n` has at most `k` binary digits.
pub proof fn lemma_bit_len_at_most(n: nat, k: nat)
    requires
        n < p2(k),
    ensures
        bit_len(n) <= k,
{
    lemma_bit_len_bounds(n);
    if bit_len(n) > k {
        lemma_p2_monotone(k, (bit_len(n) - 1) as nat);
    }
}

pub proof fn lemma_p2_monotone(a: nat, b: nat)
    requires
        a <= b,
    ensures
        p2(a) <= p2(b),
    decreases b,
{
    if a < b {
        lemma_p2_monotone(a, (b - 1) as nat);
        lemma_p2_pos((b - 1) as nat);
    }
}

/// Rounds `num / den` to the nearest integer, halves to even.
fn div_round_half_even(num: u128, den: u128) -> (r: u128)
    requires
        den > 0,
    ensures
        r == round_half_even(num as nat, den as nat),
{
    let q = num / den;
    let rem = num % den;
    assert(rem < den);
    if rem > den - rem || (rem == den - rem && q % 2 == 1) {
        assert(q < u128::MAX) by (nonlinear_arith)
            requires
                q == num / den,
                den > 0,
                rem == num % den,
                rem > 0,
        ;
        q + 1
    } else {
        q
    }
}

/// The value of `n as f64`, exactly.
fn f64_value(n: u64) -> (v: u128)
    ensures
        v == as_f64_value(n as nat),
        v <= 0x1_0000_0000_0000_0000,
{
    proof {
        lemma_p2_values();
        lemma_bit_len_at_most(n as nat, 64);
    }
    let mut t: u64 = n;
    let mut len: u64 = 0;
    while t > 0
        invariant
            len + bit_len(t as nat) == bit_len(n as nat),
            bit_len(n as nat) <= 64,
        decreases t,
    {
        t = t / 2;
        len = len + 1;
    }
    let s: u64 = if len > 53 { len - 53 } else { 0 };
    let mut p: u128 = 1;
    let mut i: u64 = 0;
    while i < s
        invariant
            0 <= i <= s,
            s <= 11,
            p == p2(i as nat),
        decreases s - i,
    {
        proof {
            lemma_p2_monotone(i as nat, 11);
            lemma_p2_values();
        }
        p = p * 2;
        i = i + 1;
    }
    proof {
        lemma_p2_pos(s as nat);
        lemma_bit_len_bounds(n as nat);
        lemma_p2_add(s as nat, 53);
        lemma_p2_values();
        lemma_p2_monotone(s as nat, 11);
        lemma_p2_values();
        if s > 0 {
            assert(bit_len(n as nat) == s + 53);
        } else {
            lemma_p2_monotone(bit_len(n as nat), 53);
        }
        assert((n as nat) < p2(53) * p) by (nonlinear_arith)
            requires
                (n as nat) < p2(bit_len(n as nat)),
                s > 0 ==> p2(bit_len(n as nat)) == p * p2(53),
                s == 0 ==> p2(bit_len(n as nat)) <= p2(53),
                s == 0 ==> p == 1,
        ;
    }
    let q = div_round_half_even(n as u128, p);
    proof {
        assert(q <= 0x20_0000_0000_0000) by (nonlinear_arith)
            requires
                (n as nat) < 0x20_0000_0000_0000 * p,
                p >= 1,
                q == round_half_even(n as nat, p as nat),
        {
            assert((n as nat) / (p as nat) < 0x20_0000_0000_0000);
        }
        assert(q * p <= 0x1_0000_0000_0000_0000) by (nonlinear_arith)
            requires
                q <= 0x20_0000_0000_0000,
                1 <= p <= 2048,
        ;
    }
    q * p
}

/// Appends `num / den` with one decimal (`{:.1}`).
fn push_one_decimal(s: &mut String, num: u128, den: u128)
    requires
        den > 0,
        num <= 0x10_0000_0000_0000_0000,
        num / den <= 0x1_0000_0000_0000,
    ensures
        final(s)@ == old(s)@ + one_decimal(num as nat, den as nat),
{
    let t = div_round_half_even(num * 10, den);
    proof {
        assert(t <= 0x10_0000_0000_0000 + 1) by (nonlinear_arith)
            requires
                t == round_half_even((num * 10) as nat, den as nat),
                den > 0,
                num / den <= 0x1_0000_0000_0000,
        ;
        lemma_digit_value((t % 10) as nat);
    }
    let whole = (t / 10) as u64;
    let tenth = (t % 10) as u64;
    push_decimal(s, whole);
    push_char(s, '.');
    push_char(s, digit_char(tenth));
    assert(final(s)@ =~= old(s)@ + one_decimal(num as nat, den as nat));
}

/// Formats a byte count for display: "1.5 GB", "12.0 MB", "3.2 KB" or
/// "512 B".
pub fn format_bytes(bytes: u64) -> (text: String)
    ensures
        text@ == bytes_text(bytes as nat),
{
    let mut s = String::new();
    if bytes >= 1_073_741_824 {
        let v = f64_value(bytes);
        push_one_decimal(&mut s, v, 1_073_741_824);
        push_char(&mut s, ' ');
        push_char(&mut s, 'G');
        push_char(&mut s, 'B');
    } else if bytes >= 1_048_576 {
        push_one_decimal(&mut s, bytes as u128, 1_048_576);
        push_char(&mut s, ' ');
        push_char(&mut s, 'M');
        push_char(&mut s, 'B');
    } else if bytes >= 1_024 {
        push_one_decimal(&mut s, bytes as u128, 1_024);
        push_char(&mut s, ' ');
        push_char(&mut s, 'K');
        push_char(&mut s, 'B');
    } else {
        push_decimal(&mut s, bytes);
        push_char(&mut s, ' ');
        push_char(&mut s, 'B');
    }
    assert(s@ =~= bytes_text(bytes as nat));
    s
}

// ---------------------------------------------------------------------------
// Durations
// ---------------------------------------------------------------------------

/// Decimal digits padded with a leading zero to at least two (`{:02}`).
pub open spec fn pad2(d: Seq<char>) -> Seq<char> {
    if d.len() < 2 {
        seq!['0'] + d
    } else {
        d
    }
}

/// What `format_uptime` returns: hours, minutes and seconds, each at least
/// two digits, separated by colons.
pub open spec fn uptime_text(secs: nat) -> Seq<char> {
    pad2(decimal(secs / 3600)) + seq![':'] + pad2(decimal((secs % 3600) / 60)) + seq![':'] + pad2(decimal(secs % 60))
}

/// Appends `n` with at least two digits.
fn push_two_digits(s: &mut String, n: u64)
    ensures
        final(s)@ == old(s)@ + pad2(decimal(n as nat)),
{
    if n < 10 {
        push_char(s, '0');
    }
    push_decimal(s, n);
    proof {
        if n < 10 {
            assert(decimal(n as nat).len() == 1);
        } else {
            assert(decimal(n as nat) == decimal((n / 10) as nat).push(digit((n % 10) as nat)));
            lemma_decimal_value((n / 10) as nat);
        }
    }
    assert(final(s)@ =~= old(s)@ + pad2(decimal(n as nat)));
}

/// Formats a number of seconds as "HH:MM:SS".
pub fn format_uptime(secs: u64) -> (text: String)
    ensures
        text@ == uptime_text(secs as nat),
{
    let h = secs / 3600;
    let m = (secs % 3600) / 60;
    let sec = secs % 60;
    let mut s = String::new();
    push_two_digits(&mut s, h);
    push_char(&mut s, ':');
    push_two_digits(&mut s, m);
    push_char(&mut s, ':');
    push_two_digits(&mut s, sec);
    assert(s@ =~= uptime_text(secs as nat));
    s
}

/// The uptime text names a duration equal to `secs`: its three fields read
/// back as hours, minutes below 60 and seconds below 60 that add up to
/// `secs` seconds.
pub proof fn lemma_uptime_reads_back(secs: nat)
    ensures
        digits_value(pad2(decimal(secs / 3600))) * 3600 + digits_value(pad2(decimal((secs % 3600) / 60))) * 60
            + digits_value(pad2(decimal(secs % 60))) == secs,
        (secs % 3600) / 60 < 60,
        secs % 60 < 60,
{
    lemma_pad2_value(secs / 3600);
    lemma_pad2_value((secs % 3600) / 60);
    lemma_pad2_value(secs % 60);
    assert((secs / 3600) * 3600 + ((secs % 3600) / 60) * 60 + secs % 60 == secs) by (nonlinear_arith);
}

/// Padding with a zero does not change the number that the digits read as.
pub proof fn lemma_pad2_value(n: nat)
    ensures
        digits_value(pad2(decimal(n))) == n,
{
    lemma_decimal_value(n);
    lemma_leading_zero(decimal(n));
}

proof fn lemma_leading_zero(d: Seq<char>)
    ensures
        digits_value(seq!['0'] + d) == digits_value(d),
    decreases d.len(),
{
    if d.len() == 0 {
        assert((seq!['0'] + d).drop_last() =~= Seq::<char>::empty());
        assert(digits_value(Seq::<char>::empty()) == 0);
    } else {
        assert((seq!['0'] + d).drop_last() =~= seq!['0'] + d.drop_last());
        lemma_leading_zero(d.drop_last());
    }
}

} // verus!
