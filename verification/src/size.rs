//! Human-readable file sizes (`B`, `KB`, `MB`, `GB` with one decimal).
use vstd::prelude::*;
use crate::text::string_of;

verus! {

/// The decimal digit character of a value in `0..10`.
pub open spec fn digit_char(d: nat) -> char {
    (48 + d) as char
}

/// The decimal text of a natural number, without leading zeros.
pub open spec fn decimal(n: nat) -> Seq<char>
    decreases n,
{
    if n < 10 {
        seq![digit_char(n)]
    } else {
        decimal(n / 10).push(digit_char(n % 10))
    }
}

/// Appends the decimal text of `n`.
pub fn push_decimal(out: &mut Vec<char>, n: u128)
    ensures
        final(out)@ == old(out)@ + decimal(n as nat),
    decreases n,
{
    if n >= 10 {
        push_decimal(out, n / 10);
    }
    let d = (n % 10) as u32;
    let c = char_from_digit(d);
    out.push(c);
}

/// The character of one decimal digit.
fn char_from_digit(d: u32) -> (c: char)
    requires
        d < 10,
    ensures
        c == digit_char(d as nat),
{
    match d {
        0 => '0',
        1 => '1',
        2 => '2',
        3 => '3',
        4 => '4',
        5 => '5',
        6 => '6',
        7 => '7',
        8 => '8',
        _ => '9',
    }
}

/// `a / d` rounded to the nearest integer, ties to even.
pub open spec fn div_round_half_even(a: nat, d: nat) -> nat
    recommends
        d > 0,
{
    let q = a / d;
    let r = a % d;
    if 2 * r > d || (2 * r == d && q % 2 == 1) {
        q + 1
    } else {
        q
    }
}

/// `2^53`: up to here every integer is an `f64`.
pub open spec fn f64_exact_limit() -> nat {
    0x20_0000_0000_0000
}

/// The spacing of `f64` values around `n` (a power of two).
pub open spec fn f64_unit(n: nat) -> nat
    decreases n,
{
    if n < f64_exact_limit() {
        1
    } else {
        2 * f64_unit(n / 2)
    }
}

/// The value of `n as f64`: `n` rounded to the nearest `f64`, ties to even.
pub open spec fn nearest_f64(n: nat) -> nat {
    let u = f64_unit(n);
    div_round_half_even(n, u) * u
}

/// `x / d` printed with one decimal (`{:.1}`), rounded half to even.
pub open spec fn one_decimal(x: nat, d: nat) -> Seq<char> {
    let t = div_round_half_even(x * 10, d);
    decimal(t / 10) + seq!['.', digit_char(t % 10)]
}

/// `1024^k`.
pub open spec fn kib(k: nat) -> nat
    decreases k,
{
    if k == 0 {
        1
    } else {
        1024 * kib((k - 1) as nat)
    }
}

/// The text that describes a file size: whole bytes below 1 KB, otherwise
/// the size (as an `f64`) in KB, MB or GB with one decimal.
pub open spec fn file_size_text(bytes: nat) -> Seq<char> {
    if bytes < kib(1) {
        decimal(bytes) + seq![' ', 'B']
    } else if bytes < kib(2) {
        one_decimal(nearest_f64(bytes), kib(1)) + seq![' ', 'K', 'B']
    } else if bytes < kib(3) {
        one_decimal(nearest_f64(bytes), kib(2)) + seq![' ', 'M', 'B']
    } else {
        one_decimal(nearest_f64(bytes), kib(3)) + seq![' ', 'G', 'B']
    }
}

/// `a / d` rounded half to even.
fn div_round_half_even_exec(a: u128, d: u128) -> (r: u128)
    requires
        d > 0,
        d <= u128::MAX / 2,
        a <= u128::MAX / 2,
    ensures
        r == div_round_half_even(a as nat, d as nat),
        r <= a / d + 1,
{
    let q = a / d;
    let rem = a % d;
    assert(q <= a) by (nonlinear_arith)
        requires
            q == a / d,
            d > 0,
    ;
    if 2 * rem > d || (2 * rem == d && q % 2 == 1) {
        q + 1
    } else {
        q
    }
}

/// The spacing of `f64` values around `n`.
fn f64_unit_exec(n: u128) -> (u: u128)
    ensures
        u == f64_unit(n as nat),
        u <= n || u == 1,
        u >= 1,
    decreases n,
{
    if n < 0x20_0000_0000_0000 {
        1
    } else {
        let h = f64_unit_exec(n / 2);
        2 * h
    }
}

/// The value of `n as f64`, for `n` below `2^64`.
fn nearest_f64_exec(n: u128) -> (r: u128)
    requires
        1 <= n <= u64::MAX,
    ensures
        r == nearest_f64(n as nat),
        r <= 2 * n,
{
    let u = f64_unit_exec(n);
    let q = div_round_half_even_exec(n, u);
    assert(q * u <= 2 * n) by (nonlinear_arith)
        requires
            q <= n / u + 1,
            u <= n || u == 1,
            u >= 1,
            n >= 1,
    {
        assert((n / u) * u <= n);
        assert(q * u <= (n / u + 1) * u);
    }
    q * u
}

/// Appends `x / d` with one decimal.
fn push_one_decimal(out: &mut Vec<char>, x: u128, d: u128)
    requires
        0 < d <= u64::MAX,
        x <= 2 * (u64::MAX as u128),
    ensures
        final(out)@ == old(out)@ + one_decimal(x as nat, d as nat),
{
    let t = div_round_half_even_exec(x * 10, d);
    push_decimal(out, t / 10);
    out.push('.');
    let c = char_from_digit((t % 10) as u32);
    out.push(c);
    assert(final(out)@ == old(out)@ + one_decimal(x as nat, d as nat));
}

/// Formats a byte count: `512 B`, `1.5 KB`, `2.0 MB`, `1.1 GB`.
pub fn format_file_size(bytes: usize) -> (s: String)
    ensures
        s@ == file_size_text(bytes as nat),
{
    reveal_with_fuel(kib, 4);
    let b = bytes as u128;
    let mut out: Vec<char> = Vec::new();
    if b < 1024 {
        push_decimal(&mut out, b);
        out.push(' ');
        out.push('B');
    } else if b < 1024 * 1024 {
        let x = nearest_f64_exec(b);
        push_one_decimal(&mut out, x, 1024);
        out.push(' ');
        out.push('K');
        out.push('B');
    } else if b < 1024 * 1024 * 1024 {
        let x = nearest_f64_exec(b);
        push_one_decimal(&mut out, x, 1024 * 1024);
        out.push(' ');
        out.push('M');
        out.push('B');
    } else {
        let x = nearest_f64_exec(b);
        push_one_decimal(&mut out, x, 1024 * 1024 * 1024);
        out.push(' ');
        out.push('G');
        out.push('B');
    }
    string_of(&out)
}

} // verus!
