use vstd::prelude::*;

verus! {

/// Relies on `String::push`: the character is appended at the end.
pub assume_specification[ String::push ](s: &mut String, ch: char)
    ensures
        final(s)@ == old(s)@.push(ch),
;

/// Number of bytes in one binary gigabyte (1024 cubed).
pub const GIB: u64 = 1073741824;

/// The decimal digit character for `d < 10`.
pub open spec fn digit_char(d: nat) -> char {
    if d == 0 { '0' }
    else if d == 1 { '1' }
    else if d == 2 { '2' }
    else if d == 3 { '3' }
    else if d == 4 { '4' }
    else if d == 5 { '5' }
    else if d == 6 { '6' }
    else if d == 7 { '7' }
    else if d == 8 { '8' }
    else { '9' }
}

/// The decimal notation of `n`, without leading zeros (`0` is written "0").
pub open spec fn decimal_of(n: nat) -> Seq<char>
    decreases n,
{
    if n < 10 {
        seq![digit_char(n)]
    } else {
        decimal_of(n / 10).push(digit_char(n % 10))
    }
}

/// `bytes / 1024^3`, rounded to the nearest integer, halves away from zero.
pub open spec fn rounded_gigabytes(bytes: nat) -> nat {
    let q = bytes / (GIB as nat);
    let r = bytes % (GIB as nat);
    if 2 * r >= GIB as nat { q + 1 } else { q }
}

/// The rounded count `n` is the nearest whole number of gigabytes, a tie going up:
/// `n - 1/2 <= bytes / 1024^3 < n + 1/2`.
pub proof fn lemma_rounded_gigabytes_is_nearest(bytes: nat)
    ensures
        2 * rounded_gigabytes(bytes) * (GIB as nat) <= 2 * bytes + (GIB as nat),
        2 * bytes < 2 * rounded_gigabytes(bytes) * (GIB as nat) + (GIB as nat),
{
    let g = GIB as int;
    let b = bytes as int;
    let q = b / g;
    let r = b % g;
    vstd::arithmetic::div_mod::lemma_fundamental_div_mod(b, g);
    let n = rounded_gigabytes(bytes) as int;
    assert(b == g * q + r);
    assert(0 <= r < g);
    if 2 * r >= g {
        assert(n == q + 1);
        assert(2 * n * g == 2 * (g * q) + 2 * g) by (nonlinear_arith)
            requires
                n == q + 1,
        ;
    } else {
        assert(n == q);
        assert(2 * n * g == 2 * (g * q)) by (nonlinear_arith)
            requires
                n == q,
        ;
    }
}

fn digit(d: u64) -> (c: char)
    requires
        d < 10,
    ensures
        c == digit_char(d as nat),
{
    if d == 0 { '0' }
    else if d == 1 { '1' }
    else if d == 2 { '2' }
    else if d == 3 { '3' }
    else if d == 4 { '4' }
    else if d == 5 { '5' }
    else if d == 6 { '6' }
    else if d == 7 { '7' }
    else if d == 8 { '8' }
    else { '9' }
}

/// Appends the decimal notation of `n` to `out`.
pub fn push_decimal(out: &mut String, n: u64)
    ensures
        final(out)@ == old(out)@ + decimal_of(n as nat),
    decreases n,
{
    if n < 10 {
        out.push(digit(n));
        assert(final(out)@ =~= old(out)@ + decimal_of(n as nat));
    } else {
        push_decimal(out, n / 10);
        out.push(digit(n % 10));
        assert(final(out)@ =~= old(out)@ + decimal_of(n as nat));
    }
}

/// The decimal notation of `n`.
pub fn decimal_string(n: u64) -> (r: String)
    ensures
        r@ == decimal_of(n as nat),
{
    let mut s = String::new();
    push_decimal(&mut s, n);
    assert(s@ =~= decimal_of(n as nat));
    s
}

/// A byte count as whole binary gigabytes, rounded to nearest, followed by "GB".
pub fn format_gigabytes(bytes: u64) -> (r: String)
    ensures
        r@ == decimal_of(rounded_gigabytes(bytes as nat)) + seq!['G', 'B'],
{
    let q = bytes / GIB;
    let rem = bytes % GIB;
    let n: u64 = if rem >= GIB - rem { q + 1 } else { q };
    let mut s = decimal_string(n);
    s.push('G');
    s.push('B');
    assert(s@ =~= decimal_of(rounded_gigabytes(bytes as nat)) + seq!['G', 'B']);
    s
}

/// A size in megabytes followed by "MB".
pub fn format_megabytes(mb: u32) -> (r: String)
    ensures
        r@ == decimal_of(mb as nat) + seq!['M', 'B'],
{
    let mut s = decimal_string(mb as u64);
    s.push('M');
    s.push('B');
    assert(s@ =~= decimal_of(mb as nat) + seq!['M', 'B']);
    s
}

} // verus!
