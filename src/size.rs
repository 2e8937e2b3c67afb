//! Human-readable byte counts with decimal (power of 1000) prefixes.

use vstd::prelude::*;

verus! {

/// The character of a decimal digit.
pub open spec fn digit_char(d: nat) -> char {
    if d == 0 { '0' }
    else if d == 1 { '1' }
    else if d == 2 { '2' }
    else if d == 3 { '3' }
    else if d == 4 { '4' }
    else if d == 5 { '5' }
    else if d == 6 { '6' }
    else if d == 7 { '7' }
    else if d == 8 { '8' }
    else { '9' }
}

/// The decimal digits of `n`, most significant first, without leading zeros.
pub open spec fn decimal(n: nat) -> Seq<char>
    decreases n,
{
    if n < 10 {
        seq![digit_char(n)]
    } else {
        decimal(n / 10).push(digit_char(n % 10))
    }
}

/// `1000` raised to `k`.
pub open spec fn pow1000(k: nat) -> nat
    decreases k,
{
    if k == 0 { 1 } else { 1000 * pow1000((k - 1) as nat) }
}

/// The letter of the decimal prefix for `1000^k`, for `1 <= k <= 6`.
pub open spec fn prefix_char(k: nat) -> char {
    if k == 1 { 'k' }
    else if k == 2 { 'M' }
    else if k == 3 { 'G' }
    else if k == 4 { 'T' }
    else if k == 5 { 'P' }
    else { 'E' }
}

/// The prefix used for `size`: the largest `k` with `1000^k <= size`
/// (searched from `k`, at most six, the largest a `u64` can reach).
pub open spec fn prefix_from(size: nat, k: nat) -> nat
    decreases 6 - k,
{
    if k >= 6 || size < pow1000(k + 1) { k } else { prefix_from(size, k + 1) }
}

pub open spec fn prefix_index(size: nat) -> nat {
    prefix_from(size, 0)
}

/// `size / 1000^k` in tenths, rounded to the nearest tenth, halves upward.
pub open spec fn scaled_tenths(size: nat, k: nat) -> nat {
    (size * 10 + pow1000(k) / 2) / pow1000(k)
}

/// How a byte count reads: below 1000 the plain count and " B"; above, the
/// count scaled by the largest power of 1000 not above it, with one decimal,
/// then a space, the prefix letter and "B" (`1500000` reads "1.5 MB").
pub open spec fn pretty_size_spec(size: nat) -> Seq<char> {
    if size < 1000 {
        decimal(size) + seq![' ', 'B']
    } else {
        let k = prefix_index(size);
        let t = scaled_tenths(size, k);
        decimal(t / 10) + seq!['.'] + seq![digit_char(t % 10)] + seq![' ', prefix_char(k), 'B']
    }
}

fn digit_str(d: u64) -> (r: &'static str)
    requires
        d < 10,
    ensures
        r@ == seq![digit_char(d as nat)],
{
    proof {
        reveal_strlit("0");
        reveal_strlit("1");
        reveal_strlit("2");
        reveal_strlit("3");
        reveal_strlit("4");
        reveal_strlit("5");
        reveal_strlit("6");
        reveal_strlit("7");
        reveal_strlit("8");
        reveal_strlit("9");
    }
    if d == 0 { "0" }
    else if d == 1 { "1" }
    else if d == 2 { "2" }
    else if d == 3 { "3" }
    else if d == 4 { "4" }
    else if d == 5 { "5" }
    else if d == 6 { "6" }
    else if d == 7 { "7" }
    else if d == 8 { "8" }
    else { "9" }
}

/// Appends the decimal digits of `n` to `out`.
pub fn push_decimal(out: &mut String, n: u64)
    ensures
        final(out)@ == old(out)@ + decimal(n as nat),
    decreases n,
{
    if n >= 10 {
        push_decimal(out, n / 10);
        out.append(digit_str(n % 10));
        assert(out@ =~= old(out)@ + decimal(n as nat));
    } else {
        out.append(digit_str(n));
        assert(out@ =~= old(out)@ + decimal(n as nat));
    }
}


fn prefix_unit(k: u64) -> (r: &'static str)
    requires
        1 <= k <= 6,
    ensures
        r@ == seq![' ', prefix_char(k as nat), 'B'],
{
    proof {
        reveal_strlit(" kB");
        reveal_strlit(" MB");
        reveal_strlit(" GB");
        reveal_strlit(" TB");
        reveal_strlit(" PB");
        reveal_strlit(" EB");
    }
    if k == 1 { " kB" }
    else if k == 2 { " MB" }
    else if k == 3 { " GB" }
    else if k == 4 { " TB" }
    else if k == 5 { " PB" }
    else { " EB" }
}

proof fn lemma_pow1000_values()
    ensures
        pow1000(0) == 1,
        pow1000(1) == 1000,
        pow1000(2) == 1000000,
        pow1000(3) == 1000000000,
        pow1000(4) == 1000000000000,
        pow1000(5) == 1000000000000000,
        pow1000(6) == 1000000000000000000,
{
    reveal_with_fuel(pow1000, 7);
}

/// Renders a byte count with a decimal prefix ("0 B", "999 B", "1.0 kB",
/// "1.5 MB").
pub fn pretty_size(size: u64) -> (r: String)
    ensures
        r@ == pretty_size_spec(size as nat),
{
    let mut out = String::new();
    if size < 1000 {
        push_decimal(&mut out, size);
        proof { reveal_strlit(" B"); }
        out.append(" B");
        assert(out@ =~= pretty_size_spec(size as nat));
        return out;
    }
    proof { lemma_pow1000_values(); }
    let mut k: u64 = 0;
    let mut d: u64 = 1;
    while k < 6 && size >= d * 1000
        invariant
            k <= 6,
            d as nat == pow1000(k as nat),
            pow1000(0) == 1,
            pow1000(1) == 1000,
            pow1000(2) == 1000000,
            pow1000(3) == 1000000000,
            pow1000(4) == 1000000000000,
            pow1000(5) == 1000000000000000,
            pow1000(6) == 1000000000000000000,
            size as nat >= pow1000(k as nat),
            prefix_from(size as nat, k as nat) == prefix_index(size as nat),
        decreases 6 - k,
    {
        d = d * 1000;
        k = k + 1;
    }
    assert(prefix_from(size as nat, k as nat) == k);
    assert(k >= 1) by {
        if k == 0 {
            assert(size as nat >= pow1000(1));
        }
    }
    assert(size >= d);
    let wide: u128 = (size as u128) * 10 + (d as u128) / 2;
    let t128: u128 = wide / (d as u128);
    assert(t128 <= size as u128) by (nonlinear_arith)
        requires
            t128 == wide / (d as u128),
            wide == (size as u128) * 10 + (d as u128) / 2,
            d >= 1000,
            size >= d,
    {
        assert(wide <= (size as u128) * 11);
        assert(wide / (d as u128) <= wide / 11) by {
            vstd::arithmetic::div_mod::lemma_div_is_ordered_by_denominator(wide as int, 11, d as int);
        }
    }
    let t: u64 = t128 as u64;
    assert(t as nat == scaled_tenths(size as nat, k as nat));
    push_decimal(&mut out, t / 10);
    proof { reveal_strlit("."); }
    out.append(".");
    out.append(digit_str(t % 10));
    out.append(prefix_unit(k));
    assert(out@ =~= pretty_size_spec(size as nat));
    out
}

}
