//! Decimal numerals: what they look like as text, and how they are written
//! into a `String`.

use vstd::prelude::*;

verus! {

/// The character of a decimal digit.
pub open spec fn digit_char(d: nat) -> char {
    if d == 0 { '0' }
    else if d == 1 { '1' }
    else if d == 2 { '2' }
    else if d == 3 { '3' }
    else if d == 4 { '4' }
    else if d == 5 { '5' }
    else if d == 6 { '6' }
    else if d == 7 { '7' }
    else if d == 8 { '8' }
    else { '9' }
}

/// The shortest decimal numeral of `n`, without sign or leading zeros.
pub open spec fn dec(n: nat) -> Seq<char>
    decreases n,
{
    if n < 10 {
        seq![digit_char(n)]
    } else {
        dec(n / 10).push(digit_char(n % 10))
    }
}

/// The lowest `w` decimal digits of `n`, zero-padded to exactly `w` characters.
pub open spec fn padded(n: nat, w: nat) -> Seq<char>
    decreases w,
{
    if w == 0 {
        Seq::<char>::empty()
    } else {
        padded(n / 10, (w - 1) as nat).push(digit_char(n % 10))
    }
}

/// A fixed-point value counted in units of `10^-places`, shown with exactly
/// `places` digits after the point.
pub open spec fn fixed(v: nat, places: nat) -> Seq<char> {
    dec(v / pow10(places)) + seq!['.'] + padded(v % pow10(places), places)
}

/// As `fixed`, with a leading `-` when the value is negative.
pub open spec fn signed_fixed(v: int, places: nat) -> Seq<char> {
    if v < 0 {
        seq!['-'] + fixed((-v) as nat, places)
    } else {
        fixed(v as nat, places)
    }
}

/// Ten to the power `e`.
pub open spec fn pow10(e: nat) -> nat
    decreases e,
{
    if e == 0 {
        1
    } else {
        10 * pow10((e - 1) as nat)
    }
}

pub proof fn lemma_pow10_positive(e: nat)
    ensures
        pow10(e) >= 1,
    decreases e,
{
    if e > 0 {
        lemma_pow10_positive((e - 1) as nat);
    }
}

/// Appends the character of digit `d`.
pub fn push_digit(s: &mut String, d: u64)
    requires
        d < 10,
    ensures
        final(s)@ == old(s)@.push(digit_char(d as nat)),
{
    let lit: &str = if d == 0 {
        "0"
    } else if d == 1 {
        "1"
    } else if d == 2 {
        "2"
    } else if d == 3 {
        "3"
    } else if d == 4 {
        "4"
    } else if d == 5 {
        "5"
    } else if d == 6 {
        "6"
    } else if d == 7 {
        "7"
    } else if d == 8 {
        "8"
    } else {
        "9"
    };
    proof {
        reveal_strlit("0");
        reveal_strlit("1");
        reveal_strlit("2");
        reveal_strlit("3");
        reveal_strlit("4");
        reveal_strlit("5");
        reveal_strlit("6");
        reveal_strlit("7");
        reveal_strlit("8");
        reveal_strlit("9");
    }
    s.append(lit);
    assert(lit@ =~= seq![digit_char(d as nat)]);
}

/// Appends the shortest decimal numeral of `n`.
pub fn push_dec(s: &mut String, n: u64)
    ensures
        final(s)@ == old(s)@ + dec(n as nat),
    decreases n,
{
    if n >= 10 {
        push_dec(s, n / 10);
        push_digit(s, n % 10);
        assert(final(s)@ =~= old(s)@ + dec(n as nat));
    } else {
        push_digit(s, n);
        assert(final(s)@ =~= old(s)@ + dec(n as nat));
    }
}

/// Appends the lowest `w` digits of `n`, zero-padded to width `w`.
pub fn push_padded(s: &mut String, n: u64, w: u64)
    ensures
        final(s)@ == old(s)@ + padded(n as nat, w as nat),
    decreases w,
{
    if w > 0 {
        push_padded(s, n / 10, w - 1);
        push_digit(s, n % 10);
        assert(final(s)@ =~= old(s)@ + padded(n as nat, w as nat));
    } else {
        assert(final(s)@ =~= old(s)@ + padded(n as nat, w as nat));
    }
}

/// Ten to the power `e`, for exponents that fit in a `u64`.
pub fn pow10_u64(e: u32) -> (r: u64)
    requires
        e <= 19,
    ensures
        r as nat == pow10(e as nat),
{
    let mut r: u64 = 1;
    let mut i: u32 = 0;
    while i < e
        invariant
            i <= e <= 19,
            r as nat == pow10(i as nat),
            r <= 10_000_000_000_000_000_000u64,
        decreases e - i,
    {
        proof {
            pow10_bound(i as nat);
        }
        r = r * 10;
        i = i + 1;
    }
    r
}

proof fn pow10_bound(i: nat)
    requires
        i < 19,
    ensures
        pow10(i) <= 1_000_000_000_000_000_000nat,
{
    lemma_pow10_monotone(i, 18);
    reveal_with_fuel(pow10, 19);
}

pub proof fn lemma_pow10_monotone(i: nat, j: nat)
    requires
        i <= j,
    ensures
        pow10(i) <= pow10(j),
    decreases j,
{
    if i < j {
        lemma_pow10_monotone(i, (j - 1) as nat);
    }
}

/// Appends `v` as a fixed-point numeral with `places` digits after the point.
pub fn push_fixed(s: &mut String, v: u64, places: u32)
    requires
        1 <= places <= 19,
    ensures
        final(s)@ == old(s)@ + fixed(v as nat, places as nat),
{
    let unit = pow10_u64(places);
    proof {
        lemma_pow10_positive(places as nat);
    }
    push_dec(s, v / unit);
    s.append(".");
    push_padded(s, v % unit, places as u64);
    proof {
        reveal_strlit(".");
    }
    assert(final(s)@ =~= old(s)@ + fixed(v as nat, places as nat));
}

/// Appends `v` as a fixed-point numeral, with a leading `-` when negative.
pub fn push_signed_fixed(s: &mut String, v: i64, places: u32)
    requires
        1 <= places <= 19,
    ensures
        final(s)@ == old(s)@ + signed_fixed(v as int, places as nat),
{
    if v < 0 {
        s.append("-");
        proof {
            reveal_strlit("-");
        }
        let m: u64 = (0i128 - (v as i128)) as u64;
        push_fixed(s, m, places);
        assert(final(s)@ =~= old(s)@ + signed_fixed(v as int, places as nat));
    } else {
        push_fixed(s, v as u64, places);
    }
}

} // verus!
