//! Reading the text that the kernel exposes: whitespace-separated fields,
//! lines, and the numerals inside them.

use vstd::prelude::*;
use crate::numerals::{pow10, lemma_pow10_monotone};

verus! {

/// ASCII whitespace: space, tab, line feed, vertical tab, form feed, return.
pub open spec fn is_ws(b: u8) -> bool {
    b == 32 || (9 <= b && b <= 13)
}

pub open spec fn is_digit(b: u8) -> bool {
    48 <= b && b <= 57
}

/// First index at or after `i`, and before `e`, that is not whitespace (or `e`).
pub open spec fn ws_end(s: Seq<u8>, i: int, e: int) -> int
    decreases e - i,
{
    if i < e && is_ws(s[i]) {
        ws_end(s, i + 1, e)
    } else {
        i
    }
}

/// First index at or after `i`, and before `e`, that is whitespace (or `e`).
pub open spec fn word_end(s: Seq<u8>, i: int, e: int) -> int
    decreases e - i,
{
    if i < e && !is_ws(s[i]) {
        word_end(s, i + 1, e)
    } else {
        i
    }
}

/// Where the field of index `n` starts, counting the whitespace-separated
/// fields of `s[i..e]` from zero; `e` when there are not that many.
pub open spec fn field_start(s: Seq<u8>, i: int, e: int, n: nat) -> int
    decreases n,
{
    if n == 0 {
        ws_end(s, i, e)
    } else {
        field_start(s, word_end(s, ws_end(s, i, e), e), e, (n - 1) as nat)
    }
}

/// The field of index `n` of `s[i..e]`, if there is one.
pub open spec fn field(s: Seq<u8>, i: int, e: int, n: nat) -> Option<Seq<u8>> {
    let a = field_start(s, i, e, n);
    if a < e {
        Some(s.subrange(a, word_end(s, a, e)))
    } else {
        None
    }
}

/// The field of index `n` of the whole text.
pub open spec fn field_of(s: Seq<u8>, n: nat) -> Option<Seq<u8>> {
    field(s, 0, s.len() as int, n)
}

proof fn lemma_ws_end_bounds(s: Seq<u8>, i: int, e: int)
    requires
        0 <= i <= e <= s.len(),
    ensures
        i <= ws_end(s, i, e) <= e,
    decreases e - i,
{
    if i < e && is_ws(s[i]) {
        lemma_ws_end_bounds(s, i + 1, e);
    }
}

proof fn lemma_word_end_bounds(s: Seq<u8>, i: int, e: int)
    requires
        0 <= i <= e <= s.len(),
    ensures
        i <= word_end(s, i, e) <= e,
    decreases e - i,
{
    if i < e && !is_ws(s[i]) {
        lemma_word_end_bounds(s, i + 1, e);
    }
}

proof fn lemma_field_start_bounds(s: Seq<u8>, i: int, e: int, n: nat)
    requires
        0 <= i <= e <= s.len(),
    ensures
        i <= field_start(s, i, e, n) <= e,
    decreases n,
{
    lemma_ws_end_bounds(s, i, e);
    if n > 0 {
        let a = ws_end(s, i, e);
        lemma_word_end_bounds(s, a, e);
        lemma_field_start_bounds(s, word_end(s, a, e), e, (n - 1) as nat);
    }
}

pub fn skip_ws(s: &[u8], i: usize, e: usize) -> (r: usize)
    requires
        i <= e <= s@.len(),
    ensures
        r as int == ws_end(s@, i as int, e as int),
        i <= r <= e,
{
    let mut j = i;
    while j < e && (s[j] == 32 || (9 <= s[j] && s[j] <= 13))
        invariant
            i <= j <= e <= s@.len(),
            ws_end(s@, i as int, e as int) == ws_end(s@, j as int, e as int),
        decreases e - j,
    {
        j = j + 1;
    }
    j
}

pub fn skip_word(s: &[u8], i: usize, e: usize) -> (r: usize)
    requires
        i <= e <= s@.len(),
    ensures
        r as int == word_end(s@, i as int, e as int),
        i <= r <= e,
{
    let mut j = i;
    while j < e && !(s[j] == 32 || (9 <= s[j] && s[j] <= 13))
        invariant
            i <= j <= e <= s@.len(),
            word_end(s@, i as int, e as int) == word_end(s@, j as int, e as int),
        decreases e - j,
    {
        j = j + 1;
    }
    j
}

/// Bounds `(a, b)` of the field of index `n` of `s[i..e]`; `a == e` when
/// there is none.
pub fn find_field(s: &[u8], i: usize, e: usize, n: usize) -> (r: (usize, usize))
    requires
        i <= e <= s@.len(),
    ensures
        r.0 as int == field_start(s@, i as int, e as int, n as nat),
        r.1 as int == word_end(s@, r.0 as int, e as int),
        i <= r.0 <= r.1 <= e,
{
    let mut k: usize = 0;
    let mut j = skip_ws(s, i, e);
    proof {
        lemma_ws_end_idempotent(s@, i as int, e as int);
        lemma_field_start_skips(s@, i as int, e as int, n as nat);
    }
    while k < n
        invariant
            i <= j <= e <= s@.len(),
            k <= n,
            field_start(s@, i as int, e as int, n as nat)
                == field_start(s@, j as int, e as int, (n - k) as nat),
            j as int == ws_end(s@, j as int, e as int),
        decreases n - k,
    {
        let w = skip_word(s, j, e);
        j = skip_ws(s, w, e);
        k = k + 1;
        proof {
            lemma_ws_end_idempotent(s@, w as int, e as int);
            lemma_field_start_skips(s@, w as int, e as int, (n - k) as nat);
        }
    }
    let b = skip_word(s, j, e);
    (j, b)
}

proof fn lemma_ws_end_idempotent(s: Seq<u8>, j: int, e: int)
    requires
        0 <= j <= e <= s.len(),
    ensures
        ws_end(s, ws_end(s, j, e), e) == ws_end(s, j, e),
    decreases e - j,
{
    if j < e && is_ws(s[j]) {
        lemma_ws_end_idempotent(s, j + 1, e);
    }
}

/// Counting fields may start after the leading whitespace.
pub proof fn lemma_field_start_skips(s: Seq<u8>, i: int, e: int, n: nat)
    requires
        0 <= i <= e <= s.len(),
    ensures
        field_start(s, i, e, n) == field_start(s, ws_end(s, i, e), e, n),
{
    lemma_ws_end_idempotent(s, i, e);
}

/// Values of numerals are counted exactly up to this bound, and held at it
/// beyond.
pub const NUMERAL_CAP: u64 = 10_000_000_000_000;

/// Decimal values are counted exactly up to this bound (2^70), and held at
/// it beyond.
pub const WIDE_CAP: u128 = 0x40_0000_0000_0000_0000;

pub open spec fn all_digits(t: Seq<u8>) -> bool {
    forall|k: int| 0 <= k < t.len() ==> is_digit(#[trigger] t[k])
}

/// The value of a string of decimal digits (zero when it is empty).
pub open spec fn digits_val(t: Seq<u8>) -> nat
    decreases t.len(),
{
    if t.len() == 0 {
        0
    } else {
        digits_val(t.drop_last()) * 10 + (t.last() - 48) as nat
    }
}

pub open spec fn min_nat(a: nat, b: nat) -> nat {
    if a <= b { a } else { b }
}

/// An unsigned integer numeral: an optional `+`, then one or more digits.
pub open spec fn unsigned_val(t: Seq<u8>) -> Option<nat> {
    let d = if t.len() > 0 && t[0] == 43 { t.drop_first() } else { t };
    if d.len() > 0 && all_digits(d) {
        Some(digits_val(d))
    } else {
        None
    }
}

/// A signed integer numeral: an unsigned one, or `-` then one or more digits.
pub open spec fn signed_val(t: Seq<u8>) -> Option<int> {
    if t.len() > 0 && t[0] == 45 {
        let d = t.drop_first();
        if d.len() > 0 && all_digits(d) {
            Some(-(digits_val(d) as int))
        } else {
            None
        }
    } else {
        match unsigned_val(t) {
            Some(v) => Some(v as int),
            None => None,
        }
    }
}

/// Index of the first `.` at or after `i`, or the length.
pub open spec fn dot_at(t: Seq<u8>, i: int) -> int
    decreases t.len() - i,
{
    if i >= t.len() {
        t.len() as int
    } else if t[i] == 46 {
        i
    } else {
        dot_at(t, i + 1)
    }
}

/// Index of the first `e` or `E` at or after `i`, or the length.
pub open spec fn exp_at(t: Seq<u8>, i: int) -> int
    decreases t.len() - i,
{
    if i >= t.len() {
        t.len() as int
    } else if t[i] == 101 || t[i] == 69 {
        i
    } else {
        exp_at(t, i + 1)
    }
}

/// The value of the digits `ds` times `10^shift`, dropping what falls below one.
pub open spec fn scaled(ds: Seq<u8>, shift: int) -> nat {
    if shift >= 0 {
        digits_val(ds) * pow10(shift as nat)
    } else if ds.len() + shift > 0 {
        digits_val(ds.subrange(0, ds.len() + shift))
    } else {
        0
    }
}

/// A decimal numeral without sign, `digits[.digits][(e|E)exponent]` with at
/// least one digit in the mantissa and a signed integer exponent, as a count
/// of `10^-places` units; what falls below one unit is dropped.
pub open spec fn decimal_magnitude(t: Seq<u8>, places: nat) -> Option<nat> {
    let k = exp_at(t, 0);
    let mant = t.subrange(0, k);
    let exp = if k < t.len() { signed_val(t.subrange(k + 1, t.len() as int)) } else { Some(0int) };
    let d = dot_at(mant, 0);
    let whole = mant.subrange(0, d);
    let frac = if d < mant.len() { mant.subrange(d + 1, mant.len() as int) } else { Seq::<u8>::empty() };
    if all_digits(whole) && all_digits(frac) && whole.len() + frac.len() > 0 && exp is Some {
        Some(scaled(whole + frac, places + exp->0 - frac.len()))
    } else {
        None
    }
}

/// `v` held within `-WIDE_CAP ..= WIDE_CAP`.
pub open spec fn clamp_wide(v: int) -> int {
    if v > WIDE_CAP { WIDE_CAP as int } else if v < -WIDE_CAP { -WIDE_CAP } else { v }
}

/// A decimal numeral with an optional `+` or `-` sign, as a count of
/// `10^-places` units.
pub open spec fn decimal_val(t: Seq<u8>, places: nat) -> Option<int> {
    if t.len() > 0 && t[0] == 45 {
        match decimal_magnitude(t.drop_first(), places) {
            Some(m) => Some(-(m as int)),
            None => None,
        }
    } else {
        let d = if t.len() > 0 && t[0] == 43 { t.drop_first() } else { t };
        match decimal_magnitude(d, places) {
            Some(m) => Some(m as int),
            None => None,
        }
    }
}

proof fn lemma_cap_step(x: nat, d: nat, c: nat)
    requires
        c > 0,
    ensures
        min_nat(min_nat(x, c) * 10 + d, c) == min_nat(x * 10 + d, c),
{
    if x >= c {
        assert(x * 10 >= c * 10) by (nonlinear_arith)
            requires
                x >= c,
        ;
    }
}

/// Whether `s[a..b]` is all digits.
pub fn digits_only(s: &[u8], a: usize, b: usize) -> (r: bool)
    requires
        a <= b <= s@.len(),
    ensures
        r == all_digits(s@.subrange(a as int, b as int)),
{
    let mut i = a;
    while i < b
        invariant
            a <= i <= b <= s@.len(),
            all_digits(s@.subrange(a as int, i as int)),
        decreases b - i,
    {
        if !(48 <= s[i] && s[i] <= 57) {
            assert(s@.subrange(a as int, b as int)[i - a] == s@[i as int]);
            return false;
        }
        i = i + 1;
        assert forall|k: int| 0 <= k < i - a implies is_digit(
            #[trigger] s@.subrange(a as int, i as int)[k],
        ) by {
            assert(s@.subrange(a as int, i as int)[k] == s@[a + k]);
            if k < i - 1 - a {
                assert(s@.subrange(a as int, (i - 1) as int)[k] == s@[a + k]);
            }
        }
    }
    true
}

/// The value of the digits `s[a..b]`, held at `NUMERAL_CAP`.
pub fn digits_capped(s: &[u8], a: usize, b: usize) -> (r: u64)
    requires
        a <= b <= s@.len(),
        all_digits(s@.subrange(a as int, b as int)),
    ensures
        r as nat == min_nat(digits_val(s@.subrange(a as int, b as int)), NUMERAL_CAP as nat),
{
    let mut acc: u64 = 0;
    let mut i = a;
    assert(s@.subrange(a as int, a as int).len() == 0);
    while i < b
        invariant
            a <= i <= b <= s@.len(),
            all_digits(s@.subrange(a as int, b as int)),
            acc as nat == min_nat(digits_val(s@.subrange(a as int, i as int)), NUMERAL_CAP as nat),
        decreases b - i,
    {
        assert(s@.subrange(a as int, b as int)[i - a] == s@[i as int]);
        let d = (s[i] - 48) as u64;
        let next = acc * 10 + d;
        proof {
            let prev = s@.subrange(a as int, i as int);
            let cur = s@.subrange(a as int, i + 1);
            assert(cur.drop_last() =~= prev);
            assert(cur.last() == s@[i as int]);
            lemma_cap_step(digits_val(prev), d as nat, NUMERAL_CAP as nat);
        }
        acc = if next > NUMERAL_CAP { NUMERAL_CAP } else { next };
        i = i + 1;
    }
    acc
}

/// Reads `s[a..b]` as an unsigned integer numeral; its value is held at
/// `NUMERAL_CAP`.
pub fn parse_unsigned(s: &[u8], a: usize, b: usize) -> (r: Option<u64>)
    requires
        a <= b <= s@.len(),
    ensures
        r == (match unsigned_val(s@.subrange(a as int, b as int)) {
            Some(v) => Some(min_nat(v, NUMERAL_CAP as nat) as u64),
            None => None::<u64>,
        }),
{
    let t = Ghost(s@.subrange(a as int, b as int));
    let start = if a < b && s[a] == 43 { a + 1 } else { a };
    assert(s@.subrange(start as int, b as int) =~= (if t@.len() > 0 && t@[0] == 43 {
        t@.drop_first()
    } else {
        t@
    }));
    if start < b && digits_only(s, start, b) {
        Some(digits_capped(s, start, b))
    } else {
        None
    }
}

/// Reads `s[a..b]` as a signed integer numeral; its magnitude is held at
/// `NUMERAL_CAP`.
pub fn parse_signed(s: &[u8], a: usize, b: usize) -> (r: Option<i64>)
    requires
        a <= b <= s@.len(),
    ensures
        r == (match signed_val(s@.subrange(a as int, b as int)) {
            Some(v) => Some(
                (if v < 0 { -min_nat((-v) as nat, NUMERAL_CAP as nat) } else { min_nat(
                    v as nat,
                    NUMERAL_CAP as nat,
                ) as int }) as i64,
            ),
            None => None::<i64>,
        }),
{
    let t = Ghost(s@.subrange(a as int, b as int));
    if a < b && s[a] == 45 {
        assert(s@.subrange(a + 1, b as int) =~= t@.drop_first());
        if a + 1 < b && digits_only(s, a + 1, b) {
            let m = digits_capped(s, a + 1, b);
            Some(0 - (m as i64))
        } else {
            None
        }
    } else {
        match parse_unsigned(s, a, b) {
            Some(m) => Some(m as i64),
            None => None,
        }
    }
}

/// Index of the first `.` in `s[a..b]`, or `b`.
fn find_dot(s: &[u8], a: usize, b: usize) -> (r: usize)
    requires
        a <= b <= s@.len(),
    ensures
        a <= r <= b,
        r - a == dot_at(s@.subrange(a as int, b as int), 0),
{
    let t = Ghost(s@.subrange(a as int, b as int));
    let mut i = a;
    while i < b && s[i] != 46
        invariant
            a <= i <= b <= s@.len(),
            t@ == s@.subrange(a as int, b as int),
            dot_at(t@, 0) == dot_at(t@, i - a),
        decreases b - i,
    {
        assert(t@[i - a] == s@[i as int]);
        i = i + 1;
    }
    if i < b {
        assert(t@[i - a] == s@[i as int]);
    }
    i
}

/// Index of the first `e` or `E` in `s[a..b]`, or `b`.
fn find_exp(s: &[u8], a: usize, b: usize) -> (r: usize)
    requires
        a <= b <= s@.len(),
    ensures
        a <= r <= b,
        r - a == exp_at(s@.subrange(a as int, b as int), 0),
{
    let t = Ghost(s@.subrange(a as int, b as int));
    let mut i = a;
    while i < b && s[i] != 101 && s[i] != 69
        invariant
            a <= i <= b <= s@.len(),
            t@ == s@.subrange(a as int, b as int),
            exp_at(t@, 0) == exp_at(t@, i - a),
        decreases b - i,
    {
        assert(t@[i - a] == s@[i as int]);
        i = i + 1;
    }
    if i < b {
        assert(t@[i - a] == s@[i as int]);
    }
    i
}

/// Continues reading digits `s[a..b]` after the digits `prev`, whose value
/// held at `WIDE_CAP` is `acc`.
fn digits_wide(s: &[u8], a: usize, b: usize, acc: u128, prev: Ghost<Seq<u8>>) -> (r: u128)
    requires
        a <= b <= s@.len(),
        all_digits(s@.subrange(a as int, b as int)),
        acc as nat == min_nat(digits_val(prev@), WIDE_CAP as nat),
    ensures
        r as nat == min_nat(digits_val(prev@ + s@.subrange(a as int, b as int)), WIDE_CAP as nat),
{
    let mut acc = acc;
    let mut i = a;
    assert(prev@ + s@.subrange(a as int, a as int) =~= prev@);
    while i < b
        invariant
            a <= i <= b <= s@.len(),
            all_digits(s@.subrange(a as int, b as int)),
            acc as nat == min_nat(digits_val(prev@ + s@.subrange(a as int, i as int)), WIDE_CAP as nat),
        decreases b - i,
    {
        assert(s@.subrange(a as int, b as int)[i - a] == s@[i as int]);
        let d = (s[i] - 48) as u128;
        let next = acc * 10 + d;
        proof {
            let before = prev@ + s@.subrange(a as int, i as int);
            let cur = prev@ + s@.subrange(a as int, i + 1);
            assert(cur.drop_last() =~= before);
            assert(cur.last() == s@[i as int]);
            lemma_cap_step(digits_val(before), d as nat, WIDE_CAP as nat);
        }
        acc = if next > WIDE_CAP { WIDE_CAP } else { next };
        i = i + 1;
    }
    acc
}

/// Reads `s[a..b]` as a signed integer numeral, held within `WIDE_CAP`.
fn parse_signed_wide(s: &[u8], a: usize, b: usize) -> (r: Option<i128>)
    requires
        a <= b <= s@.len(),
    ensures
        r == (match signed_val(s@.subrange(a as int, b as int)) {
            Some(v) => Some(clamp_wide(v) as i128),
            None => None::<i128>,
        }),
{
    let t = Ghost(s@.subrange(a as int, b as int));
    assert(a < b ==> t@[0] == s@[a as int]);
    let neg = a < b && s[a] == 45;
    let start = if a < b && (s[a] == 45 || s[a] == 43) { a + 1 } else { a };
    assert(s@.subrange(start as int, b as int) =~= (if t@.len() > 0 && (t@[0] == 45 || t@[0] == 43) {
        t@.drop_first()
    } else {
        t@
    }));
    if start < b && digits_only(s, start, b) {
        assert(Seq::<u8>::empty() + s@.subrange(start as int, b as int) =~= s@.subrange(start as int, b as int));
        let m = digits_wide(s, start, b, 0, Ghost(Seq::<u8>::empty()));
        if neg {
            Some(0 - (m as i128))
        } else {
            Some(m as i128)
        }
    } else {
        None
    }
}

/// Reads `s[a..b]` as a decimal numeral in units of `10^-places`, held
/// within `WIDE_CAP`.
pub fn parse_decimal(s: &[u8], a: usize, b: usize, places: u32) -> (r: Option<i128>)
    requires
        a <= b <= s@.len(),
        places <= 6,
    ensures
        r == (match decimal_val(s@.subrange(a as int, b as int), places as nat) {
            Some(v) => Some(clamp_wide(v) as i128),
            None => None::<i128>,
        }),
{
    let t = Ghost(s@.subrange(a as int, b as int));
    assert(a < b ==> t@[0] == s@[a as int]);
    if a < b && s[a] == 45 {
        assert(s@.subrange(a + 1, b as int) =~= t@.drop_first());
        match magnitude_of(s, a + 1, b, places) {
            Some(m) => Some(0 - (m as i128)),
            None => None,
        }
    } else {
        let start = if a < b && s[a] == 43 { a + 1 } else { a };
        assert(s@.subrange(start as int, b as int) =~= (if t@.len() > 0 && t@[0] == 43 {
            t@.drop_first()
        } else {
            t@
        }));
        match magnitude_of(s, start, b, places) {
            Some(m) => Some(m as i128),
            None => None,
        }
    }
}

/// `dv`, the value of digits `ds` held at `WIDE_CAP`, times `10^shift`.
fn scale_up(dv: u128, shift: i128, ds: Ghost<Seq<u8>>) -> (r: u128)
    requires
        dv as nat == min_nat(digits_val(ds@), WIDE_CAP as nat),
        shift >= 0,
    ensures
        r as nat == min_nat(scaled(ds@, shift as int), WIDE_CAP as nat),
{
    let ghost v = digits_val(ds@);
    if dv == 0 {
        assert(v == 0);
        assert(v * pow10(shift as nat) == 0) by (nonlinear_arith)
            requires
                v == 0,
        ;
        return 0;
    }
    if shift > 22 {
        proof {
            lemma_pow10_monotone(23, shift as nat);
            assert(pow10(23) == 100_000_000_000_000_000_000_000nat) by {
                reveal_with_fuel(pow10, 24);
            }
            assert(v * pow10(shift as nat) >= pow10(shift as nat)) by (nonlinear_arith)
                requires
                    v >= 1,
            ;
        }
        return WIDE_CAP;
    }
    let mut acc = dv;
    let mut j: i128 = 0;
    assert(pow10(0) == 1);
    assert(v * pow10(0) == v);
    while j < shift
        invariant
            0 <= j <= shift <= 22,
            v == digits_val(ds@),
            acc as nat == min_nat(v * pow10(j as nat), WIDE_CAP as nat),
        decreases shift - j,
    {
        proof {
            lemma_cap_step(v * pow10(j as nat), 0, WIDE_CAP as nat);
            assert(pow10((j + 1) as nat) == 10 * pow10(j as nat));
            assert(v * pow10((j + 1) as nat) == (v * pow10(j as nat)) * 10) by (nonlinear_arith)
                requires
                    pow10((j + 1) as nat) == 10 * pow10(j as nat),
            ;
        }
        let next = acc * 10;
        acc = if next > WIDE_CAP { WIDE_CAP } else { next };
        j = j + 1;
    }
    acc
}

/// The value, held at `WIDE_CAP`, of the first `keep` digits of the digits
/// `s[a..d]` followed by `s[fs..k]`.
fn prefix_digits(s: &[u8], a: usize, d: usize, fs: usize, k: usize, keep: usize) -> (r: u128)
    requires
        a <= d <= fs <= k <= s@.len(),
        all_digits(s@.subrange(a as int, d as int)),
        all_digits(s@.subrange(fs as int, k as int)),
        keep <= (d - a) + (k - fs),
    ensures
        r as nat == min_nat(
            digits_val((s@.subrange(a as int, d as int) + s@.subrange(fs as int, k as int)).subrange(0, keep as int)),
            WIDE_CAP as nat,
        ),
{
    let ghost whole = s@.subrange(a as int, d as int);
    let ghost ds = whole + s@.subrange(fs as int, k as int);
    let wl = d - a;
    if keep <= wl {
        let e = a + keep;
        assert(s@.subrange(a as int, e as int) =~= ds.subrange(0, keep as int));
        assert(all_digits(s@.subrange(a as int, e as int))) by {
            assert forall|q: int| 0 <= q < keep implies is_digit(#[trigger] s@.subrange(a as int, e as int)[q]) by {
                assert(s@.subrange(a as int, e as int)[q] == whole[q]);
            }
        }
        assert(Seq::<u8>::empty() + s@.subrange(a as int, e as int) =~= ds.subrange(0, keep as int));
        digits_wide(s, a, e, 0, Ghost(Seq::<u8>::empty()))
    } else {
        let fe = fs + (keep - wl);
        assert(whole + s@.subrange(fs as int, fe as int) =~= ds.subrange(0, keep as int));
        assert(all_digits(s@.subrange(fs as int, fe as int))) by {
            assert forall|q: int| 0 <= q < fe - fs implies is_digit(#[trigger] s@.subrange(fs as int, fe as int)[q]) by {
                assert(s@.subrange(fs as int, fe as int)[q] == s@.subrange(fs as int, k as int)[q]);
            }
        }
        assert(Seq::<u8>::empty() + whole =~= whole);
        let w0 = digits_wide(s, a, d, 0, Ghost(Seq::<u8>::empty()));
        digits_wide(s, fs, fe, w0, Ghost(whole))
    }
}

/// A mantissa's whole and fraction digits with an exponent, as a count of
/// `10^-places` units.
pub open spec fn magnitude_from(whole: Seq<u8>, frac: Seq<u8>, exp: Option<int>, places: nat) -> Option<nat> {
    if all_digits(whole) && all_digits(frac) && whole.len() + frac.len() > 0 && exp is Some {
        Some(scaled(whole + frac, places + exp->0 - frac.len()))
    } else {
        None
    }
}

pub open spec fn exp_part(s: Seq<u8>, k: int, b: int) -> Option<int> {
    if k < b { signed_val(s.subrange(k + 1, b)) } else { Some(0int) }
}

/// Where the mantissa's parts and the exponent lie in `s[a..b]`.
fn split_numeral(s: &[u8], a: usize, b: usize) -> (r: (usize, usize, usize))
    requires
        a <= b <= s@.len(),
    ensures
        a <= r.0 <= r.1 <= r.2 <= b,
        r.1 == r.0 || r.1 == r.0 + 1,
        forall|p: nat| #[trigger] decimal_magnitude(s@.subrange(a as int, b as int), p) == magnitude_from(
            s@.subrange(a as int, r.0 as int),
            s@.subrange(r.1 as int, r.2 as int),
            exp_part(s@, r.2 as int, b as int),
            p,
        ),
{
    let ghost t = s@.subrange(a as int, b as int);
    let k = find_exp(s, a, b);
    let ghost mant = t.subrange(0, k - a);
    assert(s@.subrange(a as int, k as int) =~= mant);
    let d = find_dot(s, a, k);
    let fs = if d < k { d + 1 } else { k };
    let ghost whole = mant.subrange(0, d - a);
    let ghost frac = if d - a < mant.len() { mant.subrange(d - a + 1, mant.len() as int) } else { Seq::<u8>::empty() };
    assert(s@.subrange(a as int, d as int) =~= whole);
    assert(s@.subrange(fs as int, k as int) =~= frac);
    if k < b {
        assert(s@.subrange(k + 1, b as int) =~= t.subrange(k - a + 1, t.len() as int));
    }
    (d, fs, k)
}

/// Reads `s[a..b]` as a decimal numeral without sign, held at `WIDE_CAP`.
fn magnitude_of(s: &[u8], a: usize, b: usize, places: u32) -> (r: Option<u128>)
    requires
        a <= b <= s@.len(),
        places <= 6,
    ensures
        r == (match decimal_magnitude(s@.subrange(a as int, b as int), places as nat) {
            Some(v) => Some(min_nat(v, WIDE_CAP as nat) as u128),
            None => None::<u128>,
        }),
{
    let (d, fs, k) = split_numeral(s, a, b);
    assert(decimal_magnitude(s@.subrange(a as int, b as int), places as nat) == magnitude_from(
        s@.subrange(a as int, d as int),
        s@.subrange(fs as int, k as int),
        exp_part(s@, k as int, b as int),
        places as nat,
    ));
    let exp: Option<i128> = if k < b { parse_signed_wide(s, k + 1, b) } else { Some(0) };
    if !(digits_only(s, a, d) && digits_only(s, fs, k) && (d - a) + (k - fs) > 0) {
        return None;
    }
    let e = match exp {
        Some(e) => e,
        None => {
            return None;
        },
    };
    let ghost whole = s@.subrange(a as int, d as int);
    let ghost frac = s@.subrange(fs as int, k as int);
    let ghost big_e = exp_part(s@, k as int, b as int)->0;
    let ghost ds = whole + frac;
    let ghost true_shift = places + big_e - frac.len();
    let flen = k - fs;
    let n = (d - a) + flen;
    let shift: i128 = places as i128 + e - flen as i128;
    if shift >= 0 {
        assert(Seq::<u8>::empty() + whole =~= whole);
        let w0 = digits_wide(s, a, d, 0, Ghost(Seq::<u8>::empty()));
        let dv = digits_wide(s, fs, k, w0, Ghost(whole));
        if shift > 22 {
            assert(true_shift >= shift);
            let r = scale_up(dv, 23, Ghost(ds));
            proof {
                if dv > 0 {
                    assert(pow10(23) == 100_000_000_000_000_000_000_000nat) by {
                        reveal_with_fuel(pow10, 24);
                    }
                    assert(digits_val(ds) >= 1);
                    assert(digits_val(ds) * pow10(23) >= pow10(23)) by (nonlinear_arith)
                        requires
                            digits_val(ds) >= 1,
                    ;
                    lemma_pow10_monotone(23, true_shift as nat);
                    assert(digits_val(ds) * pow10(true_shift as nat) >= digits_val(ds) * pow10(23)) by (nonlinear_arith)
                        requires
                            pow10(true_shift as nat) >= pow10(23),
                    ;
                    assert(scaled(ds, 23) == digits_val(ds) * pow10(23));
                    assert(scaled(ds, true_shift) == digits_val(ds) * pow10(true_shift as nat));
                    assert(r == WIDE_CAP);
                } else {
                    assert(digits_val(ds) == 0);
                    assert(digits_val(ds) * pow10(true_shift as nat) == 0) by (nonlinear_arith)
                        requires
                            digits_val(ds) == 0,
                    ;
                    assert(digits_val(ds) * pow10(23) == 0) by (nonlinear_arith)
                        requires
                            digits_val(ds) == 0,
                    ;
                    assert(scaled(ds, 23) == 0);
                    assert(scaled(ds, true_shift) == 0);
                }
            }
            assert(magnitude_from(whole, frac, exp_part(s@, k as int, b as int), places as nat) == Some(scaled(ds, true_shift)));
            assert(r as nat == min_nat(scaled(ds, true_shift), WIDE_CAP as nat));
            Some(r)
        } else {
            assert(true_shift == shift);
            let r = scale_up(dv, shift, Ghost(ds));
            assert(magnitude_from(whole, frac, exp_part(s@, k as int, b as int), places as nat) == Some(scaled(ds, true_shift)));
            Some(r)
        }
    } else {
        let keep: i128 = n as i128 + shift;
        assert(magnitude_from(whole, frac, exp_part(s@, k as int, b as int), places as nat) == Some(scaled(ds, true_shift)));
        if keep <= 0 {
            assert(ds.len() + true_shift <= 0);
            assert(scaled(ds, true_shift) == 0);
            return Some(0);
        }
        assert(true_shift == shift);
        let r = prefix_digits(s, a, d, fs, k, keep as usize);
        assert(scaled(ds, true_shift) == digits_val(ds.subrange(0, keep as int)));
        Some(r)
    }
}

/// Whether `s` holds the four bytes `Uid:` at index `i`.
pub open spec fn uid_label_at(s: Seq<u8>, i: int) -> bool {
    0 <= i && i + 4 <= s.len() && s[i] == 85 && s[i + 1] == 105 && s[i + 2] == 100 && s[i + 3] == 58
}

/// Start of the first line at or after index `i` that begins with `Uid:`;
/// `at_start` tells whether `i` begins a line.
pub open spec fn uid_line_from(s: Seq<u8>, i: int, at_start: bool) -> Option<int>
    decreases s.len() - i,
{
    if i < 0 || i >= s.len() {
        None
    } else if at_start && uid_label_at(s, i) {
        Some(i)
    } else {
        uid_line_from(s, i + 1, s[i] == 10)
    }
}

/// Index of the first line feed at or after `i`, or the length.
pub open spec fn line_end(s: Seq<u8>, i: int) -> int
    decreases s.len() - i,
{
    if i < 0 || i >= s.len() {
        s.len() as int
    } else if s[i] == 10 {
        i
    } else {
        line_end(s, i + 1)
    }
}

/// The owning user id in a process status record: the second field of the
/// first line that begins with `Uid:`, an unsigned numeral that fits in 32 bits.
pub open spec fn status_uid(s: Seq<u8>) -> Option<u32> {
    match uid_line_from(s, 0, true) {
        Some(i) => match field(s, i, line_end(s, i), 1) {
            Some(t) => match unsigned_val(t) {
                Some(v) => if v <= u32::MAX { Some(v as u32) } else { None },
                None => None,
            },
            None => None,
        },
        None => None,
    }
}

/// Whether a process stat record names a controlling terminal: its field of
/// index six is a signed numeral, non-zero, and within signed 32-bit range
/// (the kernel prints the terminal number signed, so a large device minor
/// number shows as negative).
pub open spec fn stat_has_tty(s: Seq<u8>) -> bool {
    match field_of(s, 6) {
        Some(t) => match signed_val(t) {
            Some(v) => v != 0 && i32::MIN <= v && v <= i32::MAX,
            None => false,
        },
        None => false,
    }
}

/// Reads the owning user id out of a process status record.
pub fn parse_status_uid(s: &[u8]) -> (r: Option<u32>)
    ensures
        r == status_uid(s@),
{
    let mut i: usize = 0;
    let mut at_start = true;
    while i < s.len() && !(at_start && 4 <= s.len() - i && s[i] == 85 && s[i + 1] == 105
        && s[i + 2] == 100 && s[i + 3] == 58)
        invariant
            i <= s@.len(),
            uid_line_from(s@, 0, true) == uid_line_from(s@, i as int, at_start),
        decreases s@.len() - i,
    {
        at_start = s[i] == 10;
        i = i + 1;
    }
    if i >= s.len() {
        return None;
    }
    let mut e = i;
    while e < s.len() && s[e] != 10
        invariant
            i <= e <= s@.len(),
            line_end(s@, i as int) == line_end(s@, e as int),
        decreases s@.len() - e,
    {
        e = e + 1;
    }
    let (a, b) = find_field(s, i, e, 1);
    if a >= e {
        return None;
    }
    match parse_unsigned(s, a, b) {
        Some(v) => if v <= 4294967295 {
            Some(v as u32)
        } else {
            None
        },
        None => None,
    }
}

/// Whether a process stat record names a controlling terminal.
pub fn parse_stat_has_tty(s: &[u8]) -> (r: bool)
    ensures
        r == stat_has_tty(s@),
{
    let (a, b) = find_field(s, 0, s.len(), 6);
    if a >= s.len() {
        return false;
    }
    match parse_signed(s, a, b) {
        Some(v) => v != 0 && -2147483648 <= v && v <= 2147483647,
        None => false,
    }
}

/// Where a later field exists, so does every earlier one.
pub proof fn lemma_field_before(s: Seq<u8>, m: nat, n: nat)
    requires
        m <= n,
        field_start(s, 0, s.len() as int, n) < s.len(),
    ensures
        field_start(s, 0, s.len() as int, m) < s.len(),
        field_of(s, m) is Some,
    decreases n - m,
{
    if m < n {
        lemma_field_start_step(s, 0, s.len() as int, m);
        lemma_field_before(s, m + 1, n);
    }
}

/// Fields start no earlier than the ones before them, and a field that starts
/// at the end is followed by none.
proof fn lemma_field_start_step(s: Seq<u8>, i: int, e: int, m: nat)
    requires
        0 <= i <= e <= s.len(),
    ensures
        field_start(s, i, e, m) <= field_start(s, i, e, m + 1),
        field_start(s, i, e, m) == e ==> field_start(s, i, e, m + 1) == e,
    decreases m,
{
    let a = ws_end(s, i, e);
    lemma_ws_end_bounds(s, i, e);
    lemma_word_end_bounds(s, a, e);
    let w = word_end(s, a, e);
    if m == 0 {
        lemma_field_start_bounds(s, w, e, 0);
        if a == e {
            assert(w == e);
        }
    } else {
        lemma_field_start_step(s, w, e, (m - 1) as nat);
    }
}

} // verus!
