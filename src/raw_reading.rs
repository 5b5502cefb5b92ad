//! Reading the raw style back: its six fields, split on whitespace and read
//! with this library's numeral grammar, give back the snapshot's values.

use vstd::prelude::*;
use vstd::arithmetic::div_mod::{lemma_breakdown, lemma_fundamental_div_mod, lemma_small_mod};
use crate::numerals::{dec, digit_char, fixed, padded, pow10, signed_fixed, lemma_pow10_positive};
use crate::render::raw_text;
use crate::scan::{
    all_digits, decimal_magnitude, decimal_val, digits_val, dot_at, field, field_of, field_start,
    exp_at, is_digit, is_ws, lemma_field_start_skips, scaled, unsigned_val, word_end, ws_end,
};
use crate::system_metrics::{SystemMetrics, MICROS_PER_SECOND};

verus! {

/// The bytes of an ASCII text.
pub open spec fn ascii(s: Seq<char>) -> Seq<u8> {
    s.map_values(|c: char| c as u8)
}

proof fn lemma_ascii_concat(a: Seq<char>, b: Seq<char>)
    ensures
        ascii(a + b) == ascii(a) + ascii(b),
{
    assert(ascii(a + b) =~= ascii(a) + ascii(b));
}

proof fn lemma_digit_byte(d: nat)
    requires
        d < 10,
    ensures
        digit_char(d) as u8 == 48 + d,
{
}

proof fn lemma_push_digit(t: Seq<u8>, d: nat)
    requires
        all_digits(t),
        d < 10,
    ensures
        all_digits(t.push((48 + d) as u8)),
        digits_val(t.push((48 + d) as u8)) == digits_val(t) * 10 + d,
{
    let u = t.push((48 + d) as u8);
    assert(u.drop_last() =~= t);
    assert forall|k: int| 0 <= k < u.len() implies is_digit(#[trigger] u[k]) by {
        if k < t.len() {
            assert(u[k] == t[k]);
        }
    }
}

/// A shortest numeral reads back as its value.
pub proof fn lemma_dec_reads_back(n: nat)
    ensures
        ascii(dec(n)).len() > 0,
        all_digits(ascii(dec(n))),
        digits_val(ascii(dec(n))) == n,
    decreases n,
{
    lemma_digit_byte(n % 10);
    if n < 10 {
        let t = ascii(dec(n));
        assert(t =~= Seq::<u8>::empty().push((48 + n) as u8));
        lemma_push_digit(Seq::<u8>::empty(), n);
    } else {
        lemma_dec_reads_back(n / 10);
        assert(ascii(dec(n)) =~= ascii(dec(n / 10)).push((48 + n % 10) as u8));
        lemma_push_digit(ascii(dec(n / 10)), n % 10);
    }
}

/// A zero-padded numeral of width `w` reads back as the value's lowest `w` digits.
pub proof fn lemma_padded_reads_back(n: nat, w: nat)
    ensures
        ascii(padded(n, w)).len() == w,
        all_digits(ascii(padded(n, w))),
        digits_val(ascii(padded(n, w))) == n % pow10(w),
    decreases w,
{
    if w == 0 {
        assert(ascii(padded(n, w)) =~= Seq::<u8>::empty());
    } else {
        let w1 = (w - 1) as nat;
        lemma_padded_reads_back(n / 10, w1);
        lemma_digit_byte(n % 10);
        assert(ascii(padded(n, w)) =~= ascii(padded(n / 10, w1)).push((48 + n % 10) as u8));
        lemma_push_digit(ascii(padded(n / 10, w1)), n % 10);
        lemma_pow10_positive(w1);
        lemma_breakdown(n as int, 10, pow10(w1) as int);
        assert(pow10(w) == 10 * pow10(w1));
        assert(((n / 10) % pow10(w1)) * 10 == 10 * ((n as int / 10) % pow10(w1) as int));
    }
}

proof fn lemma_dot_at_skips(t: Seq<u8>, i: int, k: int)
    requires
        0 <= i <= k < t.len(),
        t[k] == 46,
        forall|j: int| 0 <= j < k ==> t[j] != 46,
    ensures
        dot_at(t, i) == k,
    decreases k - i,
{
    if i < k {
        lemma_dot_at_skips(t, i + 1, k);
    }
}

proof fn lemma_digits_val_concat(a: Seq<u8>, b: Seq<u8>)
    ensures
        digits_val(a + b) == digits_val(a) * pow10(b.len()) + digits_val(b),
    decreases b.len(),
{
    if b.len() == 0 {
        assert(a + b =~= a);
        assert(digits_val(a) * pow10(0) == digits_val(a)) by {
            assert(pow10(0) == 1);
        }
    } else {
        let bl = b.drop_last();
        lemma_digits_val_concat(a, bl);
        assert((a + b).drop_last() =~= a + bl);
        assert((a + b).last() == b.last());
        assert(pow10(b.len()) == 10 * pow10(bl.len()));
        assert((digits_val(a) * pow10(bl.len()) + digits_val(bl)) * 10 + (b.last() - 48) as nat
            == digits_val(a) * pow10(b.len()) + (digits_val(bl) * 10 + (b.last() - 48) as nat)) by (nonlinear_arith)
            requires
                pow10(b.len()) == 10 * pow10(bl.len()),
        ;
    }
}

proof fn lemma_exp_at_end(t: Seq<u8>, i: int)
    requires
        0 <= i <= t.len(),
        forall|j: int| i <= j < t.len() ==> t[j] != 101 && t[j] != 69,
    ensures
        exp_at(t, i) == t.len(),
    decreases t.len() - i,
{
    if i < t.len() {
        lemma_exp_at_end(t, i + 1);
    }
}

/// A fixed-point numeral reads back as its value.
pub proof fn lemma_fixed_reads_back(v: nat, p: nat)
    requires
        1 <= p,
    ensures
        decimal_magnitude(ascii(fixed(v, p)), p) == Some(v),
        all_digits(ascii(fixed(v, p)).subrange(0, 1)),
        ascii(fixed(v, p)).len() > 0,
        forall|k: int| 0 <= k < ascii(fixed(v, p)).len() ==> !is_ws(#[trigger] ascii(fixed(v, p))[k]),
{
    lemma_pow10_positive(p);
    let big = pow10(p);
    let w = ascii(dec(v / big));
    let f = ascii(padded(v % big, p));
    lemma_dec_reads_back(v / big);
    lemma_padded_reads_back(v % big, p);
    let t = ascii(fixed(v, p));
    lemma_ascii_concat(dec(v / big) + seq!['.'], padded(v % big, p));
    lemma_ascii_concat(dec(v / big), seq!['.']);
    assert(ascii(seq!['.']) =~= seq![46u8]);
    assert(t == w + seq![46u8] + f);
    assert(t[w.len() as int] == 46);
    assert forall|j: int| 0 <= j < w.len() implies t[j] != 46 by {
        assert(t[j] == w[j]);
        assert(is_digit(w[j]));
    }
    lemma_dot_at_skips(t, 0, w.len() as int);
    assert(t.subrange(0, w.len() as int) =~= w);
    assert(t.subrange(w.len() as int + 1, t.len() as int) =~= f);
    lemma_fundamental_div_mod(v as int, big as int);
    assert((v / big) * big == big * (v / big)) by (nonlinear_arith);
    let k = dot_at(t, 0);
    assert(k == w.len());
    assert(t.subrange(0, k) == w);
    assert(k < t.len());
    assert(t.subrange(k + 1, t.len() as int) == f);
    lemma_small_mod((v % big) as nat, big as nat);
    assert(digits_val(f) == v % big);
    assert(pow10(0) == 1);
    assert(f.len() == p);
    lemma_digits_val_concat(w, f);
    assert(scaled(w + f, 0) == digits_val(w + f) * pow10(0));
    assert(digits_val(w + f) * 1 == digits_val(w + f));
    assert(scaled(w + f, 0) == v);
    assert forall|j: int| 0 <= j < t.len() implies t[j] != 101 && t[j] != 69 by {
        if j < w.len() {
            assert(t[j] == w[j]);
            assert(is_digit(w[j]));
        } else if j > w.len() {
            assert(t[j] == f[j - w.len() - 1]);
            assert(is_digit(f[j - w.len() - 1]));
        }
    }
    lemma_exp_at_end(t, 0);
    assert(t.subrange(0, t.len() as int) =~= t);
    assert(t.subrange(0, 1) =~= w.subrange(0, 1));
    assert forall|k: int| 0 <= k < t.len() implies !is_ws(#[trigger] t[k]) by {
        if k < w.len() {
            assert(t[k] == w[k]);
            assert(is_digit(w[k]));
        } else if k > w.len() {
            assert(t[k] == f[k - w.len() - 1]);
            assert(is_digit(f[k - w.len() - 1]));
        }
    }
}

/// A non-empty run of bytes without whitespace.
pub open spec fn solid(t: Seq<u8>) -> bool {
    t.len() > 0 && forall|k: int| 0 <= k < t.len() ==> !is_ws(#[trigger] t[k])
}

/// Pieces joined by single spaces.
pub open spec fn spaced(ps: Seq<Seq<u8>>) -> Seq<u8>
    decreases ps.len(),
{
    if ps.len() == 0 {
        Seq::empty()
    } else if ps.len() == 1 {
        ps[0]
    } else {
        ps[0] + seq![32u8] + spaced(ps.drop_first())
    }
}

proof fn lemma_spaced_nonempty(ps: Seq<Seq<u8>>)
    requires
        ps.len() > 0,
        solid(ps[0]),
    ensures
        spaced(ps).len() > 0,
        spaced(ps)[0] == ps[0][0],
{
}

proof fn lemma_word_end_at(s: Seq<u8>, j: int, e: int, end: int)
    requires
        0 <= j <= end <= e <= s.len(),
        forall|k: int| j <= k < end ==> !is_ws(#[trigger] s[k]),
        end == e || is_ws(s[end]),
    ensures
        word_end(s, j, e) == end,
    decreases end - j,
{
    if j < end {
        lemma_word_end_at(s, j + 1, e, end);
    }
}

/// Splitting pieces joined by single spaces gives back the pieces.
pub proof fn lemma_spaced_fields(s: Seq<u8>, i: int, e: int, ps: Seq<Seq<u8>>)
    requires
        0 <= i <= e <= s.len(),
        ps.len() > 0,
        forall|k: int| 0 <= k < ps.len() ==> solid(#[trigger] ps[k]),
        s.subrange(i, e) == spaced(ps),
    ensures
        forall|k: int| 0 <= k < ps.len() ==> field(s, i, e, k as nat) == Some(#[trigger] ps[k]),
        field_start(s, i, e, ps.len() as nat) == e,
    decreases ps.len(),
{
    let lead = ps[0];
    let l = lead.len() as int;
    assert(solid(lead));
    let sp = spaced(ps);
    assert(sp.len() == e - i);
    if ps.len() == 1 {
        assert(sp == lead);
    } else {
        assert(sp == lead + seq![32u8] + spaced(ps.drop_first()));
    }
    assert forall|k: int| i <= k < i + l implies !is_ws(#[trigger] s[k]) by {
        assert(s[k] == s.subrange(i, e)[k - i]);
        assert(sp[k - i] == lead[k - i]);
    }
    assert(i + l <= e);
    if i + l < e {
        assert(s[i + l] == s.subrange(i, e)[l]);
        assert(sp[l] == 32u8);
    }
    lemma_word_end_at(s, i, e, i + l);
    assert(s[i] == s.subrange(i, e)[0]);
    assert(ws_end(s, i, e) == i);
    assert(s.subrange(i, i + l) =~= lead) by {
        assert forall|k: int| 0 <= k < l implies s.subrange(i, i + l)[k] == lead[k] by {
            assert(s[i + k] == s.subrange(i, e)[k]);
        }
    }
    if ps.len() == 1 {
        assert(field_start(s, i, e, 1) == field_start(s, e, e, 0));
        assert forall|k: int| 0 <= k < ps.len() implies field(s, i, e, k as nat) == Some(#[trigger] ps[k]) by {
            assert(k == 0);
        }
    } else {
        let rest = ps.drop_first();
        let i2 = i + l + 1;
        assert(s.subrange(i2, e) =~= spaced(rest)) by {
            assert forall|k: int| 0 <= k < e - i2 implies s.subrange(i2, e)[k] == spaced(rest)[k] by {
                assert(s[i2 + k] == s.subrange(i, e)[l + 1 + k]);
            }
        }
        assert forall|k: int| 0 <= k < rest.len() implies solid(#[trigger] rest[k]) by {
            assert(rest[k] == ps[k + 1]);
        }
        assert(solid(rest[0]));
        lemma_spaced_nonempty(rest);
        lemma_spaced_fields(s, i2, e, rest);
        assert(s[i2] == s.subrange(i2, e)[0]);
        assert(ws_end(s, i + l, e) == ws_end(s, i2, e));
        assert(ws_end(s, i2, e) == i2);
        assert forall|k: int| 0 <= k < ps.len() implies field(s, i, e, k as nat) == Some(#[trigger] ps[k]) by {
            if k > 0 {
                lemma_field_start_skips(s, i + l, e, (k - 1) as nat);
                assert(field_start(s, i, e, k as nat) == field_start(s, i + l, e, (k - 1) as nat));
                assert(field(s, i2, e, (k - 1) as nat) == Some(rest[k - 1]));
            }
        }
        lemma_field_start_skips(s, i + l, e, (ps.len() - 1) as nat);
        assert(field_start(s, i, e, ps.len() as nat) == field_start(s, i + l, e, (ps.len() - 1) as nat));
    }
}

/// A signed fixed-point numeral reads back as its value; it holds no
/// whitespace.
pub proof fn lemma_signed_fixed_reads_back(v: int, p: nat)
    requires
        1 <= p,
    ensures
        decimal_val(ascii(signed_fixed(v, p)), p) == Some(v),
        solid(ascii(signed_fixed(v, p))),
{
    if v < 0 {
        let a = (-v) as nat;
        lemma_fixed_reads_back(a, p);
        let t = ascii(signed_fixed(v, p));
        lemma_ascii_concat(seq!['-'], fixed(a, p));
        assert(ascii(seq!['-']) =~= seq![45u8]);
        assert(t =~= seq![45u8] + ascii(fixed(a, p)));
        assert(t.drop_first() =~= ascii(fixed(a, p)));
        assert forall|k: int| 0 <= k < t.len() implies !is_ws(#[trigger] t[k]) by {
            if k > 0 {
                assert(t[k] == ascii(fixed(a, p))[k - 1]);
            }
        }
    } else {
        lemma_fixed_reads_back(v as nat, p);
        let t = ascii(signed_fixed(v, p));
        assert(is_digit(t.subrange(0, 1)[0]));
        assert(t[0] == t.subrange(0, 1)[0]);
    }
}

/// A shortest numeral reads back as an unsigned integer; it holds no whitespace.
pub proof fn lemma_unsigned_reads_back(n: nat)
    ensures
        unsigned_val(ascii(dec(n))) == Some(n),
        solid(ascii(dec(n))),
{
    lemma_dec_reads_back(n);
    let t = ascii(dec(n));
    assert(is_digit(t[0]));
    assert forall|k: int| 0 <= k < t.len() implies !is_ws(#[trigger] t[k]) by {
        assert(is_digit(t[k]));
    }
}

proof fn lemma_spaced_six(a: Seq<u8>, b: Seq<u8>, c: Seq<u8>, d: Seq<u8>, e: Seq<u8>, f: Seq<u8>)
    ensures
        spaced(seq![a, b, c, d, e, f]) == a + seq![32u8] + b + seq![32u8] + c + seq![32u8] + d + seq![32u8]
            + e + seq![32u8] + f,
{
    let ps = seq![a, b, c, d, e, f];
    assert(ps.drop_first() =~= seq![b, c, d, e, f]);
    assert(seq![b, c, d, e, f].drop_first() =~= seq![c, d, e, f]);
    assert(seq![c, d, e, f].drop_first() =~= seq![d, e, f]);
    assert(seq![d, e, f].drop_first() =~= seq![e, f]);
    assert(seq![e, f].drop_first() =~= seq![f]);
    assert(spaced(seq![f]) == f);
    assert(spaced(seq![e, f]) == e + seq![32u8] + f);
    assert(spaced(seq![d, e, f]) == d + seq![32u8] + (e + seq![32u8] + f));
    assert(spaced(seq![c, d, e, f]) == c + seq![32u8] + (d + seq![32u8] + (e + seq![32u8] + f)));
    assert(spaced(seq![b, c, d, e, f]) == b + seq![32u8] + (c + seq![32u8] + (d + seq![32u8] + (e + seq![32u8]
        + f))));
    assert(spaced(ps) =~= a + seq![32u8] + b + seq![32u8] + c + seq![32u8] + d + seq![32u8] + e + seq![32u8]
        + f);
}

proof fn lemma_raw_spaced(m: SystemMetrics)
    ensures
        ascii(raw_text(m)) == spaced(
            seq![
                ascii(dec(m.boot_time as nat)),
                ascii(fixed(m.uptime_micros as nat, 6)),
                ascii(dec((m.idle_micros / MICROS_PER_SECOND) as nat)),
                ascii(signed_fixed(m.load_avg.0 as int, 2)),
                ascii(signed_fixed(m.load_avg.1 as int, 2)),
                ascii(signed_fixed(m.load_avg.2 as int, 2)),
            ],
        ),
{
    let b = dec(m.boot_time as nat);
    let u = fixed(m.uptime_micros as nat, 6);
    let d = dec((m.idle_micros / MICROS_PER_SECOND) as nat);
    let l0 = signed_fixed(m.load_avg.0 as int, 2);
    let l1 = signed_fixed(m.load_avg.1 as int, 2);
    let l2 = signed_fixed(m.load_avg.2 as int, 2);
    reveal_strlit(" ");
    let sp = " "@;
    assert(ascii(sp) =~= seq![32u8]);
    let t = b + sp + u + sp + d + sp + l0 + sp + l1 + sp + l2;
    assert(raw_text(m) == t);
    assert(ascii(t) =~= ascii(b) + seq![32u8] + ascii(u) + seq![32u8] + ascii(d) + seq![32u8] + ascii(l0)
        + seq![32u8] + ascii(l1) + seq![32u8] + ascii(l2));
    lemma_spaced_six(ascii(b), ascii(u), ascii(d), ascii(l0), ascii(l1), ascii(l2));
}

/// The raw style reads back: split on whitespace it has exactly six fields,
/// and reading them as numerals (boot time and idle seconds as integers,
/// uptime with six decimals, loads with two) gives the boot time, the uptime,
/// the whole idle seconds and the three load averages of the snapshot.
pub proof fn lemma_raw_reads_back(m: SystemMetrics)
    ensures
        ({
            let s = ascii(raw_text(m));
            &&& field_of(s, 0) is Some && unsigned_val(field_of(s, 0)->0) == Some(m.boot_time as nat)
            &&& field_of(s, 1) is Some && decimal_val(field_of(s, 1)->0, 6) == Some(m.uptime_micros as int)
            &&& field_of(s, 2) is Some && unsigned_val(field_of(s, 2)->0) == Some(
                (m.idle_micros / MICROS_PER_SECOND) as nat,
            )
            &&& field_of(s, 3) is Some && decimal_val(field_of(s, 3)->0, 2) == Some(m.load_avg.0 as int)
            &&& field_of(s, 4) is Some && decimal_val(field_of(s, 4)->0, 2) == Some(m.load_avg.1 as int)
            &&& field_of(s, 5) is Some && decimal_val(field_of(s, 5)->0, 2) == Some(m.load_avg.2 as int)
            &&& field_of(s, 6) is None
        }),
{
    reveal_with_fuel(pow10, 7);
    let b = dec(m.boot_time as nat);
    let u = fixed(m.uptime_micros as nat, 6);
    let d = dec((m.idle_micros / MICROS_PER_SECOND) as nat);
    let l0 = signed_fixed(m.load_avg.0 as int, 2);
    let l1 = signed_fixed(m.load_avg.1 as int, 2);
    let l2 = signed_fixed(m.load_avg.2 as int, 2);
    lemma_unsigned_reads_back(m.boot_time as nat);
    lemma_unsigned_reads_back((m.idle_micros / MICROS_PER_SECOND) as nat);
    lemma_fixed_reads_back(m.uptime_micros as nat, 6);
    lemma_signed_fixed_reads_back(m.load_avg.0 as int, 2);
    lemma_signed_fixed_reads_back(m.load_avg.1 as int, 2);
    lemma_signed_fixed_reads_back(m.load_avg.2 as int, 2);
    let au = ascii(u);
    assert(solid(au)) by {
        assert(au.len() > 0);
    }
    assert(decimal_val(au, 6) == Some(m.uptime_micros as int)) by {
        assert(is_digit(au.subrange(0, 1)[0]));
        assert(au[0] == au.subrange(0, 1)[0]);
    }
    let ps = seq![ascii(b), ascii(u), ascii(d), ascii(l0), ascii(l1), ascii(l2)];
    let s = ascii(raw_text(m));
    lemma_raw_spaced(m);
    assert forall|k: int| 0 <= k < ps.len() implies solid(#[trigger] ps[k]) by {}
    assert(s.subrange(0, s.len() as int) =~= s);
    lemma_spaced_fields(s, 0, s.len() as int, ps);
    assert(field_of(s, 0) == Some(ps[0]));
    assert(field_of(s, 1) == Some(ps[1]));
    assert(field_of(s, 2) == Some(ps[2]));
    assert(field_of(s, 3) == Some(ps[3]));
    assert(field_of(s, 4) == Some(ps[4]));
    assert(field_of(s, 5) == Some(ps[5]));
}

} // verus!
