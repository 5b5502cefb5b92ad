//! The dashboard: a bordered panel of text cells, each with a visual tone
//! that decoration may add but that carries no information of its own.

use vstd::prelude::*;
use colored::Colorize;
use crate::clock::LocalStamp;
use crate::numerals::{
    dec, digit_char, fixed, padded, push_dec, push_padded, push_signed_fixed, signed_fixed,
};
use crate::render::{clock_text, date_text, user_label, push_clock, push_date, year_text};
use crate::system_metrics::{SystemMetrics, MICROS_PER_SECOND};

verus! {

/// Visual treatments of a cell.
#[derive(Debug, Clone, Copy, PartialEq, Eq, Structural)]
pub enum Tone {
    Plain,
    Border,
    Star,
    Bright,
    Cyan,
    Green,
    Yellow,
    Magenta,
    Red,
    Alarm,
    Dim,
}

/// A piece of panel text and its tone.
pub struct Cell {
    pub text: String,
    pub tone: Tone,
}

pub open spec fn cell_view(c: Cell) -> (Seq<char>, Tone) {
    (c.text@, c.tone)
}

pub open spec fn cells_view(cs: Seq<Cell>) -> Seq<(Seq<char>, Tone)> {
    cs.map_values(|c: Cell| cell_view(c))
}

/// The severity band of a load average in hundredths: below 1.0, below 2.0,
/// below 4.0, and from 4.0 on.
pub open spec fn band_of(load: int) -> nat {
    if load < 100 { 0 } else if load < 200 { 1 } else if load < 400 { 2 } else { 3 }
}

pub open spec fn band_tone(band: nat) -> Tone {
    if band == 0 { Tone::Green } else if band == 1 { Tone::Yellow } else if band == 2 { Tone::Red } else { Tone::Alarm }
}

/// The severity band of a load average in hundredths.
pub fn load_band(load: i64) -> (r: u8)
    ensures
        r as nat == band_of(load as int),
{
    if load < 100 {
        0
    } else if load < 200 {
        1
    } else if load < 400 {
        2
    } else {
        3
    }
}

fn tone_of_band(band: u8) -> (t: Tone)
    ensures
        t == band_tone(band as nat),
{
    if band == 0 {
        Tone::Green
    } else if band == 1 {
        Tone::Yellow
    } else if band == 2 {
        Tone::Red
    } else {
        Tone::Alarm
    }
}

/// The UTC offset as `+HH:MM`, with `:SS` when it is not whole minutes.
pub open spec fn zone_text(off: int) -> Seq<char> {
    let sign = if off < 0 { "-"@ } else { "+"@ };
    let a = if off < 0 { -off } else { off };
    let sec = a % 60;
    let min = (a / 60) % 60;
    let hour = a / 3600;
    if sec == 0 {
        sign + padded(hour as nat, 2) + ":"@ + padded(min as nat, 2)
    } else {
        sign + padded(hour as nat, 2) + ":"@ + padded(min as nat, 2) + ":"@ + padded(sec as nat, 2)
    }
}

pub open spec fn border_text() -> Seq<char> {
    Seq::new(55, |i: int| '=')
}

/// One uptime unit, `<n><unit>`, preceded by a space when units come before it.
pub open spec fn unit_cells(show: bool, after: bool, n: nat, unit: Seq<char>, tone: Tone) -> Seq<(Seq<char>, Tone)> {
    if !show {
        Seq::empty()
    } else if after {
        seq![(" "@, Tone::Plain), (dec(n), tone), (unit, Tone::Plain)]
    } else {
        seq![(dec(n), tone), (unit, Tone::Plain)]
    }
}

/// The uptime as its non-zero day, hour, minute and second units; seconds
/// also when nothing else shows.
pub open spec fn uptime_cells(secs: nat) -> Seq<(Seq<char>, Tone)> {
    let d = secs / 86400;
    let h = (secs % 86400) / 3600;
    let m = (secs % 3600) / 60;
    let s = secs % 60;
    unit_cells(d > 0, false, d, "d"@, Tone::Cyan) + unit_cells(h > 0, d > 0, h, "h"@, Tone::Green)
        + unit_cells(m > 0, d > 0 || h > 0, m, "m"@, Tone::Yellow) + unit_cells(
        s > 0 || !(d > 0 || h > 0 || m > 0),
        d > 0 || h > 0 || m > 0,
        s,
        "s"@,
        Tone::Magenta,
    )
}

pub open spec fn load_cell(v: i64) -> (Seq<char>, Tone) {
    (signed_fixed(v as int, 2), band_tone(band_of(v as int)))
}

pub open spec fn mode_cell(container: bool) -> (Seq<char>, Tone) {
    if container { ("[CONTAINER]"@, Tone::Cyan) } else { ("[NATIVE]"@, Tone::Green) }
}

/// The dashboard's first rows, up to the uptime.
pub open spec fn head_cells(now: LocalStamp) -> Seq<(Seq<char>, Tone)> {
    seq![
        ("\n+"@, Tone::Plain),
        (border_text(), Tone::Border),
        ("+\n| "@, Tone::Plain),
        ("*"@, Tone::Star),
        ("  SYSTEM UPTIME DASHBOARD  "@, Tone::Plain),
        ("*"@, Tone::Star),
        (" |\n+"@, Tone::Plain),
        (border_text(), Tone::Border),
        ("+\n| Current Time    : "@, Tone::Plain),
        (clock_text(now) + " "@ + zone_text(now.offset as int), Tone::Bright),
        ("               |\n| System Uptime   : "@, Tone::Plain),
    ]
}

/// The boot time and user rows.
pub open spec fn middle_cells(m: SystemMetrics, boot: LocalStamp) -> Seq<(Seq<char>, Tone)> {
    seq![
        ("                        |\n| Boot Time       : "@, Tone::Plain),
        (date_text(boot), Tone::Bright),
        ("        |\n| Active Users    : "@, Tone::Plain),
        (dec(m.user_count as nat), Tone::Cyan),
        (" "@, Tone::Plain),
        (user_label(m.user_count as nat), Tone::Dim),
    ]
}

/// The load and mode rows, and the closing border.
pub open spec fn tail_cells(m: SystemMetrics, container: bool) -> Seq<(Seq<char>, Tone)> {
    seq![
        ("                      |\n| Load Average    : "@, Tone::Plain),
        load_cell(m.load_avg.0),
        (", "@, Tone::Plain),
        load_cell(m.load_avg.1),
        (", "@, Tone::Plain),
        load_cell(m.load_avg.2),
        ("               |\n| System Mode     : "@, Tone::Plain),
        mode_cell(container),
        ("               |\n+"@, Tone::Plain),
        (border_text(), Tone::Border),
        ("+\n"@, Tone::Plain),
    ]
}

/// The dashboard's cells, in order.
pub open spec fn panel_cells(m: SystemMetrics, container: bool, now: LocalStamp, boot: LocalStamp) -> Seq<(Seq<char>, Tone)> {
    head_cells(now) + uptime_cells((m.uptime_micros / MICROS_PER_SECOND) as nat) + middle_cells(m, boot)
        + tail_cells(m, container)
}

/// The texts of cells, one after another.
pub open spec fn joined(cs: Seq<(Seq<char>, Tone)>) -> Seq<char>
    decreases cs.len(),
{
    if cs.len() == 0 {
        Seq::empty()
    } else {
        joined(cs.drop_last()) + cs.last().0
    }
}

/// The dashboard without decoration.
pub open spec fn panel_text(m: SystemMetrics, container: bool, now: LocalStamp, boot: LocalStamp) -> Seq<char> {
    joined(panel_cells(m, container, now, boot))
}

fn push_cell(cs: &mut Vec<Cell>, text: String, tone: Tone)
    ensures
        cells_view(final(cs)@) == cells_view(old(cs)@).push((text@, tone)),
{
    cs.push(Cell { text, tone });
    assert(cells_view(final(cs)@) =~= cells_view(old(cs)@).push((text@, tone)));
}

fn lit_cell(cs: &mut Vec<Cell>, text: &str, tone: Tone)
    ensures
        cells_view(final(cs)@) == cells_view(old(cs)@).push((text@, tone)),
{
    push_cell(cs, String::from_str(text), tone);
}

fn num_cell(cs: &mut Vec<Cell>, n: u64, tone: Tone)
    ensures
        cells_view(final(cs)@) == cells_view(old(cs)@).push((dec(n as nat), tone)),
{
    let mut s = String::new();
    push_dec(&mut s, n);
    assert(s@ =~= dec(n as nat));
    push_cell(cs, s, tone);
}

fn push_unit_cells(cs: &mut Vec<Cell>, show: bool, after: bool, n: u64, unit: &str, tone: Tone)
    ensures
        cells_view(final(cs)@) == cells_view(old(cs)@) + unit_cells(show, after, n as nat, unit@, tone),
{
    if show {
        if after {
            lit_cell(cs, " ", Tone::Plain);
        }
        num_cell(cs, n, tone);
        lit_cell(cs, unit, Tone::Plain);
    }
    assert(cells_view(final(cs)@) =~= cells_view(old(cs)@) + unit_cells(show, after, n as nat, unit@, tone));
}

fn push_uptime_cells(cs: &mut Vec<Cell>, secs: u64)
    ensures
        cells_view(final(cs)@) == cells_view(old(cs)@) + uptime_cells(secs as nat),
{
    let d = secs / 86400;
    let h = (secs % 86400) / 3600;
    let m = (secs % 3600) / 60;
    let s = secs % 60;
    push_unit_cells(cs, d > 0, false, d, "d", Tone::Cyan);
    push_unit_cells(cs, h > 0, d > 0, h, "h", Tone::Green);
    push_unit_cells(cs, m > 0, d > 0 || h > 0, m, "m", Tone::Yellow);
    push_unit_cells(cs, s > 0 || !(d > 0 || h > 0 || m > 0), d > 0 || h > 0 || m > 0, s, "s", Tone::Magenta);
    assert(cells_view(final(cs)@) =~= cells_view(old(cs)@) + uptime_cells(secs as nat));
}

fn push_zone(s: &mut String, off: i32)
    requires
        -86400 < off < 86400,
    ensures
        final(s)@ == old(s)@ + zone_text(off as int),
{
    if off < 0 {
        s.append("-");
    } else {
        s.append("+");
    }
    let a: u64 = if off < 0 { (0 - off) as u64 } else { off as u64 };
    let sec = a % 60;
    let min = (a / 60) % 60;
    let hour = a / 3600;
    push_padded(s, hour, 2);
    s.append(":");
    push_padded(s, min, 2);
    if sec != 0 {
        s.append(":");
        push_padded(s, sec, 2);
    }
    assert(final(s)@ =~= old(s)@ + zone_text(off as int));
}

fn load_cell_exec(cs: &mut Vec<Cell>, v: i64)
    ensures
        cells_view(final(cs)@) == cells_view(old(cs)@).push(load_cell(v)),
{
    let mut s = String::new();
    push_signed_fixed(&mut s, v, 2);
    assert(s@ =~= signed_fixed(v as int, 2));
    push_cell(cs, s, tone_of_band(load_band(v)));
}

fn border() -> (r: String)
    ensures
        r@ == border_text(),
{
    let mut s = String::new();
    let mut i: usize = 0;
    while i < 55
        invariant
            i <= 55,
            s@ =~= Seq::new(i as nat, |k: int| '='),
        decreases 55 - i,
    {
        s.append("=");
        proof {
            reveal_strlit("=");
        }
        i = i + 1;
        assert(s@ =~= Seq::new(i as nat, |k: int| '='));
    }
    s
}

fn push_head(cs: &mut Vec<Cell>, now: &LocalStamp)
    requires
        -86400 < now.offset < 86400,
    ensures
        cells_view(final(cs)@) == cells_view(old(cs)@) + head_cells(*now),
{
    lit_cell(cs, "\n+", Tone::Plain);
    push_cell(cs, border(), Tone::Border);
    lit_cell(cs, "+\n| ", Tone::Plain);
    lit_cell(cs, "*", Tone::Star);
    lit_cell(cs, "  SYSTEM UPTIME DASHBOARD  ", Tone::Plain);
    lit_cell(cs, "*", Tone::Star);
    lit_cell(cs, " |\n+", Tone::Plain);
    push_cell(cs, border(), Tone::Border);
    lit_cell(cs, "+\n| Current Time    : ", Tone::Plain);
    let mut t = String::new();
    push_clock(&mut t, now);
    t.append(" ");
    push_zone(&mut t, now.offset);
    push_cell(cs, t, Tone::Bright);
    lit_cell(cs, "               |\n| System Uptime   : ", Tone::Plain);
    assert(cells_view(final(cs)@) =~= cells_view(old(cs)@) + head_cells(*now));
}

fn push_middle(cs: &mut Vec<Cell>, m: &SystemMetrics, boot: &LocalStamp)
    ensures
        cells_view(final(cs)@) == cells_view(old(cs)@) + middle_cells(*m, *boot),
{
    lit_cell(cs, "                        |\n| Boot Time       : ", Tone::Plain);
    let mut b = String::new();
    push_date(&mut b, boot);
    push_cell(cs, b, Tone::Bright);
    lit_cell(cs, "        |\n| Active Users    : ", Tone::Plain);
    num_cell(cs, m.user_count as u64, Tone::Cyan);
    lit_cell(cs, " ", Tone::Plain);
    if m.user_count == 1 {
        lit_cell(cs, "user", Tone::Dim);
    } else {
        lit_cell(cs, "users", Tone::Dim);
    }
    assert(cells_view(final(cs)@) =~= cells_view(old(cs)@) + middle_cells(*m, *boot));
}

fn push_tail(cs: &mut Vec<Cell>, m: &SystemMetrics, container: bool)
    ensures
        cells_view(final(cs)@) == cells_view(old(cs)@) + tail_cells(*m, container),
{
    lit_cell(cs, "                      |\n| Load Average    : ", Tone::Plain);
    load_cell_exec(cs, m.load_avg.0);
    lit_cell(cs, ", ", Tone::Plain);
    load_cell_exec(cs, m.load_avg.1);
    lit_cell(cs, ", ", Tone::Plain);
    load_cell_exec(cs, m.load_avg.2);
    lit_cell(cs, "               |\n| System Mode     : ", Tone::Plain);
    if container {
        lit_cell(cs, "[CONTAINER]", Tone::Cyan);
    } else {
        lit_cell(cs, "[NATIVE]", Tone::Green);
    }
    lit_cell(cs, "               |\n+", Tone::Plain);
    push_cell(cs, border(), Tone::Border);
    lit_cell(cs, "+\n", Tone::Plain);
    assert(cells_view(final(cs)@) =~= cells_view(old(cs)@) + tail_cells(*m, container));
}

/// The dashboard's cells for a snapshot, the current local time and the local
/// time of boot.
pub fn panel(m: &SystemMetrics, container: bool, now: &LocalStamp, boot: &LocalStamp) -> (r: Vec<Cell>)
    requires
        -86400 < now.offset < 86400,
    ensures
        cells_view(r@) == panel_cells(*m, container, *now, *boot),
{
    let mut cs: Vec<Cell> = Vec::new();
    push_head(&mut cs, now);
    push_uptime_cells(&mut cs, m.uptime_micros / MICROS_PER_SECOND);
    push_middle(&mut cs, m, boot);
    push_tail(&mut cs, m, container);
    assert(cells_view(cs@) =~= panel_cells(*m, container, *now, *boot));
    cs
}

/// The texts of the cells, one after another.
pub fn join_cells(cs: &Vec<Cell>) -> (r: String)
    ensures
        r@ == joined(cells_view(cs@)),
{
    let mut s = String::new();
    let mut i: usize = 0;
    while i < cs.len()
        invariant
            i <= cs@.len(),
            s@ == joined(cells_view(cs@).subrange(0, i as int)),
        decreases cs@.len() - i,
    {
        s.append(cs[i].text.as_str());
        i = i + 1;
        proof {
            let v = cells_view(cs@).subrange(0, i as int);
            assert(v.drop_last() =~= cells_view(cs@).subrange(0, i - 1));
        }
    }
    assert(cells_view(cs@).subrange(0, cs@.len() as int) =~= cells_view(cs@));
    s
}

pub open spec fn no_escape(t: Seq<char>) -> bool {
    forall|i: int| 0 <= i < t.len() ==> t[i] != '\u{1b}'
}

/// `t` behind the terminal style sequence `ESC[<codes>m` and before the reset
/// `ESC[0m`.
pub open spec fn styled(codes: Seq<char>, t: Seq<char>) -> Seq<char> {
    "\u{1b}["@ + codes + "m"@ + t + "\u{1b}[0m"@
}

/// Style codes: digits and `;` only.
pub open spec fn code_chars(codes: Seq<char>) -> bool {
    forall|i: int| 0 <= i < codes.len() ==> ('0' <= #[trigger] codes[i] <= '9' || codes[i] == ';')
}

/// `r` shows `t`, with or without a terminal style around it.
pub open spec fn tinted(r: Seq<char>, t: Seq<char>) -> bool {
    r == t || exists|codes: Seq<char>| code_chars(codes) && r == #[trigger] styled(codes, t)
}

/// Relies on colored's `Colorize` methods and the `Display` of
/// `ColoredString`: the text comes back as it is where colors are off, else
/// behind a style sequence (`compute_style`: codes of digits joined by `;`)
/// and before the reset; a text without escape characters is not altered
/// inside.
#[verifier::external_body]
fn paint(text: &str, tone: Tone) -> (r: String)
    ensures
        no_escape(text@) ==> tinted(r@, text@),
{
    match tone {
        Tone::Plain => text.normal(),
        Tone::Border => text.bright_blue().bold(),
        Tone::Star => text.bright_yellow(),
        Tone::Bright => text.bright_white().bold(),
        Tone::Cyan => text.bright_cyan().bold(),
        Tone::Green => text.bright_green().bold(),
        Tone::Yellow => text.bright_yellow().bold(),
        Tone::Magenta => text.bright_magenta().bold(),
        Tone::Red => text.bright_red().bold(),
        Tone::Alarm => text.red().bold(),
        Tone::Dim => text.dimmed(),
    }.to_string()
}

/// All pieces, one after another.
pub open spec fn concat(ps: Seq<Seq<char>>) -> Seq<char>
    decreases ps.len(),
{
    if ps.len() == 0 {
        Seq::empty()
    } else {
        concat(ps.drop_last()) + ps.last()
    }
}

/// `r` is the cells one after another, plain cells as they are, and each
/// other cell with or without a terminal style around it.
pub open spec fn decorated(r: Seq<char>, cs: Seq<(Seq<char>, Tone)>) -> bool {
    exists|ps: Seq<Seq<char>>| #[trigger] concat(ps) == r && ps.len() == cs.len() && forall|i: int|
        0 <= i < cs.len() ==> {
            &&& (cs[i].1 == Tone::Plain ==> ps[i] == cs[i].0)
            &&& (no_escape(cs[i].0) ==> tinted(#[trigger] ps[i], cs[i].0))
        }
}

/// The cells one after another, each in its tone where the terminal takes
/// colors.
pub fn paint_cells(cs: &Vec<Cell>) -> (r: String)
    ensures
        decorated(r@, cells_view(cs@)),
{
    let mut s = String::new();
    let mut i: usize = 0;
    let ghost mut ps: Seq<Seq<char>> = Seq::empty();
    while i < cs.len()
        invariant
            i <= cs@.len(),
            ps.len() == i,
            s@ == concat(ps),
            forall|k: int|
                0 <= k < i ==> {
                    &&& (cells_view(cs@)[k].1 == Tone::Plain ==> ps[k] == cells_view(cs@)[k].0)
                    &&& (no_escape(cells_view(cs@)[k].0) ==> tinted(#[trigger] ps[k], cells_view(cs@)[k].0))
                },
        decreases cs@.len() - i,
    {
        let c = &cs[i];
        if c.tone == Tone::Plain {
            s.append(c.text.as_str());
            proof {
                let ghost old_ps = ps;
                ps = ps.push(c.text@);
                assert(ps.drop_last() =~= old_ps);
            }
        } else {
            let p = paint(c.text.as_str(), c.tone);
            s.append(p.as_str());
            proof {
                let ghost old_ps = ps;
                ps = ps.push(p@);
                assert(ps.drop_last() =~= old_ps);
            }
        }
        i = i + 1;
    }
    assert(concat(ps) == s@);
    s
}

/// The text from index `i` on with terminal style sequences taken out: an
/// escape character and everything up to and including the next `m`;
/// `skipping` tells whether `i` lies inside such a sequence.
pub open spec fn strip_from(s: Seq<char>, i: int, skipping: bool) -> Seq<char>
    decreases s.len() - i,
{
    if i < 0 || i >= s.len() {
        Seq::empty()
    } else if skipping {
        strip_from(s, i + 1, s[i] != 'm')
    } else if s[i] == '\u{1b}' {
        strip_from(s, i + 1, true)
    } else {
        seq![s[i]] + strip_from(s, i + 1, false)
    }
}

/// The text with terminal style sequences taken out.
pub open spec fn strip(s: Seq<char>) -> Seq<char> {
    strip_from(s, 0, false)
}

proof fn lemma_strip_plain(s: Seq<char>, i: int, t: Seq<char>)
    requires
        0 <= i,
        i + t.len() <= s.len(),
        s.subrange(i, i + t.len()) == t,
        no_escape(t),
    ensures
        strip_from(s, i, false) == t + strip_from(s, i + t.len(), false),
    decreases t.len(),
{
    if t.len() > 0 {
        assert(s[i] == t[0]);
        let u = t.drop_first();
        assert(s.subrange(i + 1, i + 1 + u.len()) =~= u);
        lemma_strip_plain(s, i + 1, u);
        assert(t =~= seq![t[0]] + u);
    } else {
        assert(t =~= Seq::<char>::empty());
    }
}

proof fn lemma_strip_skip(s: Seq<char>, i: int, j: int)
    requires
        0 <= i <= j < s.len(),
        s[j] == 'm',
        forall|k: int| i <= k < j ==> s[k] != 'm',
    ensures
        strip_from(s, i, true) == strip_from(s, j + 1, false),
    decreases j - i,
{
    if i < j {
        lemma_strip_skip(s, i + 1, j);
    }
}

proof fn lemma_strip_tinted(s: Seq<char>, i: int, r: Seq<char>, t: Seq<char>)
    requires
        0 <= i,
        i + r.len() <= s.len(),
        s.subrange(i, i + r.len()) == r,
        no_escape(t),
        tinted(r, t),
    ensures
        strip_from(s, i, false) == t + strip_from(s, i + r.len(), false),
{
    if r == t {
        lemma_strip_plain(s, i, t);
    } else {
        let codes = choose|codes: Seq<char>| code_chars(codes) && r == #[trigger] styled(codes, t);
        reveal_strlit("\u{1b}[");
        reveal_strlit("m");
        reveal_strlit("\u{1b}[0m");
        let n = codes.len() as int;
        assert(r =~= seq!['\u{1b}', '['] + codes + seq!['m'] + t + seq!['\u{1b}', '[', '0', 'm']);
        assert forall|k: int| 0 <= k < r.len() implies s[i + k] == r[k] by {
            assert(s.subrange(i, i + r.len())[k] == s[i + k]);
        }
        assert(s[i + 0] == r[0]);
        assert(r[0] == '\u{1b}');
        let j = i + 2 + n;
        assert(s[j] == r[2 + n]);
        assert forall|k: int| i + 1 <= k < j implies s[k] != 'm' by {
            assert(s[k] == r[k - i]);
            if k > i + 1 {
                assert(r[k - i] == codes[k - i - 2]);
            }
        }
        lemma_strip_skip(s, i + 1, j);
        let ts = j + 1;
        assert(s.subrange(ts, ts + t.len()) =~= t) by {
            assert forall|k: int| 0 <= k < t.len() implies s.subrange(ts, ts + t.len())[k] == t[k] by {
                assert(s[ts + k] == r[3 + n + k]);
            }
        }
        lemma_strip_plain(s, ts, t);
        let e = ts + t.len();
        assert(s[e] == r[3 + n + t.len()]);
        assert(s[e + 1] == r[4 + n + t.len()]);
        assert(s[e + 2] == r[5 + n + t.len()]);
        assert(s[e + 3] == r[6 + n + t.len()]);
        lemma_strip_skip(s, e + 1, e + 3);
        assert(e + 4 == i + r.len());
    }
}

proof fn lemma_strip_pieces(s: Seq<char>, i: int, ps: Seq<Seq<char>>, cs: Seq<(Seq<char>, Tone)>)
    requires
        0 <= i,
        i + concat(ps).len() <= s.len(),
        s.subrange(i, i + concat(ps).len()) == concat(ps),
        ps.len() == cs.len(),
        forall|k: int| 0 <= k < cs.len() ==> no_escape(#[trigger] cs[k].0) && tinted(ps[k], cs[k].0),
    ensures
        strip_from(s, i, false) == joined(cs) + strip_from(s, i + concat(ps).len(), false),
    decreases ps.len(),
{
    if ps.len() == 0 {
        assert(joined(cs) =~= Seq::<char>::empty());
    } else {
        let front = ps.drop_last();
        let fc = cs.drop_last();
        let l = front.len() as int;
        assert(concat(ps) == concat(front) + ps.last());
        assert(s.subrange(i, i + concat(front).len()) =~= concat(front)) by {
            assert forall|k: int| 0 <= k < concat(front).len() implies s.subrange(i, i + concat(front).len())[k]
                == concat(front)[k] by {
                assert(s.subrange(i, i + concat(ps).len())[k] == s[i + k]);
            }
        }
        assert forall|k: int| 0 <= k < fc.len() implies no_escape(#[trigger] fc[k].0) && tinted(front[k], fc[k].0) by {
            assert(fc[k] == cs[k]);
            assert(front[k] == ps[k]);
        }
        lemma_strip_pieces(s, i, front, fc);
        let j = i + concat(front).len();
        assert(s.subrange(j, j + ps.last().len()) =~= ps.last()) by {
            assert forall|k: int| 0 <= k < ps.last().len() implies s.subrange(j, j + ps.last().len())[k]
                == ps.last()[k] by {
                assert(s.subrange(i, i + concat(ps).len())[concat(front).len() + k] == s[j + k]);
            }
        }
        assert(no_escape(cs[l].0) && tinted(ps[l], cs[l].0));
        lemma_strip_tinted(s, j, ps.last(), cs.last().0);
        assert(joined(cs) == joined(fc) + cs.last().0);
    }
}

/// Taking the style sequences out of a decorated text of cells gives back
/// the cells' plain text, where no cell holds an escape character.
pub proof fn lemma_strip_decorated(r: Seq<char>, cs: Seq<(Seq<char>, Tone)>)
    requires
        decorated(r, cs),
        forall|k: int| 0 <= k < cs.len() ==> no_escape(#[trigger] cs[k].0),
    ensures
        strip(r) == joined(cs),
{
    let ps = choose|ps: Seq<Seq<char>>| #[trigger] concat(ps) == r && ps.len() == cs.len() && forall|i: int|
        0 <= i < cs.len() ==> {
            &&& (cs[i].1 == Tone::Plain ==> ps[i] == cs[i].0)
            &&& (no_escape(cs[i].0) ==> tinted(#[trigger] ps[i], cs[i].0))
        };
    assert forall|k: int| 0 <= k < cs.len() implies no_escape(#[trigger] cs[k].0) && tinted(ps[k], cs[k].0) by {
        assert(no_escape(cs[k].0));
    }
    assert(r.subrange(0, r.len() as int) =~= r);
    lemma_strip_pieces(r, 0, ps, cs);
    assert(strip_from(r, r.len() as int, false) =~= Seq::<char>::empty());
}

proof fn lemma_no_escape_concat(a: Seq<char>, b: Seq<char>)
    requires
        no_escape(a),
        no_escape(b),
    ensures
        no_escape(a + b),
{
    assert forall|i: int| 0 <= i < (a + b).len() implies (a + b)[i] != '\u{1b}' by {
        if i >= a.len() {
            assert((a + b)[i] == b[i - a.len()]);
        }
    }
}

proof fn lemma_dec_no_escape(n: nat)
    ensures
        no_escape(dec(n)),
        no_escape(padded(n, 2)),
        no_escape(padded(n, 4)),
        no_escape(padded(n, 6)),
    decreases n,
{
    lemma_padded_no_escape(n, 2);
    lemma_padded_no_escape(n, 4);
    lemma_padded_no_escape(n, 6);
    if n >= 10 {
        lemma_dec_no_escape(n / 10);
        assert(digit_char(n % 10) != '\u{1b}');
        lemma_no_escape_concat(dec(n / 10), seq![digit_char(n % 10)]);
        assert(dec(n) == dec(n / 10) + seq![digit_char(n % 10)]);
    }
}

proof fn lemma_padded_no_escape(n: nat, w: nat)
    ensures
        no_escape(padded(n, w)),
    decreases w,
{
    if w > 0 {
        lemma_padded_no_escape(n / 10, (w - 1) as nat);
        lemma_no_escape_concat(padded(n / 10, (w - 1) as nat), seq![digit_char(n % 10)]);
        assert(padded(n, w) == padded(n / 10, (w - 1) as nat) + seq![digit_char(n % 10)]);
    }
}

proof fn lemma_signed_fixed_no_escape(v: int)
    ensures
        no_escape(signed_fixed(v, 2)),
{
    let a = if v < 0 { -v } else { v };
    let big = 100nat;
    assert(crate::numerals::pow10(2) == 100) by {
        reveal_with_fuel(crate::numerals::pow10, 3);
    }
    lemma_dec_no_escape(a as nat / big);
    lemma_padded_no_escape(a as nat % big, 2);
    lemma_no_escape_concat(dec(a as nat / big), seq!['.']);
    lemma_no_escape_concat(dec(a as nat / big) + seq!['.'], padded(a as nat % big, 2));
    assert(no_escape(fixed(a as nat, 2)));
    lemma_no_escape_concat(seq!['-'], fixed(a as nat, 2));
}

proof fn lemma_stamp_no_escape(t: LocalStamp)
    ensures
        no_escape(clock_text(t)),
        no_escape(date_text(t)),
        no_escape(clock_text(t) + " "@ + zone_text(t.offset as int)),
{
    reveal_strlit(":");
    reveal_strlit("-");
    reveal_strlit("+");
    reveal_strlit(" ");
    lemma_dec_no_escape(t.hour as nat);
    lemma_dec_no_escape(t.minute as nat);
    lemma_dec_no_escape(t.second as nat);
    lemma_dec_no_escape(t.month as nat);
    lemma_dec_no_escape(t.day as nat);
    let y = t.year as int;
    let ay = if y < 0 { -y } else { y };
    lemma_dec_no_escape(ay as nat);
    lemma_no_escape_concat("+"@, dec(ay as nat));
    lemma_no_escape_concat("-"@, dec(ay as nat));
    lemma_no_escape_concat("-"@, padded(ay as nat, 4));
    assert(no_escape(year_text(y)));
    let c = ":"@;
    lemma_no_escape_concat(padded(t.hour as nat, 2), c);
    lemma_no_escape_concat(padded(t.hour as nat, 2) + c, padded(t.minute as nat, 2));
    lemma_no_escape_concat(padded(t.hour as nat, 2) + c + padded(t.minute as nat, 2), c);
    lemma_no_escape_concat(padded(t.hour as nat, 2) + c + padded(t.minute as nat, 2) + c, padded(t.second as nat, 2));
    let d = "-"@;
    lemma_no_escape_concat(year_text(y), d);
    lemma_no_escape_concat(year_text(y) + d, padded(t.month as nat, 2));
    lemma_no_escape_concat(year_text(y) + d + padded(t.month as nat, 2), d);
    lemma_no_escape_concat(year_text(y) + d + padded(t.month as nat, 2) + d, padded(t.day as nat, 2));
    lemma_no_escape_concat(year_text(y) + d + padded(t.month as nat, 2) + d + padded(t.day as nat, 2), " "@);
    lemma_no_escape_concat(year_text(y) + d + padded(t.month as nat, 2) + d + padded(t.day as nat, 2) + " "@, clock_text(t));
    let off = t.offset as int;
    let a = if off < 0 { -off } else { off };
    let sign = if off < 0 { "-"@ } else { "+"@ };
    lemma_dec_no_escape((a / 3600) as nat);
    lemma_dec_no_escape(((a / 60) % 60) as nat);
    lemma_dec_no_escape((a % 60) as nat);
    let hh = padded((a / 3600) as nat, 2);
    let mm = padded(((a / 60) % 60) as nat, 2);
    let ss = padded((a % 60) as nat, 2);
    lemma_no_escape_concat(sign, hh);
    lemma_no_escape_concat(sign + hh, c);
    lemma_no_escape_concat(sign + hh + c, mm);
    lemma_no_escape_concat(sign + hh + c + mm, c);
    lemma_no_escape_concat(sign + hh + c + mm + c, ss);
    assert(no_escape(zone_text(off)));
    lemma_no_escape_concat(clock_text(t), " "@);
    lemma_no_escape_concat(clock_text(t) + " "@, zone_text(off));
}

proof fn lemma_units_no_escape(show: bool, after: bool, n: nat, unit: Seq<char>, tone: Tone)
    requires
        no_escape(unit),
    ensures
        forall|k: int| 0 <= k < unit_cells(show, after, n, unit, tone).len() ==> no_escape(
            #[trigger] unit_cells(show, after, n, unit, tone)[k].0,
        ),
{
    reveal_strlit(" ");
    lemma_dec_no_escape(n);
}

/// No cell of the dashboard holds an escape character.
pub proof fn lemma_panel_no_escape(m: SystemMetrics, container: bool, now: LocalStamp, boot: LocalStamp)
    ensures
        forall|k: int| 0 <= k < panel_cells(m, container, now, boot).len() ==> no_escape(
            #[trigger] panel_cells(m, container, now, boot)[k].0,
        ),
{
    reveal_strlit("\n+");
    reveal_strlit("+\n| ");
    reveal_strlit("*");
    reveal_strlit("  SYSTEM UPTIME DASHBOARD  ");
    reveal_strlit(" |\n+");
    reveal_strlit("+\n| Current Time    : ");
    reveal_strlit("               |\n| System Uptime   : ");
    reveal_strlit("                        |\n| Boot Time       : ");
    reveal_strlit("        |\n| Active Users    : ");
    reveal_strlit(" ");
    reveal_strlit("user");
    reveal_strlit("users");
    reveal_strlit("                      |\n| Load Average    : ");
    reveal_strlit(", ");
    reveal_strlit("               |\n| System Mode     : ");
    reveal_strlit("[CONTAINER]");
    reveal_strlit("[NATIVE]");
    reveal_strlit("               |\n+");
    reveal_strlit("+\n");
    reveal_strlit("d");
    reveal_strlit("h");
    reveal_strlit("m");
    reveal_strlit("s");
    lemma_stamp_no_escape(now);
    lemma_stamp_no_escape(boot);
    lemma_dec_no_escape(m.user_count as nat);
    lemma_signed_fixed_no_escape(m.load_avg.0 as int);
    lemma_signed_fixed_no_escape(m.load_avg.1 as int);
    lemma_signed_fixed_no_escape(m.load_avg.2 as int);
    let secs = (m.uptime_micros / MICROS_PER_SECOND) as nat;
    let d = secs / 86400;
    let h = (secs % 86400) / 3600;
    let mi = (secs % 3600) / 60;
    let sc = secs % 60;
    lemma_units_no_escape(d > 0, false, d, "d"@, Tone::Cyan);
    lemma_units_no_escape(h > 0, d > 0, h, "h"@, Tone::Green);
    lemma_units_no_escape(mi > 0, d > 0 || h > 0, mi, "m"@, Tone::Yellow);
    lemma_units_no_escape(sc > 0 || !(d > 0 || h > 0 || mi > 0), d > 0 || h > 0 || mi > 0, sc, "s"@, Tone::Magenta);
    let head = head_cells(now);
    let up = uptime_cells(secs);
    let mid = middle_cells(m, boot);
    let tail = tail_cells(m, container);
    assert forall|k: int| 0 <= k < head.len() implies no_escape(#[trigger] head[k].0) by {}
    assert forall|k: int| 0 <= k < mid.len() implies no_escape(#[trigger] mid[k].0) by {}
    assert forall|k: int| 0 <= k < tail.len() implies no_escape(#[trigger] tail[k].0) by {}
    let all = panel_cells(m, container, now, boot);
    assert(all == head + up + mid + tail);
    assert forall|k: int| 0 <= k < all.len() implies no_escape(#[trigger] all[k].0) by {
        if k < head.len() {
            assert(all[k] == head[k]);
        } else if k < head.len() + up.len() {
            assert(all[k] == up[k - head.len()]);
        } else if k < head.len() + up.len() + mid.len() {
            assert(all[k] == mid[k - head.len() - up.len()]);
        } else {
            assert(all[k] == tail[k - head.len() - up.len() - mid.len()]);
        }
    }
}

} // verus!
