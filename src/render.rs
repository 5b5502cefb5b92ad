//! Turning a metrics snapshot into text, in each display style.

use vstd::prelude::*;
use crate::clock::{local_now, local_stamp_of, reads_as, stamp_ok, LocalStamp};
use crate::panel::{
    decorated, join_cells, lemma_panel_no_escape, lemma_strip_decorated, paint_cells, panel, panel_cells,
    panel_text, strip,
};
use crate::numerals::{
    dec, fixed, padded, push_dec, push_fixed, push_padded, push_signed_fixed, signed_fixed,
};
use crate::system_metrics::{same_metrics, SystemMetrics, MICROS_PER_SECOND};

verus! {

/// The display styles.
#[derive(Debug, Clone, Copy, PartialEq, Eq, Structural)]
pub enum OutputFormat {
    /// Time, uptime, users and load averages on one line.
    Standard,
    /// A sentence of hours and minutes.
    Pretty,
    /// Numbers only, separated by spaces.
    Raw,
    /// The boot timestamp.
    Since,
    /// A bordered dashboard.
    Interactive,
}

/// `s` unless the count is exactly one.
pub open spec fn plural(n: nat) -> Seq<char> {
    if n != 1 { "s"@ } else { ""@ }
}

pub open spec fn whole_seconds(m: SystemMetrics) -> nat {
    (m.uptime_micros / MICROS_PER_SECOND) as nat
}

/// `boot_time uptime idle load1 load5 load15`: uptime with six decimals, idle
/// time in whole seconds, loads with two decimals.
pub open spec fn raw_text(m: SystemMetrics) -> Seq<char> {
    dec(m.boot_time as nat) + " "@ + fixed(m.uptime_micros as nat, 6) + " "@ + dec(
        (m.idle_micros / MICROS_PER_SECOND) as nat,
    ) + " "@ + signed_fixed(m.load_avg.0 as int, 2) + " "@ + signed_fixed(m.load_avg.1 as int, 2)
        + " "@ + signed_fixed(m.load_avg.2 as int, 2)
}

/// `up H hour(s), M minute(s)`, leaving out a zero minute count, and
/// `up less than a minute` under a minute.
pub open spec fn pretty_text(secs: nat) -> Seq<char> {
    let h = secs / 3600;
    let mm = (secs % 3600) / 60;
    if h >= 1 {
        if mm > 0 {
            "up "@ + dec(h) + " hour"@ + plural(h) + ", "@ + dec(mm) + " minute"@ + plural(mm)
        } else {
            "up "@ + dec(h) + " hour"@ + plural(h)
        }
    } else if mm > 0 {
        "up "@ + dec(mm) + " minute"@ + plural(mm)
    } else {
        "up less than a minute"@
    }
}

/// The year as four digits when it has at most four, else with its sign.
pub open spec fn year_text(y: int) -> Seq<char> {
    if 0 <= y <= 9999 {
        padded(y as nat, 4)
    } else if y > 9999 {
        "+"@ + dec(y as nat)
    } else if y > -10000 {
        "-"@ + padded((-y) as nat, 4)
    } else {
        "-"@ + dec((-y) as nat)
    }
}

/// `HH:MM:SS`.
pub open spec fn clock_text(t: LocalStamp) -> Seq<char> {
    padded(t.hour as nat, 2) + ":"@ + padded(t.minute as nat, 2) + ":"@ + padded(t.second as nat, 2)
}

/// `YYYY-MM-DD HH:MM:SS`.
pub open spec fn date_text(t: LocalStamp) -> Seq<char> {
    year_text(t.year as int) + "-"@ + padded(t.month as nat, 2) + "-"@ + padded(t.day as nat, 2)
        + " "@ + clock_text(t)
}

/// The uptime of the standard line: `D:HH` or `D day(s)` from a day on,
/// `H:MM` from an hour on, else `M min`.
pub open spec fn uptime_field(secs: nat) -> Seq<char> {
    let days = secs / 86400;
    let hours = (secs % 86400) / 3600;
    let minutes = (secs % 3600) / 60;
    if days > 0 {
        if hours > 0 {
            dec(days) + ":"@ + padded(hours, 2)
        } else {
            dec(days) + " day"@ + plural(days)
        }
    } else if hours > 0 {
        dec(hours) + ":"@ + padded(minutes, 2)
    } else {
        dec(minutes) + " min"@
    }
}

pub open spec fn user_label(n: nat) -> Seq<char> {
    if n == 1 { "user"@ } else { "users"@ }
}

pub open spec fn loads_text(m: SystemMetrics) -> Seq<char> {
    signed_fixed(m.load_avg.0 as int, 2) + ", "@ + signed_fixed(m.load_avg.1 as int, 2) + ", "@
        + signed_fixed(m.load_avg.2 as int, 2)
}

/// ` HH:MM:SS up <uptime>[ (container)], N user(s), load average: L1, L5, L15`.
pub open spec fn standard_text(m: SystemMetrics, container: bool, now: LocalStamp) -> Seq<char> {
    " "@ + clock_text(now) + " up "@ + uptime_field(whole_seconds(m)) + (if container {
        " (container)"@
    } else {
        ""@
    }) + ", "@ + dec(m.user_count as nat) + " "@ + user_label(m.user_count as nat)
        + ", load average: "@ + loads_text(m)
}

fn push_plural(s: &mut String, n: u64)
    ensures
        final(s)@ == old(s)@ + plural(n as nat),
{
    if n != 1 {
        s.append("s");
    } else {
        s.append("");
    }
}

/// Appends the loads as `L1, L5, L15`.
fn push_loads(s: &mut String, m: &SystemMetrics)
    ensures
        final(s)@ == old(s)@ + loads_text(*m),
{
    push_signed_fixed(s, m.load_avg.0, 2);
    s.append(", ");
    push_signed_fixed(s, m.load_avg.1, 2);
    s.append(", ");
    push_signed_fixed(s, m.load_avg.2, 2);
    assert(final(s)@ =~= old(s)@ + loads_text(*m));
}

pub fn raw_line(m: &SystemMetrics) -> (r: String)
    ensures
        r@ == raw_text(*m),
{
    let mut s = String::new();
    push_dec(&mut s, m.boot_time);
    s.append(" ");
    push_fixed(&mut s, m.uptime_micros, 6);
    s.append(" ");
    push_dec(&mut s, m.idle_micros / MICROS_PER_SECOND);
    s.append(" ");
    push_signed_fixed(&mut s, m.load_avg.0, 2);
    s.append(" ");
    push_signed_fixed(&mut s, m.load_avg.1, 2);
    s.append(" ");
    push_signed_fixed(&mut s, m.load_avg.2, 2);
    assert(s@ =~= raw_text(*m));
    s
}

pub fn pretty_line(m: &SystemMetrics) -> (r: String)
    ensures
        r@ == pretty_text(whole_seconds(*m)),
{
    let secs = m.uptime_micros / MICROS_PER_SECOND;
    let h = secs / 3600;
    let mm = (secs % 3600) / 60;
    let mut s = String::new();
    if h >= 1 {
        s.append("up ");
        push_dec(&mut s, h);
        s.append(" hour");
        push_plural(&mut s, h);
        if mm > 0 {
            s.append(", ");
            push_dec(&mut s, mm);
            s.append(" minute");
            push_plural(&mut s, mm);
        }
    } else if mm > 0 {
        s.append("up ");
        push_dec(&mut s, mm);
        s.append(" minute");
        push_plural(&mut s, mm);
    } else {
        s.append("up less than a minute");
    }
    assert(s@ =~= pretty_text(whole_seconds(*m)));
    s
}

fn push_year(s: &mut String, y: i32)
    ensures
        final(s)@ == old(s)@ + year_text(y as int),
{
    if 0 <= y && y <= 9999 {
        push_padded(s, y as u64, 4);
    } else if y > 9999 {
        s.append("+");
        push_dec(s, y as u64);
    } else {
        s.append("-");
        let a: u64 = (0i64 - (y as i64)) as u64;
        if y > -10000 {
            push_padded(s, a, 4);
        } else {
            push_dec(s, a);
        }
    }
    assert(final(s)@ =~= old(s)@ + year_text(y as int));
}

/// Appends `HH:MM:SS`.
pub fn push_clock(s: &mut String, t: &LocalStamp)
    ensures
        final(s)@ == old(s)@ + clock_text(*t),
{
    push_padded(s, t.hour as u64, 2);
    s.append(":");
    push_padded(s, t.minute as u64, 2);
    s.append(":");
    push_padded(s, t.second as u64, 2);
    assert(final(s)@ =~= old(s)@ + clock_text(*t));
}

/// Appends `YYYY-MM-DD HH:MM:SS`.
pub fn push_date(s: &mut String, t: &LocalStamp)
    ensures
        final(s)@ == old(s)@ + date_text(*t),
{
    push_year(s, t.year);
    s.append("-");
    push_padded(s, t.month as u64, 2);
    s.append("-");
    push_padded(s, t.day as u64, 2);
    s.append(" ");
    push_clock(s, t);
    assert(final(s)@ =~= old(s)@ + date_text(*t));
}

pub fn since_line(boot: &LocalStamp) -> (r: String)
    ensures
        r@ == date_text(*boot),
{
    let mut s = String::new();
    push_date(&mut s, boot);
    assert(s@ =~= date_text(*boot));
    s
}

fn push_uptime_field(s: &mut String, secs: u64)
    ensures
        final(s)@ == old(s)@ + uptime_field(secs as nat),
{
    let days = secs / 86400;
    let hours = (secs % 86400) / 3600;
    let minutes = (secs % 3600) / 60;
    if days > 0 {
        push_dec(s, days);
        if hours > 0 {
            s.append(":");
            push_padded(s, hours, 2);
        } else {
            s.append(" day");
            push_plural(s, days);
        }
    } else if hours > 0 {
        push_dec(s, hours);
        s.append(":");
        push_padded(s, minutes, 2);
    } else {
        push_dec(s, minutes);
        s.append(" min");
    }
    assert(final(s)@ =~= old(s)@ + uptime_field(secs as nat));
}

pub fn standard_line(m: &SystemMetrics, container: bool, now: &LocalStamp) -> (r: String)
    ensures
        r@ == standard_text(*m, container, *now),
{
    let mut s = String::new();
    s.append(" ");
    push_clock(&mut s, now);
    s.append(" up ");
    push_uptime_field(&mut s, m.uptime_micros / MICROS_PER_SECOND);
    if container {
        s.append(" (container)");
    } else {
        s.append("");
    }
    s.append(", ");
    push_dec(&mut s, m.user_count as u64);
    s.append(" ");
    if m.user_count == 1 {
        s.append("user");
    } else {
        s.append("users");
    }
    s.append(", load average: ");
    push_loads(&mut s, m);
    assert(s@ =~= standard_text(*m, container, *now));
    s
}

/// The pretty style never shows a zero minute count: with no whole minute
/// past the hour the text is the hours alone, or `up less than a minute`;
/// otherwise it ends with the minute count, which is at least one.
pub proof fn lemma_pretty_no_zero_minutes(secs: nat)
    ensures
        (secs % 3600) / 60 == 0 ==> pretty_text(secs) == "up less than a minute"@ || pretty_text(secs)
            == "up "@ + dec(secs / 3600) + " hour"@ + plural(secs / 3600),
        (secs % 3600) / 60 > 0 ==> exists|pre: Seq<char>|
            pretty_text(secs) == #[trigger] (pre + dec((secs % 3600) / 60)) + " minute"@ + plural(
                (secs % 3600) / 60,
            ),
{
    let h = secs / 3600;
    let mm = (secs % 3600) / 60;
    if mm > 0 {
        if h >= 1 {
            let pre = "up "@ + dec(h) + " hour"@ + plural(h) + ", "@;
            assert(pretty_text(secs) =~= (pre + dec(mm)) + " minute"@ + plural(mm));
        } else {
            let pre = "up "@;
            assert(pretty_text(secs) =~= (pre + dec(mm)) + " minute"@ + plural(mm));
        }
    }
}

pub open spec fn lacks(s: Seq<char>, c: char) -> bool {
    forall|i: int| 0 <= i < s.len() ==> s[i] != c
}

/// Whether `w` occurs in `s` at index `p`.
pub open spec fn occurs_at(s: Seq<char>, p: int, w: Seq<char>) -> bool {
    0 <= p && p + w.len() <= s.len() && s.subrange(p, p + w.len()) == w
}

proof fn lemma_lacks_concat(a: Seq<char>, b: Seq<char>, c: char)
    requires
        lacks(a, c),
        lacks(b, c),
    ensures
        lacks(a + b, c),
{
    assert forall|i: int| 0 <= i < (a + b).len() implies (a + b)[i] != c by {
        if i >= a.len() {
            assert((a + b)[i] == b[i - a.len()]);
        }
    }
}

proof fn lemma_dec_shape(n: nat)
    ensures
        lacks(dec(n), ','),
        dec(n).len() > 0,
        n >= 1 ==> dec(n)[0] != '0',
    decreases n,
{
    if n >= 10 {
        lemma_dec_shape(n / 10);
        lemma_lacks_concat(dec(n / 10), seq![crate::numerals::digit_char(n % 10)], ',');
        assert(dec(n) == dec(n / 10) + seq![crate::numerals::digit_char(n % 10)]);
        assert(dec(n)[0] == dec(n / 10)[0]);
    }
}

/// The pretty style has no clause with a zero count: it never starts with
/// `up 0 `, and never holds `, 0 minute`.
pub proof fn lemma_pretty_no_zero_clause(secs: nat)
    ensures
        !occurs_at(pretty_text(secs), 0, "up 0 "@),
        forall|p: int| !occurs_at(pretty_text(secs), p, ", 0 minute"@),
{
    reveal_strlit("up ");
    reveal_strlit(" hour");
    reveal_strlit(", ");
    reveal_strlit(" minute");
    reveal_strlit("s");
    reveal_strlit("");
    reveal_strlit("up less than a minute");
    reveal_strlit("up 0 ");
    reveal_strlit(", 0 minute");
    let h = secs / 3600;
    let mm = (secs % 3600) / 60;
    let t = pretty_text(secs);
    lemma_dec_shape(h);
    lemma_dec_shape(mm);
    let zero = "up 0 "@;
    if occurs_at(t, 0, zero) {
        assert(t.subrange(0, 5)[3] == t[3]);
        if h >= 1 {
            assert(t[3] == dec(h)[0]);
        } else if mm > 0 {
            assert(t[3] == dec(mm)[0]);
        }
    }
    let w = ", 0 minute"@;
    let minutes = dec(mm) + " minute"@ + plural(mm);
    assert(lacks(plural(h), ',') && lacks(plural(mm), ','));
    lemma_lacks_concat(dec(mm), " minute"@, ',');
    lemma_lacks_concat(dec(mm) + " minute"@, plural(mm), ',');
    let hours = "up "@ + dec(h) + " hour"@ + plural(h);
    lemma_lacks_concat("up "@, dec(h), ',');
    lemma_lacks_concat("up "@ + dec(h), " hour"@, ',');
    lemma_lacks_concat("up "@ + dec(h) + " hour"@, plural(h), ',');
    let short = "up "@ + minutes;
    lemma_lacks_concat("up "@, minutes, ',');
    assert(lacks("up less than a minute"@, ','));
    assert forall|p: int| !occurs_at(t, p, w) by {
        if occurs_at(t, p, w) {
            assert(t.subrange(p, p + 10)[0] == t[p]);
            assert(t.subrange(p, p + 10)[2] == t[p + 2]);
            if h >= 1 && mm > 0 {
                assert(t == hours + ", "@ + minutes);
                let c = hours.len() as int;
                if p < c {
                    assert(t[p] == hours[p]);
                } else if p > c + 1 {
                    assert(t[p] == minutes[p - c - 2]);
                } else if p == c + 1 {
                    assert(t[p] == ' ');
                } else {
                    assert(t[p + 2] == minutes[0]);
                    assert(minutes[0] == dec(mm)[0]);
                }
            } else if h >= 1 {
                assert(t == hours);
            } else if mm > 0 {
                assert(t == short);
            }
        }
    }
}

/// Rendering depends on nothing but the configuration, the snapshot and the
/// two local times: the same inputs give the same text, character for
/// character.
pub proof fn lemma_render_repeatable(
    args: RuntimeArgs,
    m: SystemMetrics,
    now: LocalStamp,
    boot: LocalStamp,
    first: Seq<char>,
    second: Seq<char>,
)
    requires
        first == render_text(args, m, now, boot),
        second == render_text(args, m, now, boot),
    ensures
        first == second,
{
}

impl Default for OutputFormat {
    fn default() -> (r: OutputFormat)
        ensures
            r == OutputFormat::Interactive,
    {
        OutputFormat::Interactive
    }
}

/// The display configuration.
#[derive(Debug, Clone, Copy, PartialEq, Eq, Structural)]
pub struct RuntimeArgs {
    pub format: OutputFormat,
    /// Mark the output as coming from inside a container.
    pub show_container: bool,
    /// Show the program version instead of metrics.
    pub show_version: bool,
}

impl Default for RuntimeArgs {
    fn default() -> (r: RuntimeArgs)
        ensures
            r == (RuntimeArgs { format: OutputFormat::Interactive, show_container: false, show_version: false }),
    {
        RuntimeArgs { format: OutputFormat::Interactive, show_container: false, show_version: false }
    }
}

/// The display style that command-line flags select: since, raw, pretty and
/// standard win in that order; otherwise the dashboard.
pub fn format_from_flags(since: bool, raw: bool, pretty: bool, standard: bool) -> (r: OutputFormat)
    ensures
        r == (if since {
            OutputFormat::Since
        } else if raw {
            OutputFormat::Raw
        } else if pretty {
            OutputFormat::Pretty
        } else if standard {
            OutputFormat::Standard
        } else {
            OutputFormat::Interactive
        }),
{
    if since {
        OutputFormat::Since
    } else if raw {
        OutputFormat::Raw
    } else if pretty {
        OutputFormat::Pretty
    } else if standard {
        OutputFormat::Standard
    } else {
        OutputFormat::Interactive
    }
}

/// The text of a snapshot in the configured style, without decoration, given
/// the current local time and the local time of boot.
pub open spec fn render_text(args: RuntimeArgs, m: SystemMetrics, now: LocalStamp, boot: LocalStamp) -> Seq<char> {
    match args.format {
        OutputFormat::Raw => raw_text(m),
        OutputFormat::Pretty => pretty_text(whole_seconds(m)),
        OutputFormat::Since => date_text(boot),
        OutputFormat::Standard => standard_text(m, args.show_container, now),
        OutputFormat::Interactive => panel_text(m, args.show_container, now, boot),
    }
}

/// A snapshot with its display configuration.
pub struct Runtime {
    pub args: RuntimeArgs,
    pub system: SystemMetrics,
}

/// `r` is what the runtime shows at local time `now` for a boot at local time
/// `boot`, which reads as the snapshot's boot time: the dashboard possibly
/// decorated, and exactly its plain text once the style sequences are taken
/// out; every other style exactly.
pub open spec fn shown(r: Seq<char>, rt: Runtime, now: LocalStamp, boot: LocalStamp) -> bool {
    &&& stamp_ok(now)
    &&& stamp_ok(boot)
    &&& reads_as(boot, rt.system.boot_time)
    &&& if rt.args.format == OutputFormat::Interactive {
        &&& decorated(r, panel_cells(rt.system, rt.args.show_container, now, boot))
        &&& strip(r) == panel_text(rt.system, rt.args.show_container, now, boot)
    } else {
        r == render_text(rt.args, rt.system, now, boot)
    }
}

impl Runtime {
    pub fn new(args: RuntimeArgs, system: SystemMetrics) -> (r: Runtime)
        ensures
            r.args == args,
            r.system == system,
    {
        Runtime { args, system }
    }

    /// Replaces the snapshot with a newer one; the configuration stays.
    pub fn refresh(&mut self, system: SystemMetrics)
        ensures
            final(self).system == system,
            final(self).args == old(self).args,
    {
        self.system = system;
    }

    /// The text in the configured style, without decoration.
    pub fn render(&self, now: &LocalStamp, boot: &LocalStamp) -> (r: String)
        requires
            stamp_ok(*now),
        ensures
            r@ == render_text(self.args, self.system, *now, *boot),
    {
        match self.args.format {
            OutputFormat::Raw => raw_line(&self.system),
            OutputFormat::Pretty => pretty_line(&self.system),
            OutputFormat::Since => since_line(boot),
            OutputFormat::Standard => standard_line(&self.system, self.args.show_container, now),
            OutputFormat::Interactive => {
                let cells = panel(&self.system, self.args.show_container, now, boot);
                join_cells(&cells)
            },
        }
    }

    /// The text in the configured style at the current local time, the
    /// dashboard in color where the terminal takes it.
    pub fn to_string(&self) -> (r: String)
        ensures
            exists|now: LocalStamp, boot: LocalStamp| #[trigger] shown(r@, *self, now, boot),
    {
        let now = local_now();
        let boot = local_stamp_of(self.system.boot_time);
        let r = match self.args.format {
            OutputFormat::Interactive => {
                let cells = panel(&self.system, self.args.show_container, &now, &boot);
                let painted = paint_cells(&cells);
                proof {
                    lemma_panel_no_escape(self.system, self.args.show_container, now, boot);
                    lemma_strip_decorated(painted@, crate::panel::cells_view(cells@));
                }
                painted
            },
            _ => self.render(&now, &boot),
        };
        assert(shown(r@, *self, now, boot));
        r
    }
}

impl PartialEq for Runtime {
    /// Equal snapshots shown in the same style, with the same container mark.
    fn eq(&self, other: &Runtime) -> (r: bool) {
        same_metrics(&self.system, &other.system) && self.args.format == other.args.format
            && self.args.show_container == other.args.show_container
    }
}

impl vstd::std_specs::cmp::PartialEqSpecImpl for Runtime {
    open spec fn obeys_eq_spec() -> bool {
        true
    }

    open spec fn eq_spec(&self, other: &Runtime) -> bool {
        self.system == other.system && self.args.format == other.args.format
            && self.args.show_container == other.args.show_container
    }
}

} // verus!
