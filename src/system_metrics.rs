//! A snapshot of uptime, idle time, load averages, user count and boot time,
//! derived from the kernel's text sources.

use vstd::prelude::*;
use crate::scan::{decimal_val, field_of, find_field, lemma_field_before, parse_decimal, WIDE_CAP};
use crate::users::{count_users, user_total, UserSources};

verus! {

/// What one collection read: the uptime and load-average texts (`None` where
/// the read failed), the user sources, and the wall clock in UNIX seconds.
pub struct Readings {
    pub uptime: Option<Vec<u8>>,
    pub loadavg: Option<Vec<u8>>,
    pub users: UserSources,
    pub now: u64,
}

/// System metrics at one instant. Times are counted in microseconds, load
/// averages in hundredths.
#[derive(Debug, Clone, Copy, PartialEq, Eq)]
pub struct SystemMetrics {
    pub uptime_micros: u64,
    pub idle_micros: u64,
    pub load_avg: (i64, i64, i64),
    pub user_count: usize,
    pub boot_time: u64,
}

pub const MICROS_PER_SECOND: u64 = 1_000_000;

/// Field `n` of a text read as a decimal of `places` places; zero where it does
/// not read as one, or where its value lies outside `lo ..= hi`.
pub open spec fn decimal_field(s: Seq<u8>, n: nat, places: nat, lo: int, hi: int) -> int {
    match field_of(s, n) {
        Some(t) => match decimal_val(t, places) {
            Some(v) => if lo <= v <= hi { v } else { 0 },
            None => 0,
        },
        None => 0,
    }
}

/// Uptime and idle time in microseconds: the first two fields of the uptime
/// text, when it has two.
pub open spec fn uptime_of(text: Option<Vec<u8>>) -> (int, int) {
    match text {
        Some(t) => if field_of(t@, 1) is Some {
            (decimal_field(t@, 0, 6, 0, u64::MAX as int), decimal_field(t@, 1, 6, 0, u64::MAX as int))
        } else {
            (0, 0)
        },
        None => (0, 0),
    }
}

/// Load averages in hundredths: the first three fields of the load-average
/// text, when it has three.
pub open spec fn loads_of(text: Option<Vec<u8>>) -> (int, int, int) {
    match text {
        Some(t) => if field_of(t@, 2) is Some {
            (
                decimal_field(t@, 0, 2, i64::MIN as int, i64::MAX as int),
                decimal_field(t@, 1, 2, i64::MIN as int, i64::MAX as int),
                decimal_field(t@, 2, 2, i64::MIN as int, i64::MAX as int),
            )
        } else {
            (0, 0, 0)
        },
        None => (0, 0, 0),
    }
}

/// Boot time: the clock less the whole seconds of uptime, never below zero.
pub open spec fn boot_of(now: u64, uptime_micros: int) -> int {
    let up = uptime_micros / MICROS_PER_SECOND as int;
    if now >= up { now - up } else { 0 }
}

/// Whether a snapshot holds what a collection over `r` derives.
pub open spec fn collected_from(m: SystemMetrics, r: Readings) -> bool {
    &&& m.uptime_micros == uptime_of(r.uptime).0
    &&& m.idle_micros == uptime_of(r.uptime).1
    &&& m.load_avg.0 == loads_of(r.loadavg).0
    &&& m.load_avg.1 == loads_of(r.loadavg).1
    &&& m.load_avg.2 == loads_of(r.loadavg).2
    &&& m.user_count == user_total(r.users)
    &&& m.boot_time == boot_of(r.now, uptime_of(r.uptime).0)
}

fn read_decimal_field(s: &[u8], a: usize, b: usize, places: u32, lo: i128, hi: i128) -> (r: i128)
    requires
        a <= b <= s@.len(),
        places <= 6,
        -(WIDE_CAP as int) < lo <= hi < WIDE_CAP as int,
    ensures
        r == (match decimal_val(s@.subrange(a as int, b as int), places as nat) {
            Some(v) => if lo <= v <= hi { v } else { 0 },
            None => 0,
        }),
{
    match parse_decimal(s, a, b, places) {
        Some(v) => if lo <= v && v <= hi {
            v
        } else {
            0
        },
        None => 0,
    }
}

fn read_uptime(text: &Option<Vec<u8>>) -> (r: (u64, u64))
    ensures
        r.0 == uptime_of(*text).0,
        r.1 == uptime_of(*text).1,
{
    match text {
        Some(t) => {
            let s = t.as_slice();
            let (a0, b0) = find_field(s, 0, s.len(), 0);
            let (a1, b1) = find_field(s, 0, s.len(), 1);
            if a1 < s.len() {
                proof {
                    lemma_field_before(s@, 0, 1);
                }
                let up = read_decimal_field(s, a0, b0, 6, 0, 0xffff_ffff_ffff_ffff);
                let idle = read_decimal_field(s, a1, b1, 6, 0, 0xffff_ffff_ffff_ffff);
                (up as u64, idle as u64)
            } else {
                (0, 0)
            }
        },
        None => (0, 0),
    }
}

fn read_loadavg(text: &Option<Vec<u8>>) -> (r: (i64, i64, i64))
    ensures
        r.0 == loads_of(*text).0,
        r.1 == loads_of(*text).1,
        r.2 == loads_of(*text).2,
{
    match text {
        Some(t) => {
            let s = t.as_slice();
            let (a0, b0) = find_field(s, 0, s.len(), 0);
            let (a1, b1) = find_field(s, 0, s.len(), 1);
            let (a2, b2) = find_field(s, 0, s.len(), 2);
            if a2 < s.len() {
                proof {
                    lemma_field_before(s@, 0, 2);
                    lemma_field_before(s@, 1, 2);
                }
                let lo: i128 = -0x8000_0000_0000_0000;
                let hi: i128 = 0x7fff_ffff_ffff_ffff;
                (
                    read_decimal_field(s, a0, b0, 2, lo, hi) as i64,
                    read_decimal_field(s, a1, b1, 2, lo, hi) as i64,
                    read_decimal_field(s, a2, b2, 2, lo, hi) as i64,
                )
            } else {
                (0, 0, 0)
            }
        },
        None => (0, 0, 0),
    }
}

/// The clock less the whole seconds of uptime, saturating at zero.
fn calculate_boot_time(now: u64, uptime_micros: u64) -> (r: u64)
    ensures
        r == boot_of(now, uptime_micros as int),
{
    now.saturating_sub(uptime_micros / MICROS_PER_SECOND)
}

impl SystemMetrics {
    /// Collects a snapshot from what was read. A source that is missing or
    /// malformed leaves its metric at zero (the user count at one); the others
    /// are unaffected.
    pub fn new(readings: &Readings) -> (m: SystemMetrics)
        ensures
            collected_from(m, *readings),
    {
        let (up, idle) = read_uptime(&readings.uptime);
        let loads = read_loadavg(&readings.loadavg);
        let users = count_users(&readings.users);
        SystemMetrics {
            uptime_micros: up,
            idle_micros: idle,
            load_avg: loads,
            user_count: users,
            boot_time: calculate_boot_time(readings.now, up),
        }
    }

    /// Replaces every metric with a collection from new readings.
    pub fn refresh(&mut self, readings: &Readings)
        ensures
            collected_from(*final(self), *readings),
    {
        *self = SystemMetrics::new(readings);
    }

    /// Whole seconds since boot.
    pub fn uptime_seconds(&self) -> (r: u64)
        ensures
            r == self.uptime_micros / MICROS_PER_SECOND,
    {
        self.uptime_micros / MICROS_PER_SECOND
    }

    /// Microseconds since boot.
    pub fn uptime_micros(&self) -> (r: u64)
        ensures
            r == self.uptime_micros,
    {
        self.uptime_micros
    }

    /// Whole seconds of idle time, summed over processors.
    pub fn idle_time(&self) -> (r: u64)
        ensures
            r == self.idle_micros / MICROS_PER_SECOND,
    {
        self.idle_micros / MICROS_PER_SECOND
    }

    /// Microseconds of idle time, summed over processors; may exceed the
    /// uptime on machines with several processors.
    pub fn idle_micros(&self) -> (r: u64)
        ensures
            r == self.idle_micros,
    {
        self.idle_micros
    }

    /// Load averages over 1, 5 and 15 minutes, in hundredths.
    pub fn load_averages(&self) -> (r: (i64, i64, i64))
        ensures
            r == self.load_avg,
    {
        self.load_avg
    }

    pub fn user_count(&self) -> (r: usize)
        ensures
            r == self.user_count,
    {
        self.user_count
    }

    /// UNIX time of boot.
    pub fn boot_time(&self) -> (r: u64)
        ensures
            r == self.boot_time,
    {
        self.boot_time
    }
}

impl Default for SystemMetrics {
    /// The snapshot of a collection that could read nothing.
    fn default() -> (m: SystemMetrics)
        ensures
            m.uptime_micros == 0 && m.idle_micros == 0 && m.load_avg == (0i64, 0i64, 0i64)
                && m.user_count == 1 && m.boot_time == 0,
    {
        SystemMetrics { uptime_micros: 0, idle_micros: 0, load_avg: (0, 0, 0), user_count: 1, boot_time: 0 }
    }
}

/// Whether two snapshots hold the same metrics.
pub fn same_metrics(a: &SystemMetrics, b: &SystemMetrics) -> (r: bool)
    ensures
        r == (*a == *b),
{
    a.uptime_micros == b.uptime_micros && a.idle_micros == b.idle_micros && a.load_avg.0 == b.load_avg.0
        && a.load_avg.1 == b.load_avg.1 && a.load_avg.2 == b.load_avg.2 && a.user_count == b.user_count
        && a.boot_time == b.boot_time
}

/// Boot time lies between the clock less the uptime and the clock:
/// `now - uptime <= boot_time <= now`, and exactly `now - floor(uptime)`
/// whenever the uptime does not exceed the clock. Every collected snapshot
/// also reports at least one user.
pub proof fn lemma_boot_time_window(m: SystemMetrics, r: Readings)
    requires
        collected_from(m, r),
    ensures
        m.boot_time <= r.now,
        m.boot_time >= r.now - m.uptime_micros / MICROS_PER_SECOND,
        m.uptime_micros / MICROS_PER_SECOND <= r.now ==> m.boot_time + m.uptime_micros
            / MICROS_PER_SECOND == r.now,
        m.user_count >= 1,
{
}

} // verus!
