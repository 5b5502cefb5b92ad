use runtime::clock::LocalStamp;
use runtime::panel::{load_band, panel, join_cells, Tone};
use runtime::render::{format_from_flags, OutputFormat, Runtime, RuntimeArgs};
use runtime::system_metrics::{Readings, SystemMetrics};
use runtime::users::{count_users, is_pid_name, ProcessInfo, UserSources};

fn no_users() -> UserSources {
    UserSources { processes: vec![], display_set: false, uid_var: None }
}

fn readings(uptime: &str, loadavg: &str, now: u64) -> Readings {
    Readings {
        uptime: Some(uptime.as_bytes().to_vec()),
        loadavg: Some(loadavg.as_bytes().to_vec()),
        users: no_users(),
        now,
    }
}

fn snapshot(uptime_secs: u64, users: usize) -> SystemMetrics {
    SystemMetrics {
        uptime_micros: uptime_secs * 1_000_000,
        idle_micros: 0,
        load_avg: (52, 58, 59),
        user_count: users,
        boot_time: 1_700_000_000 - uptime_secs,
    }
}

fn stamp(year: i32, month: u32, day: u32, hour: u32, minute: u32, second: u32, offset: i32) -> LocalStamp {
    LocalStamp { year, month, day, hour, minute, second, offset }
}

fn noon() -> LocalStamp {
    stamp(2024, 3, 9, 12, 34, 56, 0)
}

fn rt(format: OutputFormat, container: bool, m: SystemMetrics) -> Runtime {
    Runtime::new(RuntimeArgs { format, show_container: container, show_version: false }, m)
}

fn render(format: OutputFormat, container: bool, m: SystemMetrics) -> String {
    rt(format, container, m).render(&noon(), &stamp(2024, 3, 8, 11, 0, 0, 0))
}

fn process(stat: &str, status: &str, fds: Option<Vec<&str>>) -> ProcessInfo {
    ProcessInfo {
        stat: Some(stat.as_bytes().to_vec()),
        status: Some(status.as_bytes().to_vec()),
        fd_targets: fds.map(|v| v.into_iter().map(|t| t.as_bytes().to_vec()).collect()),
    }
}

const TTY_STAT: &str = "1234 (bash) S 1000 1234 1234 34816 5678 4194304";
const NO_TTY_STAT: &str = "1234 (sshd) S 1 1234 1234 0 -1 4194560";

fn status_of(uid: u32) -> String {
    format!("Name:\tbash\nState:\tS (sleeping)\nUid:\t{}\t{}\t{}\t{}\nGid:\t100\n", uid, uid, uid, uid)
}

#[test]
fn test_refresh_ne_1sec() {
    let mut r = rt(OutputFormat::Raw, false, snapshot(100, 1));
    let first = r.to_string();
    r.refresh(snapshot(101, 1));
    let second = r.to_string();
    assert_ne!(first, second, "Runtime output should change after refresh");
}

#[test]
fn test_system_refresh_ne_1sec() {
    let mut system = SystemMetrics::new(&readings("100.00 300.00\n", "0.10 0.20 0.30 1/2 3\n", 1_700_000_000));
    let first = system;
    system.refresh(&readings("101.00 303.50\n", "0.10 0.20 0.30 1/2 3\n", 1_700_000_001));
    assert_ne!(first, system, "SystemMetrics should change after refresh");
}

#[test]
fn test_system_metrics_creation() {
    let metrics = SystemMetrics::new(&readings("12345.67 54321.00\n", "0.52 0.58 0.59 1/234 5678\n", 1_700_000_000));
    assert!(metrics.uptime_micros() > 0, "Uptime should be positive");
    assert_eq!(metrics.uptime_micros(), 12_345_670_000);
    assert_eq!(metrics.uptime_seconds(), 12345);
    assert!(metrics.user_count() > 0, "Should have at least one user");
}

#[test]
fn test_load_averages() {
    let metrics = SystemMetrics::new(&readings("1.00 1.00", "0.52 0.58 0.59 1/234 5678\n", 1_700_000_000));
    let (load1, load5, load15) = metrics.load_averages();
    assert!(load1 >= 0, "Load average should be non-negative");
    assert!(load5 >= 0, "Load average should be non-negative");
    assert!(load15 >= 0, "Load average should be non-negative");
    assert_eq!((load1, load5, load15), (52, 58, 59));
}

#[test]
fn test_boot_time() {
    let now = std::time::SystemTime::now().duration_since(std::time::UNIX_EPOCH).unwrap().as_secs();
    let metrics = SystemMetrics::new(&readings("12345.67 54321.00\n", "0 0 0", now));
    let boot_time = metrics.boot_time();
    assert!(boot_time > 0, "Boot time should be positive");
    assert!(boot_time <= now, "Boot time should not be in the future");
    assert!(boot_time > now - (365 * 24 * 3600), "Boot time should not be more than a year ago");
    assert_eq!(boot_time, now - 12345);
}

#[test]
fn boot_time_saturates_at_zero() {
    let metrics = SystemMetrics::new(&readings("5000.5 1", "0 0 0", 1000));
    assert_eq!(metrics.boot_time(), 0);
}

#[test]
fn boot_time_window_holds() {
    let now = 1_700_000_000u64;
    let m = SystemMetrics::new(&readings("90061.999999 10.0", "0 0 0", now));
    assert!(m.boot_time() <= now);
    assert!(m.boot_time() + m.uptime_seconds() >= now);
    assert_eq!(m.boot_time(), now - 90061);
}

#[test]
fn missing_sources_default_each_metric() {
    let r = Readings { uptime: None, loadavg: Some(b"1.5 2.5 3.5".to_vec()), users: no_users(), now: 50 };
    let m = SystemMetrics::new(&r);
    assert_eq!(m.uptime_micros(), 0);
    assert_eq!(m.idle_time(), 0);
    assert_eq!(m.load_averages(), (150, 250, 350));
    assert_eq!(m.boot_time(), 50);
    assert_eq!(m.user_count(), 1);
}

#[test]
fn malformed_fields_read_as_zero() {
    let m = SystemMetrics::new(&readings("abc 12.5", "0.5 x 2", 10));
    assert_eq!(m.uptime_micros(), 0);
    assert_eq!(m.idle_time(), 12);
    assert_eq!(m.load_averages(), (50, 0, 200));
    let one_field = SystemMetrics::new(&readings("77.0", "1.0 2.0", 10));
    assert_eq!(one_field.uptime_micros(), 0);
    assert_eq!(one_field.load_averages(), (0, 0, 0));
}

#[test]
fn negative_load_is_kept() {
    let m = SystemMetrics::new(&readings("1 1", "-1.50 0.00 +2.25", 10));
    assert_eq!(m.load_averages(), (-150, 0, 225));
    assert_eq!(render(OutputFormat::Raw, false, m), "9 1.000000 1 -1.50 0.00 2.25");
}

#[test]
fn default_snapshot_has_one_user() {
    let m = SystemMetrics::default();
    assert_eq!(m.user_count(), 1);
    assert_eq!(m.uptime_micros(), 0);
    assert_eq!(m.boot_time(), 0);
}

#[test]
fn raw_round_trip() {
    let m = SystemMetrics::new(&readings("12345.67 54321.99\n", "0.52 0.58 10.09 1/234 5678\n", 1_700_000_000));
    let out = render(OutputFormat::Raw, false, m);
    assert_eq!(out, "1699987655 12345.670000 54321 0.52 0.58 10.09");
    let fields: Vec<&str> = out.split_whitespace().collect();
    assert_eq!(fields.len(), 6);
    assert_eq!(fields[0].parse::<u64>().unwrap(), m.boot_time());
    let up: f64 = fields[1].parse().unwrap();
    assert!((up - 12345.67).abs() < 1e-6);
    assert_eq!(fields[2].parse::<u64>().unwrap(), m.idle_time());
    let loads: Vec<f64> = fields[3..].iter().map(|f| f.parse().unwrap()).collect();
    assert!((loads[0] - 0.52).abs() < 1e-9 && (loads[1] - 0.58).abs() < 1e-9 && (loads[2] - 10.09).abs() < 1e-9);
}

#[test]
fn raw_keeps_idle_above_uptime() {
    let m = SystemMetrics::new(&readings("10.000001 80.9", "0 0 0", 100));
    assert_eq!(render(OutputFormat::Raw, false, m), "90 10.000001 80 0.00 0.00 0.00");
}

#[test]
fn pretty_one_hour() {
    assert_eq!(render(OutputFormat::Pretty, false, snapshot(3600, 1)), "up 1 hour");
}

#[test]
fn pretty_zero() {
    assert_eq!(render(OutputFormat::Pretty, false, snapshot(0, 1)), "up less than a minute");
    assert_eq!(render(OutputFormat::Pretty, false, snapshot(59, 1)), "up less than a minute");
}

#[test]
fn pretty_minutes() {
    assert_eq!(render(OutputFormat::Pretty, false, snapshot(150, 1)), "up 2 minutes");
    assert_eq!(render(OutputFormat::Pretty, false, snapshot(60, 1)), "up 1 minute");
    assert_eq!(render(OutputFormat::Pretty, false, snapshot(600, 1)), "up 10 minutes");
}

#[test]
fn pretty_hours_and_minutes() {
    assert_eq!(render(OutputFormat::Pretty, false, snapshot(3660, 1)), "up 1 hour, 1 minute");
    assert_eq!(render(OutputFormat::Pretty, false, snapshot(7320, 1)), "up 2 hours, 2 minutes");
    assert_eq!(render(OutputFormat::Pretty, false, snapshot(90000, 1)), "up 25 hours");
    for secs in [0u64, 59, 60, 3600, 7200, 7259, 86400, 90000] {
        let out = render(OutputFormat::Pretty, false, snapshot(secs, 1));
        assert!(!out.starts_with("up 0 ") && !out.contains(", 0 minute"), "{}", out);
    }
}

#[test]
fn standard_day_and_hour() {
    let out = render(OutputFormat::Standard, false, snapshot(90000, 1));
    assert_eq!(out, " 12:34:56 up 1:01, 1 user, load average: 0.52, 0.58, 0.59");
}

#[test]
fn standard_hours() {
    let out = render(OutputFormat::Standard, false, snapshot(82800, 2));
    assert_eq!(out, " 12:34:56 up 23:00, 2 users, load average: 0.52, 0.58, 0.59");
}

#[test]
fn standard_days_and_minutes() {
    assert!(render(OutputFormat::Standard, false, snapshot(86400, 1)).contains(" up 1 day, "));
    assert!(render(OutputFormat::Standard, false, snapshot(2 * 86400 + 59, 1)).contains(" up 2 days, "));
    assert!(render(OutputFormat::Standard, false, snapshot(3 * 3600 + 5 * 60, 1)).contains(" up 3:05, "));
    assert!(render(OutputFormat::Standard, false, snapshot(300, 1)).contains(" up 5 min, "));
    assert!(render(OutputFormat::Standard, false, snapshot(0, 1)).contains(" up 0 min, "));
}

#[test]
fn standard_container_mark() {
    let out = render(OutputFormat::Standard, true, snapshot(300, 3));
    assert_eq!(out, " 12:34:56 up 5 min (container), 3 users, load average: 0.52, 0.58, 0.59");
}

#[test]
fn since_format() {
    let r = rt(OutputFormat::Since, false, snapshot(10, 1));
    assert_eq!(r.render(&noon(), &stamp(2024, 1, 5, 7, 8, 9, 3600)), "2024-01-05 07:08:09");
    assert_eq!(r.render(&noon(), &stamp(99, 12, 31, 23, 59, 58, 0)), "0099-12-31 23:59:58");
    assert_eq!(r.render(&noon(), &stamp(12345, 1, 1, 0, 0, 0, 0)), "+12345-01-01 00:00:00");
    assert_eq!(r.render(&noon(), &stamp(-5, 1, 1, 0, 0, 0, 0)), "-0005-01-01 00:00:00");
}

#[test]
fn interactive_plain_panel() {
    let mut m = snapshot(90061, 2);
    m.load_avg = (99, 150, 400);
    let out = rt(OutputFormat::Interactive, true, m).render(&stamp(2024, 3, 9, 12, 34, 56, -18000), &stamp(2024, 3, 8, 11, 33, 55, -18000));
    let border = "=".repeat(55);
    let expected = format!(
        "\n+{b}+\n| *  SYSTEM UPTIME DASHBOARD  * |\n+{b}+\n| Current Time    : 12:34:56 -05:00               |\n| System Uptime   : 1d 1h 1m 1s                        |\n| Boot Time       : 2024-03-08 11:33:55        |\n| Active Users    : 2 users                      |\n| Load Average    : 0.99, 1.50, 4.00               |\n| System Mode     : [CONTAINER]               |\n+{b}+\n",
        b = border
    );
    assert_eq!(out, expected);
}

#[test]
fn interactive_uptime_units() {
    let show = |secs: u64| {
        let out = rt(OutputFormat::Interactive, false, snapshot(secs, 1)).render(&noon(), &noon());
        let line = out.lines().find(|l| l.starts_with("| System Uptime")).unwrap().to_string();
        line
    };
    assert!(show(0).contains(": 0s "));
    assert!(show(3600).contains(": 1h "));
    assert!(show(86400 + 5).contains(": 1d 5s "));
    assert!(show(120).contains(": 2m "));
    let native = rt(OutputFormat::Interactive, false, snapshot(1, 1)).render(&noon(), &noon());
    assert!(native.contains("[NATIVE]") && native.contains("1 user ") && native.contains("+00:00"));
}

#[test]
fn panel_cells_carry_tones() {
    let mut m = snapshot(5, 1);
    m.load_avg = (50, 250, 900);
    let cells = panel(&m, false, &noon(), &noon());
    let tone_of = |t: &str| cells.iter().find(|c| c.text == t).map(|c| c.tone);
    assert_eq!(tone_of("0.50"), Some(Tone::Green));
    assert_eq!(tone_of("2.50"), Some(Tone::Red));
    assert_eq!(tone_of("9.00"), Some(Tone::Alarm));
    assert_eq!(tone_of("[NATIVE]"), Some(Tone::Green));
    assert_eq!(join_cells(&cells), rt(OutputFormat::Interactive, false, m).render(&noon(), &noon()));
}

#[test]
fn load_bands() {
    assert_eq!(load_band(-300), 0);
    assert_eq!(load_band(99), 0);
    assert_eq!(load_band(100), 1);
    assert_eq!(load_band(199), 1);
    assert_eq!(load_band(200), 2);
    assert_eq!(load_band(399), 2);
    assert_eq!(load_band(400), 3);
}

#[test]
fn rendering_twice_is_identical() {
    for format in [OutputFormat::Standard, OutputFormat::Pretty, OutputFormat::Raw, OutputFormat::Since, OutputFormat::Interactive] {
        assert_eq!(render(format, true, snapshot(4000, 2)), render(format, true, snapshot(4000, 2)));
    }
    let r = rt(OutputFormat::Raw, false, snapshot(4000, 2));
    assert_eq!(r.to_string(), r.to_string());
}

#[test]
fn to_string_uses_local_clock() {
    let mut m = snapshot(10, 1);
    m.boot_time = 365 * 86400;
    let since = rt(OutputFormat::Since, false, m).to_string();
    assert_eq!(since.len(), 19);
    assert!(since.starts_with("1970-12-3") || since.starts_with("1971-01-01"), "{}", since);
    let standard = rt(OutputFormat::Standard, false, m).to_string();
    assert!(standard.starts_with(' ') && standard[1..9].chars().filter(|c| *c == ':').count() == 2);
    assert!(standard.ends_with(" up 0 min, 1 user, load average: 0.52, 0.58, 0.59"));
    let dash = rt(OutputFormat::Interactive, false, m).to_string();
    assert!(dash.contains("SYSTEM UPTIME DASHBOARD") && dash.contains("[NATIVE]"));
}

#[test]
fn runtime_equality() {
    let a = rt(OutputFormat::Raw, false, snapshot(10, 1));
    let b = Runtime::new(RuntimeArgs { format: OutputFormat::Raw, show_container: false, show_version: true }, snapshot(10, 1));
    assert!(a == b);
    assert!(a != rt(OutputFormat::Raw, true, snapshot(10, 1)));
    assert!(a != rt(OutputFormat::Raw, false, snapshot(11, 1)));
}

#[test]
fn defaults_select_dashboard() {
    assert_eq!(RuntimeArgs::default().format, OutputFormat::Interactive);
    assert_eq!(OutputFormat::default(), OutputFormat::Interactive);
    assert!(!RuntimeArgs::default().show_container);
}

#[test]
fn flag_priority() {
    assert_eq!(format_from_flags(true, true, true, true), OutputFormat::Since);
    assert_eq!(format_from_flags(false, true, true, true), OutputFormat::Raw);
    assert_eq!(format_from_flags(false, false, true, true), OutputFormat::Pretty);
    assert_eq!(format_from_flags(false, false, false, true), OutputFormat::Standard);
    assert_eq!(format_from_flags(false, false, false, false), OutputFormat::Interactive);
}

#[test]
fn users_from_terminal_processes() {
    let src = UserSources {
        processes: vec![
            process(TTY_STAT, &status_of(1000), None),
            process(TTY_STAT, &status_of(1000), None),
            process(TTY_STAT, &status_of(0), None),
            process(TTY_STAT, &status_of(500), None),
            process(NO_TTY_STAT, &status_of(1001), None),
        ],
        display_set: true,
        uid_var: Some(b"4242".to_vec()),
    };
    assert_eq!(count_users(&src), 2);
}

#[test]
fn users_from_open_terminals() {
    let src = UserSources {
        processes: vec![
            process(NO_TTY_STAT, &status_of(1000), Some(vec!["/dev/null", "/dev/pts/3"])),
            process(NO_TTY_STAT, &status_of(1002), Some(vec!["/dev/tty1"])),
            process(NO_TTY_STAT, &status_of(1003), Some(vec!["/dev/null", "socket:[123]"])),
            process(NO_TTY_STAT, &status_of(999), Some(vec!["/dev/pts/0"])),
        ],
        display_set: true,
        uid_var: None,
    };
    assert_eq!(count_users(&src), 2);
}

#[test]
fn users_from_environment() {
    let src = UserSources { processes: vec![], display_set: true, uid_var: Some(b"1234".to_vec()) };
    assert_eq!(count_users(&src), 2);
    let same = UserSources { processes: vec![], display_set: true, uid_var: Some(b"1000".to_vec()) };
    assert_eq!(count_users(&same), 1);
    let bad = UserSources { processes: vec![], display_set: false, uid_var: Some(b"12a".to_vec()) };
    assert_eq!(count_users(&bad), 1);
    let service = UserSources { processes: vec![], display_set: false, uid_var: Some(b"5".to_vec()) };
    assert_eq!(count_users(&service), 1);
}

#[test]
fn users_floor_when_all_tiers_empty() {
    let src = UserSources {
        processes: vec![
            process(NO_TTY_STAT, &status_of(1000), Some(vec!["/dev/null"])),
            ProcessInfo { stat: None, status: None, fd_targets: None },
        ],
        display_set: false,
        uid_var: None,
    };
    assert_eq!(count_users(&src), 1);
    let r = Readings { uptime: None, loadavg: None, users: src, now: 0 };
    assert_eq!(SystemMetrics::new(&r).user_count(), 1);
}

#[test]
fn status_without_uid_line_counts_nobody() {
    let src = UserSources {
        processes: vec![process(TTY_STAT, "Name:\tbash\nGid:\t1000\n", None), process(TTY_STAT, "Uid:\n", None)],
        display_set: false,
        uid_var: None,
    };
    assert_eq!(count_users(&src), 1);
}

#[test]
fn pid_names() {
    assert!(is_pid_name(b"1234"));
    assert!(!is_pid_name(b"self"));
    assert!(!is_pid_name(b"12a"));
}

fn stat_with_tty(tty: &str) -> String {
    format!("1234 (bash) S 1000 1234 1234 {} 5678 4194304", tty)
}

#[test]
fn users_on_negative_terminal_numbers() {
    let src = UserSources {
        processes: vec![
            process(&stat_with_tty("-2147449088"), &status_of(1001), None),
            process(&stat_with_tty("34816"), &status_of(1000), None),
        ],
        display_set: false,
        uid_var: None,
    };
    assert_eq!(count_users(&src), 2);
    let owners = [0u32, 1, 999, 1000, 1000, 1001];
    let src = UserSources {
        processes: owners.iter().map(|u| process(&stat_with_tty("-5"), &status_of(*u), None)).collect(),
        display_set: false,
        uid_var: None,
    };
    assert_eq!(count_users(&src), 3);
}

#[test]
fn terminal_numbers_out_of_range_do_not_count() {
    let src = UserSources {
        processes: vec![
            process(&stat_with_tty("2147483648"), &status_of(1000), None),
            process(&stat_with_tty("-2147483649"), &status_of(1001), None),
            process(&stat_with_tty("0"), &status_of(1002), None),
            process(&stat_with_tty("-2147483648"), &status_of(1003), None),
        ],
        display_set: false,
        uid_var: None,
    };
    assert_eq!(count_users(&src), 1);
    let only_min = UserSources {
        processes: vec![process(&stat_with_tty("-2147483648"), &status_of(1003), None)],
        display_set: true,
        uid_var: Some(b"4242".to_vec()),
    };
    assert_eq!(count_users(&only_min), 1);
}

fn days_from_civil(y: i64, m: i64, d: i64) -> i64 {
    let ya = if m <= 2 { y - 1 } else { y };
    let era = ya.div_euclid(400);
    let yoe = ya - era * 400;
    let mp = if m > 2 { m - 3 } else { m + 9 };
    let doy = (153 * mp + 2) / 5 + d - 1;
    let doe = yoe * 365 + yoe / 4 - yoe / 100 + doy;
    era * 146097 + doe - 719468
}

#[test]
fn since_reads_the_boot_time() {
    for ts in [0u64, 1_000_000_000, 1_700_000_123] {
        let mut m = snapshot(10, 1);
        m.boot_time = ts;
        let out = rt(OutputFormat::Since, false, m).to_string();
        let n = |a: usize, b: usize| out[a..b].parse::<i64>().unwrap();
        let civil = days_from_civil(n(0, 4), n(5, 7), n(8, 10)) * 86400 + n(11, 13) * 3600 + n(14, 16) * 60 + n(17, 19);
        let shift = civil - ts as i64;
        assert!(shift > -86400 && shift < 86400, "{} {}", out, shift);
    }
}

fn without_styles(s: &str) -> String {
    let mut out = String::new();
    let mut skipping = false;
    for c in s.chars() {
        if skipping {
            skipping = c != 'm';
        } else if c == '\u{1b}' {
            skipping = true;
        } else {
            out.push(c);
        }
    }
    out
}

#[test]
fn dashboard_without_styles_is_plain_panel() {
    let mut m = snapshot(90061, 2);
    m.boot_time = 1_000_000_000;
    let r = rt(OutputFormat::Interactive, true, m);
    let shown = without_styles(&r.to_string());
    let plain = r.render(&noon(), &noon());
    let keep = |t: &str| -> Vec<String> {
        t.lines().filter(|l| !l.starts_with("| Current Time") && !l.starts_with("| Boot Time")).map(String::from).collect()
    };
    assert_eq!(keep(&shown), keep(&plain));
    let since = rt(OutputFormat::Since, false, m).to_string();
    assert!(shown.contains(&format!("| Boot Time       : {}        |", since)));
}

#[test]
fn exponent_form_reads() {
    let m = SystemMetrics::new(&readings("1e3 5", "1e0 2.5E-1 -3e+2", 0));
    assert_eq!(m.uptime_micros(), 1_000_000_000);
    assert_eq!(m.idle_micros(), 5_000_000);
    assert_eq!(m.load_averages(), (100, 25, -30000));
    let small = SystemMetrics::new(&readings("123456e-3 .5e1", "5e-3 1.e1 7E0", 0));
    assert_eq!(small.uptime_micros(), 123_456_000);
    assert_eq!(small.idle_micros(), 5_000_000);
    assert_eq!(small.load_averages(), (0, 1000, 700));
    let bad = SystemMetrics::new(&readings("1e 2e+", "e5 1e1.5 inf", 0));
    assert_eq!((bad.uptime_micros(), bad.idle_micros()), (0, 0));
    assert_eq!(bad.load_averages(), (0, 0, 0));
}

#[test]
fn large_values_read_while_they_fit() {
    let m = SystemMetrics::new(&readings("15000000000000.5 18446744073709.551615", "0 0 0", 0));
    assert_eq!(m.uptime_micros(), 15_000_000_000_000_500_000);
    assert_eq!(m.idle_micros(), u64::MAX);
    assert_eq!(m.idle_time(), 18_446_744_073_709);
    let over = SystemMetrics::new(&readings("18446744073709.551616 1e30", "92233720368547758.08 1e400 -1e-400", 0));
    assert_eq!((over.uptime_micros(), over.idle_micros()), (0, 0));
    assert_eq!(over.load_averages(), (0, 0, 0));
    let loads = SystemMetrics::new(&readings("0 0", "92233720368547758.07 -92233720368547758.08 1", 0));
    assert_eq!(loads.load_averages(), (i64::MAX, i64::MIN, 100));
}

#[test]
fn idle_micros_keeps_the_fraction() {
    let m = SystemMetrics::new(&readings("10.5 80.123456", "0 0 0", 100));
    assert_eq!(m.idle_micros(), 80_123_456);
    assert_eq!(m.idle_time(), 80);
}

fn civil_of(out: &str) -> i64 {
    let (date, time) = out.split_once(' ').unwrap();
    let (ymd_sign, body) = match date.strip_prefix('-') {
        Some(rest) => (-1, rest),
        None => (1, date.strip_prefix('+').unwrap_or(date)),
    };
    let parts: Vec<i64> = body.split('-').map(|p| p.parse().unwrap()).collect();
    let hms: Vec<i64> = time.split(':').map(|p| p.parse().unwrap()).collect();
    days_from_civil(ymd_sign * parts[0], parts[1], parts[2]) * 86400 + hms[0] * 3600 + hms[1] * 60 + hms[2]
}

#[test]
fn since_reads_boot_times_across_the_range() {
    let cases: [(u64, i64); 4] = [
        (300_000_000_000, 300_000_000_000),
        (8_210_266_876_799, 8_210_266_876_799),
        (8_210_266_876_800, 0),
        (u64::MAX, -1),
    ];
    for (ts, shown) in cases {
        let mut m = snapshot(10, 1);
        m.boot_time = ts;
        let out = rt(OutputFormat::Since, false, m).to_string();
        let shift = civil_of(&out) - shown;
        assert!(shift > -86400 && shift < 86400, "{} {} {}", ts, out, shift);
    }
}
