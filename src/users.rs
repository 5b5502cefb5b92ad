//! Counting the distinct human users logged in, from three sources tried in
//! turn: processes with a controlling terminal, processes holding a terminal
//! open, and the environment.

use vstd::prelude::*;
use std::collections::HashSet;
use crate::scan::{
    all_digits, digits_only, parse_stat_has_tty, parse_status_uid, parse_unsigned, stat_has_tty,
    status_uid, unsigned_val,
};

verus! {

broadcast use vstd::std_specs::hash::group_hash_axioms;

/// What was read of one process: its stat and status records, and the
/// targets of its open file descriptors; `None` where the read failed.
pub struct ProcessInfo {
    pub stat: Option<Vec<u8>>,
    pub status: Option<Vec<u8>>,
    pub fd_targets: Option<Vec<Vec<u8>>>,
}

/// Everything the user count is derived from.
pub struct UserSources {
    pub processes: Vec<ProcessInfo>,
    /// A graphical display is announced in the environment.
    pub display_set: bool,
    /// The invoking user's id as the environment states it, if it does.
    pub uid_var: Option<Vec<u8>>,
}

/// The id assumed for the user of a graphical session.
pub const DESKTOP_UID: u32 = 1000;

/// Administrative and regular accounts count; ids 1 to 999 are services.
pub open spec fn admitted(uid: u32) -> bool {
    uid == 0 || uid >= 1000
}

pub open spec fn status_uid_of(p: ProcessInfo) -> Option<u32> {
    match p.status {
        Some(st) => status_uid(st@),
        None => None,
    }
}

/// The user that a process counts for in the first tier: its terminal number
/// is non-zero (it has a controlling terminal) and its owner is admitted.
pub open spec fn tty_user(p: ProcessInfo, uid: u32) -> bool {
    &&& p.stat is Some
    &&& stat_has_tty(p.stat->0@)
    &&& status_uid_of(p) == Some(uid)
    &&& admitted(uid)
}

pub open spec fn starts_with(t: Seq<u8>, prefix: Seq<u8>) -> bool {
    t.len() >= prefix.len() && t.subrange(0, prefix.len() as int) == prefix
}

pub open spec fn pts_prefix() -> Seq<u8> {
    seq![47u8, 100, 101, 118, 47, 112, 116, 115, 47]
}

pub open spec fn tty_prefix() -> Seq<u8> {
    seq![47u8, 100, 101, 118, 47, 116, 116, 121]
}

/// A descriptor target that is a terminal device (`/dev/pts/`, `/dev/tty`).
pub open spec fn is_terminal_path(t: Seq<u8>) -> bool {
    starts_with(t, pts_prefix()) || starts_with(t, tty_prefix())
}

pub open spec fn holds_terminal(p: ProcessInfo) -> bool {
    &&& p.fd_targets is Some
    &&& exists|j: int|
        0 <= j < p.fd_targets->0@.len() && is_terminal_path(#[trigger] p.fd_targets->0@[j]@)
}

/// The user that a process counts for in the second tier: it holds a
/// terminal open and has an admitted owner.
pub open spec fn fd_user(p: ProcessInfo, uid: u32) -> bool {
    &&& holds_terminal(p)
    &&& status_uid_of(p) == Some(uid)
    &&& admitted(uid)
}

pub open spec fn tier_one(ps: Seq<ProcessInfo>) -> Set<u32> {
    Set::new(|u: u32| exists|i: int| 0 <= i < ps.len() && tty_user(#[trigger] ps[i], u))
}

pub open spec fn tier_two(ps: Seq<ProcessInfo>) -> Set<u32> {
    Set::new(|u: u32| exists|i: int| 0 <= i < ps.len() && fd_user(#[trigger] ps[i], u))
}

/// The invoking user's id from the environment: an unsigned numeral that fits
/// in 32 bits.
pub open spec fn env_uid(v: Option<Vec<u8>>) -> Option<u32> {
    match v {
        Some(t) => match unsigned_val(t@) {
            Some(n) => if n <= u32::MAX { Some(n as u32) } else { None },
            None => None,
        },
        None => None,
    }
}

pub open spec fn tier_three(src: UserSources) -> Set<u32> {
    let desk = if src.display_set { set![DESKTOP_UID] } else { Set::<u32>::empty() };
    match env_uid(src.uid_var) {
        Some(u) => desk.insert(u),
        None => desk,
    }
}

/// The user count: the size of the first non-empty tier, and one when all
/// three are empty.
pub open spec fn user_total(src: UserSources) -> nat {
    let one = tier_one(src.processes@);
    let two = tier_two(src.processes@);
    let three = tier_three(src);
    if one.len() > 0 {
        one.len()
    } else if two.len() > 0 {
        two.len()
    } else if three.len() > 0 {
        three.len()
    } else {
        1
    }
}

/// Whether a directory entry of the process table names a process: it is all
/// digits.
pub fn is_pid_name(name: &[u8]) -> (r: bool)
    ensures
        r == all_digits(name@),
{
    let r = digits_only(name, 0, name.len());
    assert(name@.subrange(0, name@.len() as int) =~= name@);
    r
}

fn has_prefix(t: &[u8], p: &[u8]) -> (r: bool)
    ensures
        r == starts_with(t@, p@),
{
    if t.len() < p.len() {
        return false;
    }
    let mut i: usize = 0;
    while i < p.len()
        invariant
            i <= p@.len() <= t@.len(),
            forall|k: int| 0 <= k < i ==> t@[k] == p@[k],
        decreases p@.len() - i,
    {
        if t[i] != p[i] {
            assert(t@.subrange(0, p@.len() as int)[i as int] != p@[i as int]);
            return false;
        }
        i = i + 1;
    }
    assert(t@.subrange(0, p@.len() as int) =~= p@);
    true
}

fn is_terminal_target(t: &[u8]) -> (r: bool)
    ensures
        r == is_terminal_path(t@),
{
    let pts: [u8; 9] = [47u8, 100, 101, 118, 47, 112, 116, 115, 47];
    let tty: [u8; 8] = [47u8, 100, 101, 118, 47, 116, 116, 121];
    assert(pts@ =~= pts_prefix());
    assert(tty@ =~= tty_prefix());
    has_prefix(t, pts.as_slice()) || has_prefix(t, tty.as_slice())
}

fn holds_terminal_exec(p: &ProcessInfo) -> (r: bool)
    ensures
        r == holds_terminal(*p),
{
    match &p.fd_targets {
        None => false,
        Some(ts) => {
            let mut j: usize = 0;
            while j < ts.len()
                invariant
                    j <= ts@.len(),
                    p.fd_targets == Some(*ts),
                    forall|k: int| 0 <= k < j ==> !is_terminal_path(#[trigger] ts@[k]@),
                decreases ts@.len() - j,
            {
                if is_terminal_target(ts[j].as_slice()) {
                    assert(is_terminal_path(p.fd_targets->0@[j as int]@));
                    return true;
                }
                j = j + 1;
            }
            false
        },
    }
}

fn status_uid_exec(p: &ProcessInfo) -> (r: Option<u32>)
    ensures
        r == status_uid_of(*p),
{
    match &p.status {
        Some(st) => parse_status_uid(st.as_slice()),
        None => None,
    }
}

fn tty_user_exec(p: &ProcessInfo) -> (r: Option<u32>)
    ensures
        forall|u: u32| tty_user(*p, u) <==> r == Some(u),
{
    match &p.stat {
        Some(st) => {
            if parse_stat_has_tty(st.as_slice()) {
                match status_uid_exec(p) {
                    Some(u) => if u == 0 || u >= 1000 {
                        Some(u)
                    } else {
                        None
                    },
                    None => None,
                }
            } else {
                None
            }
        },
        None => None,
    }
}

fn fd_user_exec(p: &ProcessInfo) -> (r: Option<u32>)
    ensures
        forall|u: u32| fd_user(*p, u) <==> r == Some(u),
{
    if holds_terminal_exec(p) {
        match status_uid_exec(p) {
            Some(u) => if u == 0 || u >= 1000 {
                Some(u)
            } else {
                None
            },
            None => None,
        }
    } else {
        None
    }
}

pub open spec fn tty_users_upto(ps: Seq<ProcessInfo>, n: int) -> Set<u32> {
    Set::new(|u: u32| exists|i: int| 0 <= i < n && tty_user(#[trigger] ps[i], u))
}

pub open spec fn fd_users_upto(ps: Seq<ProcessInfo>, n: int) -> Set<u32> {
    Set::new(|u: u32| exists|i: int| 0 <= i < n && fd_user(#[trigger] ps[i], u))
}

/// The distinct admitted owners of processes with a controlling terminal.
pub fn tier_one_uids(ps: &Vec<ProcessInfo>) -> (r: HashSet<u32>)
    ensures
        r@ == tier_one(ps@),
{
    let mut v: HashSet<u32> = HashSet::new();
    let mut i: usize = 0;
    assert(v@ =~= tty_users_upto(ps@, 0));
    while i < ps.len()
        invariant
            i <= ps@.len(),
            v@ == tty_users_upto(ps@, i as int),
        decreases ps@.len() - i,
    {
        let found = tty_user_exec(&ps[i]);
        let ghost before = v@;
        match found {
            Some(u) => {
                v.insert(u);
            },
            None => {},
        }
        assert forall|x: u32| #[trigger] tty_users_upto(ps@, i + 1).contains(x) == v@.contains(x) by {
            if tty_users_upto(ps@, i + 1).contains(x) {
                let k = choose|k: int| 0 <= k < i + 1 && tty_user(#[trigger] ps@[k], x);
                if k < i {
                    assert(before.contains(x));
                }
            }
            if before.contains(x) {
                let k = choose|k: int| 0 <= k < i && tty_user(#[trigger] ps@[k], x);
                assert(tty_users_upto(ps@, i + 1).contains(x));
            }
            if found == Some(x) {
                assert(tty_user(ps@[i as int], x));
                assert(tty_users_upto(ps@, i + 1).contains(x));
            }
        }
        assert(v@ =~= tty_users_upto(ps@, i + 1));
        i = i + 1;
    }
    assert(v@ =~= tier_one(ps@));
    v
}

/// The distinct admitted owners of processes that hold a terminal open.
pub fn tier_two_uids(ps: &Vec<ProcessInfo>) -> (r: HashSet<u32>)
    ensures
        r@ == tier_two(ps@),
{
    let mut v: HashSet<u32> = HashSet::new();
    let mut i: usize = 0;
    assert(v@ =~= fd_users_upto(ps@, 0));
    while i < ps.len()
        invariant
            i <= ps@.len(),
            v@ == fd_users_upto(ps@, i as int),
        decreases ps@.len() - i,
    {
        let found = fd_user_exec(&ps[i]);
        let ghost before = v@;
        match found {
            Some(u) => {
                v.insert(u);
            },
            None => {},
        }
        assert forall|x: u32| #[trigger] fd_users_upto(ps@, i + 1).contains(x) == v@.contains(x) by {
            if fd_users_upto(ps@, i + 1).contains(x) {
                let k = choose|k: int| 0 <= k < i + 1 && fd_user(#[trigger] ps@[k], x);
                if k < i {
                    assert(before.contains(x));
                }
            }
            if before.contains(x) {
                let k = choose|k: int| 0 <= k < i && fd_user(#[trigger] ps@[k], x);
                assert(fd_users_upto(ps@, i + 1).contains(x));
            }
            if found == Some(x) {
                assert(fd_user(ps@[i as int], x));
                assert(fd_users_upto(ps@, i + 1).contains(x));
            }
        }
        assert(v@ =~= fd_users_upto(ps@, i + 1));
        i = i + 1;
    }
    assert(v@ =~= tier_two(ps@));
    v
}

/// The ids that the environment suggests: the desktop user where a display is
/// announced, and the invoking user where the environment names one.
pub fn tier_three_uids(src: &UserSources) -> (r: HashSet<u32>)
    ensures
        r@ == tier_three(*src),
{
    let mut v: HashSet<u32> = HashSet::new();
    if src.display_set {
        v.insert(DESKTOP_UID);
        assert(v@ =~= set![DESKTOP_UID]);
    }
    match &src.uid_var {
        Some(t) => {
            let parsed = parse_unsigned(t.as_slice(), 0, t.len());
            assert(t@.subrange(0, t@.len() as int) =~= t@);
            match parsed {
                Some(n) => {
                    if n <= 4294967295 {
                        v.insert(n as u32);
                    }
                },
                None => {},
            }
        },
        None => {},
    }
    v
}

/// The number of distinct users logged in: the size of the first non-empty
/// tier, never less than one.
pub fn count_users(src: &UserSources) -> (r: usize)
    ensures
        r as nat == user_total(*src),
        r >= 1,
{
    let one = tier_one_uids(&src.processes);
    if one.len() > 0 {
        return one.len();
    }
    let two = tier_two_uids(&src.processes);
    if two.len() > 0 {
        return two.len();
    }
    let three = tier_three_uids(src);
    if three.len() > 0 {
        three.len()
    } else {
        1
    }
}

/// However the sources read, at least one user is reported; when no tier finds
/// anyone, exactly one.
pub proof fn lemma_user_floor(src: UserSources)
    ensures
        user_total(src) >= 1,
        tier_one(src.processes@).len() == 0 && tier_two(src.processes@).len() == 0
            && tier_three(src).len() == 0 ==> user_total(src) == 1,
{
}

} // verus!
