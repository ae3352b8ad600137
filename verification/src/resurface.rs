//! The resurfacing selector: a pure function of the index snapshot, the
//! current time and a requested count, recommending previously idle files
//! with a labeled reason and a human-readable explanation.

use vstd::prelude::*;
use vstd::string::*;

use crate::clock::{spec_utc_day_of_year, spec_utc_year, utc_day_of_year, utc_year, MAX_CIVIL_TS};
use crate::index::{
    file_info_of_row, spec_info_matches_row, spec_reports_live_row, FileIndex,
};
use crate::order::sort_pairs_asc;
use crate::records::{FileInfo, FileRow, ResurfacedFile};
use crate::text::{i64_to_string, spec_i64_digits, spec_u64_digits, u64_to_string};

verus! {

/// Seconds of idleness after which a record counts as forgotten.
pub const FORGOTTEN_SECS: i64 = 1209600;

/// Seconds of idleness required of a random-delight candidate.
pub const DELIGHT_SECS: i64 = 604800;

/// Seconds of age (since modification) required of a seasonal candidate.
pub const SEASON_AGE_SECS: i64 = 5184000;

/// Largest accepted day-of-year distance of a seasonal candidate.
pub const SEASON_WINDOW_DAYS: u32 = 10;

/// Ceiling on the number of records the selector considers in one call.
pub const POOL_CEILING: usize = 5000;

/// Subtraction on `i64` that saturates at the representable bounds.
pub open spec fn spec_sat_sub(a: int, b: int) -> int {
    if a - b > i64::MAX {
        i64::MAX as int
    } else if a - b < i64::MIN {
        i64::MIN as int
    } else {
        a - b
    }
}

/// Subtracts with saturation.
pub fn sat_sub_i64(a: i64, b: i64) -> (r: i64)
    ensures
        r == spec_sat_sub(a as int, b as int),
{
    match a.checked_sub(b) {
        Some(v) => v,
        None => if b < 0 {
            i64::MAX
        } else {
            i64::MIN
        },
    }
}

/// The requested count clamped to 1 through 12.
pub open spec fn spec_clamp_count(c: int) -> int {
    if c < 1 {
        1
    } else if c > 12 {
        12
    } else {
        c
    }
}

fn clamp_count(c: usize) -> (r: usize)
    ensures
        r == spec_clamp_count(c as int),
{
    if c < 1 {
        1
    } else if c > 12 {
        12
    } else {
        c
    }
}

/// Whole days a record has been asleep: the saturated elapsed seconds since
/// its activity time, divided into days, never negative.
pub open spec fn spec_asleep_days(now: int, activity: int) -> int {
    if spec_sat_sub(now, activity) <= 0 {
        0
    } else {
        spec_sat_sub(now, activity) / 86400
    }
}

fn asleep_days(now_ts: i64, activity: i64) -> (r: u64)
    ensures
        r == spec_asleep_days(now_ts as int, activity as int),
{
    let d = sat_sub_i64(now_ts, activity);
    if d <= 0 {
        0
    } else {
        (d as u64) / 86400
    }
}

/// The day number of a timestamp: its unix day, rounding toward minus
/// infinity, so that two timestamps of one UTC calendar day share it.
pub open spec fn spec_day_number(ts: int) -> int {
    ts / 86400
}

fn day_number(ts: i64) -> (r: i64)
    ensures
        r == spec_day_number(ts as int),
{
    ts.checked_div_euclid(86400).unwrap()
}

/// One mixing step of the 64-bit FNV-1a hash.
pub open spec fn spec_fnv_step(h: u64, c: char) -> u64 {
    ((((h ^ (c as u64)) as int) * 0x100000001b3) % 0x10000000000000000) as u64
}

/// The 64-bit FNV-1a hash of a character sequence.
pub open spec fn spec_fnv_hash(s: Seq<char>) -> u64
    decreases s.len(),
{
    if s.len() == 0 {
        0xcbf29ce484222325u64
    } else {
        spec_fnv_step(spec_fnv_hash(s.drop_last()), s.last())
    }
}

fn fnv_step(h: u64, c: char) -> (r: u64)
    ensures
        r == spec_fnv_step(h, c),
{
    let x: u64 = h ^ (c as u64);
    let wide: u128 = (x as u128) * 0x100000001b3u128;
    let r: u64 = (wide % 0x10000000000000000u128) as u64;
    proof {
        assert(wide == (x as int) * 0x100000001b3);
        assert(r == spec_fnv_step(h, c));
    }
    r
}

/// The index a seed draws from a pool of the given size: the FNV-1a hash
/// of the seed, reduced modulo the pool size. Empty pools yield nothing.
pub open spec fn spec_stable_pick(seed: Seq<char>, len: int) -> int {
    (spec_fnv_hash(seed) as int) % len
}

/// Deterministic pseudo-random choice: hashes the seed string and reduces
/// it modulo `len`, so equal seeds always pick the same index.
pub fn stable_pick_index(seed: &str, len: usize) -> (r: Option<usize>)
    ensures
        len == 0 ==> r.is_none(),
        len > 0 ==> r == Some((spec_stable_pick(seed@, len as int)) as usize),
{
    if len == 0 {
        return None;
    }
    let n = seed.unicode_len();
    let mut h: u64 = 0xcbf29ce484222325u64;
    let mut i: usize = 0;
    while i < n
        invariant
            n == seed@.len(),
            i <= n,
            h == spec_fnv_hash(seed@.subrange(0, i as int)),
        decreases n - i,
    {
        let c = seed.get_char(i);
        h = fnv_step(h, c);
        proof {
            assert(seq![] + seed@.subrange(0, i as int).push(seed@[i as int]) == seed@.subrange(
                0,
                i + 1,
            )) by {
                assert(seed@.subrange(0, i as int).push(seed@[i as int]) =~= seed@.subrange(
                    0,
                    i + 1,
                ));
            }
            assert(seed@.subrange(0, i + 1).drop_last() =~= seed@.subrange(0, i as int));
        }
        i = i + 1;
    }
    proof {
        assert(seed@.subrange(0, n as int) =~= seed@);
    }
    Some((h % (len as u64)) as usize)
}

/// The seed of the daily random-delight draw: the day number of the call
/// time joined with a fixed label, so that the seed changes only when the
/// UTC day changes.
pub open spec fn spec_delight_seed(ts: int) -> Seq<char> {
    spec_i64_digits(spec_day_number(ts)) + ":random_delight"@
}

fn delight_seed(now_ts: i64) -> (s: String)
    ensures
        s@ == spec_delight_seed(now_ts as int),
{
    let mut s = i64_to_string(day_number(now_ts));
    s.append(":random_delight");
    s
}

/// The random-delight draw depends on the calendar day alone: two call
/// times of one unix day build the same seed and therefore pick the same
/// index from a pool of any given size.
pub proof fn lemma_delight_pick_stable(t1: int, t2: int, len: int)
    requires
        spec_day_number(t1) == spec_day_number(t2),
    ensures
        spec_delight_seed(t1) == spec_delight_seed(t2),
        spec_stable_pick(spec_delight_seed(t1), len) == spec_stable_pick(
            spec_delight_seed(t2),
            len,
        ),
{
}

/// Activity time of a record handed across the boundary: when it was last
/// opened, else when it was last modified.
pub fn activity_timestamp(file: &FileInfo) -> (r: i64)
    ensures
        r == file.spec_activity(),
{
    match file.last_opened_at {
        Some(t) => t,
        None => file.modified_at,
    }
}

fn row_activity(row: &FileRow) -> (r: i64)
    ensures
        r == row.spec_activity(),
{
    match row.last_opened_at {
        Some(t) => t,
        None => row.modified_at,
    }
}

/// The shorter way around the year between two day-of-year values.
pub open spec fn spec_wraparound_diff(a: int, b: int, year_days: int) -> int {
    let d = if a > b {
        a - b
    } else {
        b - a
    };
    let other = if year_days >= d {
        year_days - d
    } else {
        0
    };
    if d <= other {
        d
    } else {
        other
    }
}

/// Wraparound day-of-year distance: the plain distance or its complement
/// around the year, whichever is shorter.
pub fn wraparound_day_diff(a: u32, b: u32, year_days: u32) -> (r: u32)
    ensures
        r == spec_wraparound_diff(a as int, b as int, year_days as int),
{
    let diff = if a > b {
        a - b
    } else {
        b - a
    };
    let wrapped = if year_days >= diff {
        year_days - diff
    } else {
        0
    };
    if diff <= wrapped {
        diff
    } else {
        wrapped
    }
}

/// The explanation attached to a forgotten record.
pub open spec fn spec_asleep_text(days: int) -> Seq<char> {
    "Asleep for ~"@ + spec_u64_digits(days) + " days"@
}

fn asleep_text(days: u64) -> (s: String)
    ensures
        s@ == spec_asleep_text(days as int),
{
    let mut s = "Asleep for ~".to_owned();
    let digits = u64_to_string(days);
    s.append(digits.as_str());
    s.append(" days");
    s
}

/// The explanation attached to a seasonal echo.
pub open spec fn spec_seasonal_text(dist: int) -> Seq<char> {
    "A similar season (±"@ + spec_u64_digits(dist) + " days)"@
}

fn seasonal_text(dist: u32) -> (s: String)
    ensures
        s@ == spec_seasonal_text(dist as int),
{
    let mut s = "A similar season (±".to_owned();
    let digits = u64_to_string(dist as u64);
    s.append(digits.as_str());
    s.append(" days)");
    s
}

/// Some record is idle beyond the forgotten threshold.
pub open spec fn spec_has_forgotten(ix: FileIndex, now: int) -> bool {
    exists|j: int|
        0 <= j < ix.files@.len() && spec_sat_sub(
            now,
            (#[trigger] ix.files@[j]).spec_activity(),
        ) > FORGOTTEN_SECS as int
}

/// The report carries a live row of minimal activity time, idle beyond the
/// forgotten threshold, with the asleep-days explanation.
pub open spec fn spec_is_oldest_forgotten(ix: FileIndex, rf: ResurfacedFile, now: int) -> bool {
    exists|j: int|
        {
            &&& 0 <= j < ix.files@.len()
            &&& spec_info_matches_row(rf.file, #[trigger] ix.files@[j])
            &&& spec_sat_sub(now, ix.files@[j].spec_activity()) > FORGOTTEN_SECS as int
            &&& (forall|j2: int|
                0 <= j2 < ix.files@.len() ==> (#[trigger] ix.files@[j2]).spec_activity()
                    >= ix.files@[j].spec_activity())
            &&& (forall|j2: int|
                (0 <= j2 < ix.files@.len() && (#[trigger] ix.files@[j2]).spec_activity()
                    == ix.files@[j].spec_activity()) ==> j <= j2)
            &&& rf.explanation@ == spec_asleep_text(
                spec_asleep_days(now, ix.files@[j].spec_activity()),
            )
        }
}

/// The report carries a live row with the asleep-days explanation of that
/// row (forgotten head pick and fill slots alike).
pub open spec fn spec_is_forgotten_report(ix: FileIndex, rf: ResurfacedFile, now: int) -> bool {
    exists|j: int|
        {
            &&& 0 <= j < ix.files@.len()
            &&& spec_info_matches_row(rf.file, #[trigger] ix.files@[j])
            &&& rf.explanation@ == spec_asleep_text(
                spec_asleep_days(now, ix.files@[j].spec_activity()),
            )
        }
}

/// A leap year on the Gregorian calendar: divisible by four, except that
/// century years must divide by four hundred.
pub open spec fn spec_is_leap_year(y: int) -> bool {
    y % 4 == 0 && (y % 100 != 0 || y % 400 == 0)
}

/// The length of the current year: 366 days in leap years, else 365.
pub open spec fn spec_year_days(now: int) -> int {
    if spec_is_leap_year(spec_utc_year(now)) {
        366
    } else {
        365
    }
}

/// Wraparound day-of-year distance between a row's modification time and
/// the call time.
pub open spec fn spec_seasonal_dist(ix: FileIndex, j: int, now: int) -> int {
    spec_wraparound_diff(
        spec_utc_day_of_year(now),
        spec_utc_day_of_year(ix.files@[j].modified_at as int),
        spec_year_days(now),
    )
}

/// Seasonal candidacy of row `j`: a modification time on the calendar the
/// wrappers are relied upon for, within the seasonal window of today, and
/// old enough.
pub open spec fn spec_seasonal_candidate(ix: FileIndex, j: int, now: int) -> bool {
    &&& 0 <= j < ix.files@.len()
    &&& 0 <= ix.files@[j].modified_at <= MAX_CIVIL_TS
    &&& spec_seasonal_dist(ix, j, now) <= SEASON_WINDOW_DAYS as int
    &&& spec_sat_sub(now, ix.files@[j].modified_at as int) >= SEASON_AGE_SECS as int
}

/// A path already carried by one of the earlier recommendations.
pub open spec fn spec_used(rs: Seq<ResurfacedFile>, p: Seq<char>) -> bool {
    exists|i: int| 0 <= i < rs.len() && (#[trigger] rs[i]).file.path@ == p
}

/// The report carries a seasonal candidate of minimal day-of-year distance
/// (ties broken toward the older activity time) among the candidates not
/// already recommended, with the distance explanation.
pub open spec fn spec_is_seasonal_pick(
    ix: FileIndex,
    rf: ResurfacedFile,
    now: int,
    prior: Seq<ResurfacedFile>,
) -> bool {
    exists|j: int|
        {
            &&& spec_seasonal_candidate(ix, j, now)
            &&& spec_info_matches_row(rf.file, #[trigger] ix.files@[j])
            &&& rf.explanation@ == spec_seasonal_text(spec_seasonal_dist(ix, j, now))
            &&& (forall|j2: int|
                (spec_seasonal_candidate(ix, j2, now) && !spec_used(
                    prior,
                    (#[trigger] ix.files@[j2]).path@,
                )) ==> (spec_seasonal_dist(ix, j, now) < spec_seasonal_dist(ix, j2, now)
                    || (spec_seasonal_dist(ix, j, now) == spec_seasonal_dist(ix, j2, now)
                        && ix.files@[j].spec_activity() < ix.files@[j2].spec_activity())
                    || (spec_seasonal_dist(ix, j, now) == spec_seasonal_dist(ix, j2, now)
                        && ix.files@[j].spec_activity() == ix.files@[j2].spec_activity()
                        && j <= j2)))
        }
}

/// The report carries a live row idle beyond a week, with the fixed
/// delight phrase.
pub open spec fn spec_is_delight_pick(ix: FileIndex, rf: ResurfacedFile, now: int) -> bool {
    exists|j: int|
        {
            &&& 0 <= j < ix.files@.len()
            &&& spec_info_matches_row(rf.file, #[trigger] ix.files@[j])
            &&& spec_sat_sub(now, ix.files@[j].spec_activity()) > DELIGHT_SECS as int
            &&& rf.explanation@ == "A surprise to spark momentum"@
        }
}

/// A record the random-delight draw may choose: idle beyond a week and
/// not already recommended.
pub open spec fn spec_delight_eligible(
    ix: FileIndex,
    j: int,
    now: int,
    used: Seq<ResurfacedFile>,
) -> bool {
    &&& 0 <= j < ix.files@.len()
    &&& spec_sat_sub(now, ix.files@[j].spec_activity()) > DELIGHT_SECS as int
    &&& !spec_used(used, ix.files@[j].path@)
}

/// Idleness order on rows: older activity first, ties toward the lower
/// row position.
pub open spec fn spec_lex_before(ix: FileIndex, j1: int, j2: int) -> bool {
    ||| ix.files@[j1].spec_activity() < ix.files@[j2].spec_activity()
    ||| (ix.files@[j1].spec_activity() == ix.files@[j2].spec_activity() && j1 < j2)
}

/// The random-delight candidate pool: exactly the eligible rows, listed in
/// idleness order. These conditions pin the sequence uniquely.
pub open spec fn spec_is_delight_pool(
    ix: FileIndex,
    now: int,
    used: Seq<ResurfacedFile>,
    pool: Seq<int>,
) -> bool {
    &&& (forall|t: int|
        0 <= t < pool.len() ==> spec_delight_eligible(ix, #[trigger] pool[t], now, used))
    &&& (forall|t1: int, t2: int|
        0 <= t1 < t2 < pool.len() ==> spec_lex_before(ix, #[trigger] pool[t1], #[trigger] pool[t2]))
    &&& (forall|j: int| spec_delight_eligible(ix, j, now, used) ==> pool.contains(j))
}

/// The report is the day-seed's draw from the delight pool left by the
/// earlier recommendations: the pool element at the seed's stable index.
pub open spec fn spec_pinned_delight(
    ix: FileIndex,
    rf: ResurfacedFile,
    now: int,
    prior: Seq<ResurfacedFile>,
) -> bool {
    exists|pool: Seq<int>|
        {
            &&& #[trigger] spec_is_delight_pool(ix, now, prior, pool)
            &&& pool.len() > 0
            &&& spec_info_matches_row(
                rf.file,
                ix.files@[pool[spec_stable_pick(spec_delight_seed(now), pool.len() as int)]],
            )
        }
}

/// Saturated subtraction shrinks when the subtrahend grows.
proof fn lemma_sat_sub_monotone(a: int, b1: int, b2: int)
    requires
        b1 <= b2,
    ensures
        spec_sat_sub(a, b1) >= spec_sat_sub(a, b2),
{
}

spec fn ind_before(p: Option<usize>, k: int) -> int {
    match p {
        Some(x) => if x < k {
            1int
        } else {
            0int
        },
        None => 0int,
    }
}

spec fn is_pick_pos(v: int, pf: Option<usize>, ps: Option<usize>, pd: Option<usize>) -> bool {
    ||| (match pf {
        Some(p) => v == p as int,
        None => false,
    })
    ||| (match ps {
        Some(p) => v == p as int,
        None => false,
    })
    ||| (match pd {
        Some(p) => v == p as int,
        None => false,
    })
}

spec fn ind_is_some(p: Option<usize>) -> int {
    match p {
        Some(_) => 1int,
        None => 0int,
    }
}

proof fn lemma_reason_literals_distinct()
    ensures
        "Forgotten"@ != "Seasonal Echo"@,
        "Forgotten"@ != "Random Delight"@,
        "Seasonal Echo"@ != "Random Delight"@,
{
    reveal_strlit("Forgotten");
    reveal_strlit("Seasonal Echo");
    reveal_strlit("Random Delight");
    assert("Forgotten"@.len() == 9);
    assert("Seasonal Echo"@.len() == 13);
    assert("Random Delight"@.len() == 14);
}

proof fn lemma_seasonal_scan_minimal(
    ix: &FileIndex,
    order: Seq<(i64, usize)>,
    pairs: Seq<(i64, usize)>,
    now: int,
    pf: Option<usize>,
    prior: Seq<ResurfacedFile>,
    d: int,
    a: int,
    pos: int,
)
    requires
        ix.wf(),
        order.len() == ix.files@.len(),
        order.len() <= usize::MAX,
        pairs.len() == ix.files@.len(),
        forall|t: int|
            0 <= t < order.len() ==> (#[trigger] order[t]).1 < order.len() && order[t]
                == pairs[order[t].1 as int],
        forall|t: int|
            0 <= t < pairs.len() ==> (#[trigger] pairs[t]).0 == ix.files@[t].spec_activity()
                && pairs[t].1 == t,
        forall|j: int| 0 <= j < pairs.len() ==> order.contains(#[trigger] pairs[j]),
        0 <= pos < order.len(),
        order[pos].0 as int == a,
        forall|t1: int, t2: int|
            0 <= t1 < t2 < order.len() ==> (#[trigger] order[t1]).0 <= (#[trigger] order[t2]).0,
        forall|t1: int, t2: int|
            (0 <= t1 < t2 < order.len() && (#[trigger] order[t1]).0 == (#[trigger] order[t2]).0)
                ==> order[t1].1 < order[t2].1,
        forall|t: int|
            (0 <= t < order.len() && Some(t as usize) != pf && spec_seasonal_candidate(
                *ix,
                (#[trigger] order[t]).1 as int,
                now,
            )) ==> (d < spec_seasonal_dist(*ix, order[t].1 as int, now) || (d
                == spec_seasonal_dist(*ix, order[t].1 as int, now) && a
                < ix.files@[order[t].1 as int].spec_activity()) || (d == spec_seasonal_dist(
                *ix,
                order[t].1 as int,
                now,
            ) && a == ix.files@[order[t].1 as int].spec_activity() && pos <= t)),
        match pf {
            Some(p) => p == 0usize && prior.len() == 1 && prior[0].file.path@ == ix.files@[order[0].1 as int].path@,
            None => prior.len() == 0,
        },
    ensures
        forall|j2: int|
            (spec_seasonal_candidate(*ix, j2, now) && !spec_used(
                prior,
                (#[trigger] ix.files@[j2]).path@,
            )) ==> (d < spec_seasonal_dist(*ix, j2, now) || (d == spec_seasonal_dist(
                *ix,
                j2,
                now,
            ) && a < ix.files@[j2].spec_activity()) || (d == spec_seasonal_dist(*ix, j2, now)
                && a == ix.files@[j2].spec_activity() && order[pos].1 as int <= j2)),
{
    assert forall|j2: int|
        (spec_seasonal_candidate(*ix, j2, now) && !spec_used(
            prior,
            (#[trigger] ix.files@[j2]).path@,
        )) implies (d < spec_seasonal_dist(*ix, j2, now) || (d == spec_seasonal_dist(
        *ix,
        j2,
        now,
    ) && a < ix.files@[j2].spec_activity()) || (d == spec_seasonal_dist(*ix, j2, now) && a
        == ix.files@[j2].spec_activity() && order[pos].1 as int <= j2)) by {
        assert(order.contains(pairs[j2]));
        let t = choose|t: int| 0 <= t < order.len() && order[t] == pairs[j2];
        assert(order[t].1 as int == j2);
        if Some(t as usize) == pf {
            assert(t as usize as int == t);
            assert(t == 0);
            assert(prior[0].file.path@ == ix.files@[j2].path@);
            assert(spec_used(prior, ix.files@[j2].path@));
            assert(false);
        }
        if d == spec_seasonal_dist(*ix, j2, now) && a == ix.files@[j2].spec_activity() && pos
            <= t {
            assert(order[t].0 as int == a);
            if pos < t {
                assert(order[pos].0 == order[t].0);
                assert(order[pos].1 < order[t].1);
            }
        }
    }
}

proof fn lemma_delight_pinned(
    ix: &FileIndex,
    now: int,
    limit: int,
    order: Seq<(i64, usize)>,
    pairs: Seq<(i64, usize)>,
    pool: Seq<usize>,
    pf: Option<usize>,
    ps: Option<usize>,
    rows: Seq<int>,
    prior: Seq<ResurfacedFile>,
    si: int,
    rf: ResurfacedFile,
    pick: int,
)
    requires
        ix.wf(),
        ix.files@.len() <= POOL_CEILING,
        limit == ix.files@.len(),
        order.len() == ix.files@.len(),
        order.len() <= usize::MAX,
        pairs.len() == ix.files@.len(),
        forall|t: int|
            0 <= t < order.len() ==> (#[trigger] order[t]).1 < order.len() && order[t]
                == pairs[order[t].1 as int],
        forall|t: int|
            0 <= t < pairs.len() ==> (#[trigger] pairs[t]).0 == ix.files@[t].spec_activity()
                && pairs[t].1 == t,
        forall|t1: int, t2: int|
            0 <= t1 < t2 < order.len() ==> (#[trigger] order[t1]).1 != (#[trigger] order[t2]).1,
        forall|t1: int, t2: int|
            0 <= t1 < t2 < order.len() ==> (#[trigger] order[t1]).0 <= (#[trigger] order[t2]).0,
        forall|t1: int, t2: int|
            (0 <= t1 < t2 < order.len() && (#[trigger] order[t1]).0 == (#[trigger] order[t2]).0)
                ==> order[t1].1 < order[t2].1,
        forall|j: int| 0 <= j < pairs.len() ==> order.contains(#[trigger] pairs[j]),
        forall|t: int| 0 <= t < pool.len() ==> (#[trigger] pool[t]) < limit,
        forall|t1: int, t2: int|
            0 <= t1 < t2 < pool.len() ==> (#[trigger] pool[t1]) < (#[trigger] pool[t2]),
        forall|t: int| 0 <= t < pool.len() ==> Some(#[trigger] pool[t]) != pf && Some(pool[t]) != ps,
        forall|t: int|
            0 <= t < pool.len() ==> spec_sat_sub(
                now,
                ix.files@[order[(#[trigger] pool[t]) as int].1 as int].spec_activity(),
            ) > DELIGHT_SECS as int,
        forall|t: int|
            (0 <= t < limit && Some(t as usize) != pf && Some(t as usize) != ps && spec_sat_sub(
                now,
                (#[trigger] order[t]).0 as int,
            ) > DELIGHT_SECS as int) ==> pool.contains(t as usize),
        prior.len() == rows.len(),
        forall|w: int|
            0 <= w < prior.len() ==> 0 <= #[trigger] rows[w] < ix.files@.len()
                && spec_info_matches_row(prior[w].file, ix.files@[rows[w]]),
        match pf {
            Some(p) => p == 0usize && 0 < prior.len() && rows[0] == order[0].1 as int,
            None => true,
        },
        match ps {
            Some(p) => (p as int) < limit && 0 <= si < prior.len() && rows[si] == order[p as int].1 as int,
            None => true,
        },
        forall|w: int|
            0 <= w < prior.len() ==> ((match pf {
                Some(_) => #[trigger] rows[w] == order[0].1 as int,
                None => false,
            }) || (match ps {
                Some(p) => rows[w] == order[p as int].1 as int,
                None => false,
            })),
        0 <= pick < pool.len(),
        pick == spec_stable_pick(spec_delight_seed(now), pool.len() as int),
        spec_info_matches_row(rf.file, ix.files@[order[pool[pick] as int].1 as int]),
    ensures
        spec_pinned_delight(*ix, rf, now, prior),
{
    let pool_rows = Seq::new(pool.len() as nat, |t: int| order[pool[t] as int].1 as int);
    assert forall|t: int|
        0 <= t < pool_rows.len() implies spec_delight_eligible(
        *ix,
        #[trigger] pool_rows[t],
        now,
        prior,
    ) by {
        let pt = pool[t] as int;
        assert(pool_rows[t] == order[pt].1 as int);
        if spec_used(prior, ix.files@[pool_rows[t]].path@) {
            let w = choose|w: int|
                0 <= w < prior.len() && (#[trigger] prior[w]).file.path@
                    == ix.files@[pool_rows[t]].path@;
            assert(ix.files@[rows[w]].path@ == ix.files@[pool_rows[t]].path@);
            assert(rows[w] == pool_rows[t]);
            if pf is Some && rows[w] == order[0].1 as int {
                assert(pt != 0);
                assert(order[pt].1 != order[0].1);
                assert(false);
            } else {
                let p = ps->Some_0;
                assert(rows[w] == order[p as int].1 as int);
                assert(pt != p as int);
                assert(order[pt].1 != order[p as int].1);
                assert(false);
            }
        }
    }
    assert forall|t1: int, t2: int|
        0 <= t1 < t2 < pool_rows.len() implies spec_lex_before(
        *ix,
        #[trigger] pool_rows[t1],
        #[trigger] pool_rows[t2],
    ) by {
        let p1 = pool[t1] as int;
        let p2 = pool[t2] as int;
        assert(p1 < p2);
        assert(order[p1].0 <= order[p2].0);
        assert(order[p1].0 == ix.files@[pool_rows[t1]].spec_activity());
        assert(order[p2].0 == ix.files@[pool_rows[t2]].spec_activity());
        if order[p1].0 == order[p2].0 {
            assert(order[p1].1 < order[p2].1);
        }
    }
    assert forall|j2: int| spec_delight_eligible(*ix, j2, now, prior) implies pool_rows.contains(
        j2,
    ) by {
        assert(order.contains(pairs[j2]));
        let t = choose|t: int| 0 <= t < order.len() && order[t] == pairs[j2];
        assert(order[t].1 as int == j2);
        assert(t < limit);
        if Some(t as usize) == pf {
            assert(t as usize as int == t);
            assert(rows[0] == order[t].1 as int);
            assert(prior[0].file.path@ == ix.files@[j2].path@);
            assert(spec_used(prior, ix.files@[j2].path@));
            assert(false);
        }
        if Some(t as usize) == ps {
            assert(t as usize as int == t);
            assert(rows[si] == order[t].1 as int);
            assert(prior[si].file.path@ == ix.files@[j2].path@);
            assert(spec_used(prior, ix.files@[j2].path@));
            assert(false);
        }
        assert(spec_sat_sub(now, order[t].0 as int) > DELIGHT_SECS as int);
        assert(pool.contains(t as usize));
        let w = choose|w: int| 0 <= w < pool.len() && (#[trigger] pool[w]) == t as usize;
        assert(pool_rows[w] == j2);
    }
    assert(spec_is_delight_pool(*ix, now, prior, pool_rows));
    assert(pool_rows[pick] == order[pool[pick] as int].1 as int);
    assert(spec_info_matches_row(
        rf.file,
        ix.files@[pool_rows[spec_stable_pick(spec_delight_seed(now), pool_rows.len() as int)]],
    ));
}

fn push_report(
    r: &mut Vec<ResurfacedFile>,
    ix: &FileIndex,
    row_index: usize,
    reason: &str,
    explanation: String,
)
    requires
        row_index < ix.files@.len(),
    ensures
        final(r)@.len() == old(r)@.len() + 1,
        final(r)@ == old(r)@.push(final(r)@[old(r)@.len() as int]),
        forall|i: int| 0 <= i < old(r)@.len() ==> #[trigger] final(r)@[i] == old(r)@[i],
        spec_info_matches_row(
            final(r)@[old(r)@.len() as int].file,
            ix.files@[row_index as int],
        ),
        final(r)@[old(r)@.len() as int].reason@ == reason@,
        final(r)@[old(r)@.len() as int].explanation@ == explanation@,
{
    let file = file_info_of_row(&ix.files[row_index]);
    let entry = ResurfacedFile { file, reason: reason.to_owned(), explanation };
    r.push(entry);
    proof {
        assert(final(r)@ =~= old(r)@.push(final(r)@[old(r)@.len() as int]));
    }
}

/// Selects up to `count` (clamped to 1 through 12) previously idle records
/// to surface: the longest-forgotten record first, then the closest
/// seasonal echo, then a deterministic daily surprise, and finally the
/// oldest remaining records until the count is reached. Pure in the
/// snapshot and the call time; an empty index gives an empty list.
#[verifier::rlimit(100)]pub fn get_resurfaced_files(ix: &FileIndex, now_ts: i64, count: usize) -> (r: Vec<ResurfacedFile>)
    requires
        ix.wf(),
    ensures
        r@.len() == if spec_clamp_count(count as int) <= ix.files@.len() {
            spec_clamp_count(count as int)
        } else {
            ix.files@.len() as int
        },
        forall|i: int| 0 <= i < r@.len() ==> spec_reports_live_row(*ix, (#[trigger] r@[i]).file),
        forall|i1: int, i2: int|
            0 <= i1 < i2 < r@.len() ==> (#[trigger] r@[i1]).file.path@ != (#[trigger] r@[i2]).file.path@,
        forall|i: int|
            0 <= i < r@.len() ==> ((#[trigger] r@[i]).reason@ == "Forgotten"@ || r@[i].reason@
                == "Seasonal Echo"@ || r@[i].reason@ == "Random Delight"@),
        forall|i: int|
            (0 <= i < r@.len() && (#[trigger] r@[i]).reason@ == "Forgotten"@)
                ==> spec_is_forgotten_report(*ix, r@[i], now_ts as int),
        spec_has_forgotten(*ix, now_ts as int) ==> r@.len() > 0 && r@[0].reason@ == "Forgotten"@
            && spec_is_oldest_forgotten(*ix, r@[0], now_ts as int),
        forall|i1: int, i2: int|
            0 <= i1 < i2 < r@.len() ==> !((#[trigger] r@[i1]).reason@ == "Seasonal Echo"@ && (
            #[trigger] r@[i2]).reason@ == "Seasonal Echo"@),
        forall|i1: int, i2: int|
            0 <= i1 < i2 < r@.len() ==> !((#[trigger] r@[i1]).reason@ == "Random Delight"@ && (
            #[trigger] r@[i2]).reason@ == "Random Delight"@),
        (0 <= now_ts <= MAX_CIVIL_TS && ix.files@.len() <= POOL_CEILING) ==> (forall|i: int|
            (0 <= i < r@.len() && (#[trigger] r@[i]).reason@ == "Seasonal Echo"@)
                ==> spec_is_seasonal_pick(*ix, r@[i], now_ts as int, r@.subrange(0, i))),
        forall|i: int|
            (0 <= i < r@.len() && (#[trigger] r@[i]).reason@ == "Random Delight"@)
                ==> spec_is_delight_pick(*ix, r@[i], now_ts as int),
        ix.files@.len() <= POOL_CEILING ==> (forall|i: int|
            (0 <= i < r@.len() && (#[trigger] r@[i]).reason@ == "Random Delight"@)
                ==> spec_pinned_delight(*ix, r@[i], now_ts as int, r@.subrange(0, i))),
        0 <= now_ts <= MAX_CIVIL_TS ==> ((forall|i: int|
            0 <= i < r@.len() ==> (#[trigger] r@[i]).reason@ != "Seasonal Echo"@) ==> (r@.len()
            == spec_clamp_count(count as int) || (forall|j: int|
            #[trigger] spec_seasonal_candidate(*ix, j, now_ts as int) ==> spec_used(
                r@,
                ix.files@[j].path@,
            )))),
        (forall|i: int| 0 <= i < r@.len() ==> (#[trigger] r@[i]).reason@ != "Random Delight"@)
            ==> (r@.len() == spec_clamp_count(count as int) || (forall|j: int|
            (0 <= j < ix.files@.len() && spec_sat_sub(
                now_ts as int,
                (#[trigger] ix.files@[j]).spec_activity(),
            ) > DELIGHT_SECS as int) ==> spec_used(r@, ix.files@[j].path@))),
{
    let count = clamp_count(count);
    let n = ix.files.len();
    let mut r: Vec<ResurfacedFile> = Vec::new();
    if n == 0 {
        proof {
            assert(!spec_has_forgotten(*ix, now_ts as int));
        }
        return r;
    }
    let mut pairs: Vec<(i64, usize)> = Vec::new();
    let mut j: usize = 0;
    while j < n
        invariant
            n == ix.files@.len(),
            j <= n,
            pairs@.len() == j,
            forall|t: int|
                0 <= t < j ==> (#[trigger] pairs@[t]).0 == ix.files@[t].spec_activity()
                    && pairs@[t].1 == t,
        decreases n - j,
    {
        pairs.push((row_activity(&ix.files[j]), j));
        j = j + 1;
    }
    let order = sort_pairs_asc(&pairs);
    let limit = if n > POOL_CEILING {
        POOL_CEILING
    } else {
        n
    };
    let ghost mut rows: Seq<int> = Seq::empty();
    let ghost mut posmap: Seq<int> = Seq::empty();

    // every row's activity is at least the head of the idleness order,
    // and on equal activity the head row has the least position
    proof {
        assert forall|j2: int|
            0 <= j2 < n implies (#[trigger] ix.files@[j2]).spec_activity() >= order@[0].0 by {
            assert(order@.contains(pairs@[j2]));
            let t = choose|t: int| 0 <= t < order@.len() && order@[t] == pairs@[j2];
            assert(order@[0].0 <= order@[t].0);
        }
        assert forall|j2: int|
            (0 <= j2 < n && (#[trigger] ix.files@[j2]).spec_activity() == order@[0].0 as int)
            implies order@[0].1 <= j2 by {
            assert(order@.contains(pairs@[j2]));
            let t = choose|t: int| 0 <= t < order@.len() && order@[t] == pairs@[j2];
            if t > 0 {
                assert(order@[0].0 == order@[t].0);
                assert(order@[0].1 < order@[t].1);
            }
        }
    }

    // forgotten: the record of minimal activity time, when idle long enough
    let mut pf: Option<usize> = None;
    let head_act = order[0].0;
    let head_row = order[0].1;
    if sat_sub_i64(now_ts, head_act) > FORGOTTEN_SECS {
        let days = asleep_days(now_ts, head_act);
        let text = asleep_text(days);
        push_report(&mut r, ix, head_row, "Forgotten", text);
        pf = Some(0);
        proof {
            rows = rows.push(head_row as int);
            posmap = posmap.push(0);
            assert(spec_is_oldest_forgotten(*ix, r@[0], now_ts as int));
            assert(spec_is_forgotten_report(*ix, r@[0], now_ts as int));
            assert(spec_has_forgotten(*ix, now_ts as int));
        }
    } else {
        proof {
            assert forall|j2: int|
                0 <= j2 < n implies !(spec_sat_sub(
                now_ts as int,
                (#[trigger] ix.files@[j2]).spec_activity(),
            ) > FORGOTTEN_SECS as int) by {
                lemma_sat_sub_monotone(
                    now_ts as int,
                    head_act as int,
                    ix.files@[j2].spec_activity(),
                );
            }
            assert(!spec_has_forgotten(*ix, now_ts as int));
        }
    }
    let ghost r_after_forgotten = r@;

    // seasonal echo: the candidate of minimal wraparound distance
    let mut ps: Option<usize> = None;
    let ghost mut si: int = -1;
    let ghost mut seasonal_scan_clear: bool = false;
    if 0 <= now_ts && now_ts <= MAX_CIVIL_TS {
        let today = utc_day_of_year(now_ts).unwrap();
        let year = utc_year(now_ts).unwrap();
        let leap = year.checked_rem_euclid(4).unwrap() == 0 && (year.checked_rem_euclid(100).unwrap()
            != 0 || year.checked_rem_euclid(400).unwrap() == 0);
        let year_days: u32 = if leap {
            366
        } else {
            365
        };
        proof {
            assert(year_days as int == spec_year_days(now_ts as int));
        }
        let mut best: Option<(u32, i64, usize)> = None;
        let mut k: usize = 0;
        while k < limit
            invariant
                n == ix.files@.len(),
                limit <= n,
                order@.len() == n,
                pairs@.len() == n,
                k <= limit,
                today == spec_utc_day_of_year(now_ts as int),
                year_days as int == spec_year_days(now_ts as int),
                forall|t: int|
                    0 <= t < n ==> (#[trigger] order@[t]).1 < n && order@[t] == pairs@[order@[t].1 as int],
                forall|t: int|
                    0 <= t < n ==> (#[trigger] pairs@[t]).0 == ix.files@[t].spec_activity()
                        && pairs@[t].1 == t,
                match best {
                    Some((d, a, pos)) => {
                        &&& (pos as int) < k
                        &&& pf != Some(pos)
                        &&& spec_seasonal_candidate(*ix, order@[pos as int].1 as int, now_ts as int)
                        &&& d as int == spec_seasonal_dist(
                            *ix,
                            order@[pos as int].1 as int,
                            now_ts as int,
                        )
                        &&& a == ix.files@[order@[pos as int].1 as int].spec_activity()
                    },
                    None => true,
                },
                forall|t: int|
                    (0 <= t < k && Some(t as usize) != pf && spec_seasonal_candidate(
                        *ix,
                        (#[trigger] order@[t]).1 as int,
                        now_ts as int,
                    )) ==> match best {
                        Some((d, a, pos)) => (d as int) < spec_seasonal_dist(
                            *ix,
                            order@[t].1 as int,
                            now_ts as int,
                        ) || ((d as int) == spec_seasonal_dist(
                            *ix,
                            order@[t].1 as int,
                            now_ts as int,
                        ) && (a as int) < ix.files@[order@[t].1 as int].spec_activity()) || ((
                        d as int) == spec_seasonal_dist(*ix, order@[t].1 as int, now_ts as int)
                            && a as int == ix.files@[order@[t].1 as int].spec_activity()
                            && (pos as int) <= t),
                        None => false,
                    },
            decreases limit - k,
        {
            let skip = match pf {
                Some(p) => p == k,
                None => false,
            };
            if !skip {
                let row_idx = order[k].1;
                let m = ix.files[row_idx].modified_at;
                if 0 <= m && m <= MAX_CIVIL_TS && sat_sub_i64(now_ts, m) >= SEASON_AGE_SECS {
                    let ord = utc_day_of_year(m).unwrap();
                    let dist = wraparound_day_diff(today, ord, year_days);
                    if dist <= SEASON_WINDOW_DAYS {
                        let act = order[k].0;
                        let better = match best {
                            Some((d, a, _)) => dist < d || (dist == d && act < a),
                            None => true,
                        };
                        if better {
                            best = Some((dist, act, k));
                        }
                    }
                }
            }
            k = k + 1;
        }
        if let Some((dist, act_best, pos)) = best {
            let row_idx = order[pos].1;
            let text = seasonal_text(dist);
            proof {
                si = r@.len() as int;
            }
            push_report(&mut r, ix, row_idx, "Seasonal Echo", text);
            ps = Some(pos);
            proof {
                rows = rows.push(row_idx as int);
                posmap = posmap.push(pos as int);
                assert(r@.subrange(0, si) =~= r_after_forgotten);
                if n <= POOL_CEILING {
                    lemma_seasonal_scan_minimal(
                        ix,
                        order@,
                        pairs@,
                        now_ts as int,
                        pf,
                        r_after_forgotten,
                        dist as int,
                        act_best as int,
                        pos as int,
                    );
                    assert(spec_is_seasonal_pick(*ix, r@[si], now_ts as int, r@.subrange(0, si)));
                }
            }
        } else {
            proof {
                seasonal_scan_clear = (forall|t: int|
                    (0 <= t < limit && Some(t as usize) != pf) ==> !spec_seasonal_candidate(
                        *ix,
                        (#[trigger] order@[t]).1 as int,
                        now_ts as int,
                    ));
                assert(seasonal_scan_clear);
            }
        }
    }

    // random delight: a deterministic daily pick from the idle remainder
    let mut pd: Option<usize> = None;
    let ghost mut di: int = -1;
    let mut pool: Vec<usize> = Vec::new();
    let mut k2: usize = 0;
    while k2 < limit
        invariant
            n == ix.files@.len(),
            limit <= n,
            order@.len() == n,
            pairs@.len() == n,
            k2 <= limit,
            forall|t: int|
                0 <= t < n ==> (#[trigger] order@[t]).1 < n && order@[t] == pairs@[order@[t].1 as int],
            forall|t: int|
                0 <= t < n ==> (#[trigger] pairs@[t]).0 == ix.files@[t].spec_activity()
                    && pairs@[t].1 == t,
            forall|t: int| 0 <= t < pool@.len() ==> (#[trigger] pool@[t]) < k2 && pool@[t] < limit,
            forall|t1: int, t2: int|
                0 <= t1 < t2 < pool@.len() ==> (#[trigger] pool@[t1]) < (#[trigger] pool@[t2]),
            forall|t: int|
                0 <= t < pool@.len() ==> Some(#[trigger] pool@[t]) != pf && Some(pool@[t]) != ps,
            forall|t: int|
                0 <= t < pool@.len() ==> spec_sat_sub(
                    now_ts as int,
                    ix.files@[order@[(#[trigger] pool@[t]) as int].1 as int].spec_activity(),
                ) > DELIGHT_SECS as int,
            forall|t: int|
                (0 <= t < k2 && Some(t as usize) != pf && Some(t as usize) != ps && spec_sat_sub(
                    now_ts as int,
                    (#[trigger] order@[t]).0 as int,
                ) > DELIGHT_SECS as int) ==> pool@.contains(t as usize),
        decreases limit - k2,
    {
        let skip_f = match pf {
            Some(p) => p == k2,
            None => false,
        };
        let skip_s = match ps {
            Some(p) => p == k2,
            None => false,
        };
        if !skip_f && !skip_s {
            if sat_sub_i64(now_ts, order[k2].0) > DELIGHT_SECS {
                let ghost prev = pool@;
                pool.push(k2);
                proof {
                    assert forall|t: int|
                        (0 <= t < k2 + 1 && Some(t as usize) != pf && Some(t as usize) != ps
                            && spec_sat_sub(
                            now_ts as int,
                            (#[trigger] order@[t]).0 as int,
                        ) > DELIGHT_SECS as int) implies pool@.contains(t as usize) by {
                        if t == k2 as int {
                            assert(pool@[pool@.len() - 1] == t as usize);
                        } else {
                            let w = choose|w: int|
                                0 <= w < prev.len() && (#[trigger] prev[w]) == t as usize;
                            assert(pool@[w] == t as usize);
                        }
                    }
                }
            }
        }
        k2 = k2 + 1;
    }
    let seed = delight_seed(now_ts);
    if let Some(pi) = stable_pick_index(seed.as_str(), pool.len()) {
        let pos = pool[pi];
        let row_idx = order[pos].1;
        proof {
            di = r@.len() as int;
        }
        push_report(
            &mut r,
            ix,
            row_idx,
            "Random Delight",
            "A surprise to spark momentum".to_owned(),
        );
        pd = Some(pos);
        proof {
            rows = rows.push(row_idx as int);
            posmap = posmap.push(pos as int);
            assert(spec_is_delight_pick(*ix, r@[di], now_ts as int));
            if n <= POOL_CEILING {
                let prior = r@.subrange(0, di);
                assert forall|w: int|
                    0 <= w < di implies {
                    &&& #[trigger] prior[w] == r@[w]
                    &&& 0 <= rows[w] < n
                    &&& spec_info_matches_row(prior[w].file, ix.files@[rows[w]])
                    &&& ((match pf {
                        Some(_) => rows[w] == order@[0].1 as int,
                        None => false,
                    }) || (match ps {
                        Some(p) => rows[w] == order@[p as int].1 as int,
                        None => false,
                    }))
                } by {
                    assert(w == 0 || w == 1);
                }
                lemma_delight_pinned(
                    ix,
                    now_ts as int,
                    limit as int,
                    order@,
                    pairs@,
                    pool@,
                    pf,
                    ps,
                    rows.subrange(0, di),
                    prior,
                    si,
                    r@[di],
                    pi as int,
                );
                assert(spec_pinned_delight(*ix, r@[di], now_ts as int, prior));
            }
        }
    }
    let ghost r_prefill = r@;
    let ghost posmap_prefill = posmap;
    let base = r.len();
    proof {
        lemma_reason_literals_distinct();
        assert(base as int == ind_is_some(pf) + ind_is_some(ps) + ind_is_some(pd));
        assert(pf is Some && ps is Some ==> pf != ps);
        assert(pf is Some && pd is Some ==> pf != pd);
        assert(ps is Some && pd is Some ==> ps != pd);
        assert(forall|i: int|
            0 <= i < posmap_prefill.len() ==> is_pick_pos(#[trigger] posmap_prefill[i], pf, ps, pd));
        assert(forall|i: int|
            0 <= i < r_prefill.len() ==> ((#[trigger] r_prefill[i]).reason@ == "Forgotten"@
                || r_prefill[i].reason@ == "Seasonal Echo"@ || r_prefill[i].reason@
                == "Random Delight"@));
        assert(forall|i: int|
            (0 <= i < r_prefill.len() && (#[trigger] r_prefill[i]).reason@ == "Seasonal Echo"@)
                ==> i == si);
        assert(forall|i: int|
            (0 <= i < r_prefill.len() && (#[trigger] r_prefill[i]).reason@ == "Random Delight"@)
                ==> i == di);
        assert(forall|i: int|
            (0 <= i < r_prefill.len() && (#[trigger] r_prefill[i]).reason@ == "Forgotten"@)
                ==> spec_is_forgotten_report(*ix, r_prefill[i], now_ts as int));
        assert(r@.subrange(0, base as int) =~= r_prefill);
        assert(posmap.subrange(0, base as int) =~= posmap_prefill);
    }

    // fill: oldest activity first among the records not yet recommended
    let mut k3: usize = 0;
    while k3 < limit && r.len() < count
        invariant
            n == ix.files@.len(),
            1 <= limit <= n,
            order@.len() == n,
            pairs@.len() == n,
            k3 <= limit,
            base == r_prefill.len(),
            base == posmap_prefill.len(),
            base <= r@.len(),
            r@.subrange(0, base as int) == r_prefill,
            posmap.subrange(0, base as int) == posmap_prefill,
            rows.len() == r@.len(),
            posmap.len() == r@.len(),
            forall|t: int|
                0 <= t < n ==> (#[trigger] order@[t]).1 < n && order@[t] == pairs@[order@[t].1 as int],
            forall|t: int|
                0 <= t < n ==> (#[trigger] pairs@[t]).0 == ix.files@[t].spec_activity()
                    && pairs@[t].1 == t,
            forall|i: int|
                0 <= i < posmap_prefill.len() ==> is_pick_pos(
                    #[trigger] posmap_prefill[i],
                    pf,
                    ps,
                    pd,
                ),
            pf is Some && ps is Some ==> pf != ps,
            pf is Some && pd is Some ==> pf != pd,
            ps is Some && pd is Some ==> ps != pd,
            forall|i: int|
                0 <= i < r@.len() ==> 0 <= #[trigger] rows[i] < n && spec_info_matches_row(
                    r@[i].file,
                    ix.files@[rows[i]],
                ),
            forall|i: int|
                0 <= i < r@.len() ==> 0 <= #[trigger] posmap[i] < limit && rows[i] == order@[posmap[i]].1,
            forall|i1: int, i2: int| 0 <= i1 < i2 < r@.len() ==> posmap[i1] != posmap[i2],
            forall|i: int| base <= i < r@.len() ==> #[trigger] posmap[i] < k3,
            forall|i: int|
                base <= i < r@.len() ==> Some((#[trigger] posmap[i]) as usize) != pf && Some(
                    posmap[i] as usize,
                ) != ps && Some(posmap[i] as usize) != pd,
            forall|i: int|
                base <= i < r@.len() ==> (#[trigger] r@[i]).reason@ == "Forgotten"@
                    && r@[i].explanation@ == spec_asleep_text(
                    spec_asleep_days(now_ts as int, ix.files@[rows[i]].spec_activity()),
                ),
            r@.len() as int == base + k3 - ind_before(pf, k3 as int) - ind_before(ps, k3 as int)
                - ind_before(pd, k3 as int),
        decreases limit - k3,
    {
        let skip = match pf {
            Some(p) => p == k3,
            None => false,
        } || match ps {
            Some(p) => p == k3,
            None => false,
        } || match pd {
            Some(p) => p == k3,
            None => false,
        };
        if !skip {
            let row_idx = order[k3].1;
            let act = order[k3].0;
            let days = asleep_days(now_ts, act);
            let text = asleep_text(days);
            push_report(&mut r, ix, row_idx, "Forgotten", text);
            proof {
                rows = rows.push(row_idx as int);
                posmap = posmap.push(k3 as int);
                assert(r@.subrange(0, base as int) =~= r_prefill);
                assert(posmap.subrange(0, base as int) =~= posmap_prefill);
                assert forall|i1: int, i2: int|
                    0 <= i1 < i2 < r@.len() implies posmap[i1] != posmap[i2] by {
                    if i2 == r@.len() - 1 && i1 < base {
                        assert(posmap[i1] == posmap_prefill[i1]);
                        assert(is_pick_pos(posmap[i1], pf, ps, pd));
                    }
                }
            }
        }
        k3 = k3 + 1;
    }
    let ghost r_filled = r@;
    let ghost rows_filled = rows;
    let ghost posmap_filled = posmap;
    proof {
        if ps is Some {
            assert(r_prefill.subrange(0, si) =~= r_after_forgotten);
        }
    }
    r.truncate(count);
    proof {
        lemma_selector_finalize(
            ix,
            now_ts as int,
            count as int,
            limit as int,
            base as int,
            si,
            di,
            k3 as int,
            pf,
            ps,
            pd,
            r_prefill,
            r_after_forgotten,
            r_filled,
            r@,
            rows_filled,
            posmap_filled,
            order@,
        );
        lemma_reason_literals_distinct();
        let cnt = count as int;
        let now = now_ts as int;
        if n <= POOL_CEILING {
            assert forall|i: int|
                (0 <= i < r@.len() && (#[trigger] r@[i]).reason@ == "Random Delight"@)
                implies spec_pinned_delight(*ix, r@[i], now, r@.subrange(0, i)) by {
                assert(i == di);
                assert(pd is Some);
                assert(r@[i] == r_filled[di]);
                assert(r_filled[di] == r_prefill[di]);
                assert(r@.subrange(0, i) =~= r_prefill.subrange(0, di));
            }
        }
        if 0 <= now <= MAX_CIVIL_TS {
            if (forall|i: int|
                0 <= i < r@.len() ==> (#[trigger] r@[i]).reason@ != "Seasonal Echo"@) && r@.len()
                != cnt {
                assert(r@.len() < cnt);
                assert(r@ == r_filled);
                assert(limit == n);
                if ps is Some {
                    assert(r@[si].reason@ == "Seasonal Echo"@);
                    assert(false);
                }
                assert(seasonal_scan_clear);
                assert forall|j: int|
                    #[trigger] spec_seasonal_candidate(*ix, j, now) implies spec_used(
                    r@,
                    ix.files@[j].path@,
                ) by {
                    assert(order@.contains(pairs@[j]));
                    let t = choose|t: int| 0 <= t < order@.len() && order@[t] == pairs@[j];
                    assert(order@[t].1 as int == j);
                    if Some(t as usize) == pf {
                        assert(t == 0);
                        assert(r@[0] == r_prefill[0]);
                        assert(r@[0].file.path@ == ix.files@[j].path@);
                        assert(spec_used(r@, ix.files@[j].path@));
                    } else {
                        assert(!spec_seasonal_candidate(*ix, order@[t].1 as int, now));
                        assert(false);
                    }
                }
            }
        }
        if (forall|i: int|
            0 <= i < r@.len() ==> (#[trigger] r@[i]).reason@ != "Random Delight"@) && r@.len()
            != cnt {
            assert(r@.len() < cnt);
            assert(r@ == r_filled);
            assert(limit == n);
            if pd is Some {
                assert(r@[di].reason@ == "Random Delight"@);
                assert(false);
            }
            assert(pool@.len() == 0);
            assert forall|j: int|
                (0 <= j < n && spec_sat_sub(
                    now,
                    (#[trigger] ix.files@[j]).spec_activity(),
                ) > DELIGHT_SECS as int) implies spec_used(r@, ix.files@[j].path@) by {
                assert(order@.contains(pairs@[j]));
                let t = choose|t: int| 0 <= t < order@.len() && order@[t] == pairs@[j];
                assert(order@[t].1 as int == j);
                assert(order@[t].0 == ix.files@[j].spec_activity());
                if Some(t as usize) == pf {
                    assert(t == 0);
                    assert(r@[0] == r_prefill[0]);
                    assert(r@[0].file.path@ == ix.files@[j].path@);
                    assert(spec_used(r@, ix.files@[j].path@));
                } else if Some(t as usize) == ps {
                    assert(r@[si] == r_prefill[si]);
                    assert(rows_filled[si] == order@[t].1);
                    assert(r@[si].file.path@ == ix.files@[j].path@);
                    assert(spec_used(r@, ix.files@[j].path@));
                } else {
                    assert(pool@.contains(t as usize));
                    assert(false);
                }
            }
        }
    }
    r
}

/// Carries the bookkeeping of [`get_resurfaced_files`] to its contract:
/// the list length, distinctness, and the per-reason claims, all read off
/// the ghost row and position maps that the selector maintained.
#[verifier::rlimit(100)]
proof fn lemma_selector_finalize(
    ix: &FileIndex,
    now: int,
    cnt: int,
    limit: int,
    base: int,
    si: int,
    di: int,
    k_end: int,
    pf: Option<usize>,
    ps: Option<usize>,
    pd: Option<usize>,
    r_prefill: Seq<ResurfacedFile>,
    r_after_forgotten: Seq<ResurfacedFile>,
    r_filled: Seq<ResurfacedFile>,
    r_final: Seq<ResurfacedFile>,
    rows: Seq<int>,
    posmap: Seq<int>,
    order: Seq<(i64, usize)>,
)
    requires
        ix.wf(),
        1 <= limit <= ix.files@.len(),
        limit == if ix.files@.len() > POOL_CEILING {
            POOL_CEILING as int
        } else {
            ix.files@.len() as int
        },
        order.len() == ix.files@.len(),
        1 <= cnt <= 12,
        base == r_prefill.len(),
        base <= 3,
        base <= r_filled.len(),
        r_filled.subrange(0, base) == r_prefill,
        rows.len() == r_filled.len(),
        posmap.len() == r_filled.len(),
        forall|i: int|
            0 <= i < r_filled.len() ==> 0 <= #[trigger] rows[i] < ix.files@.len()
                && spec_info_matches_row(r_filled[i].file, ix.files@[rows[i]]),
        forall|i: int|
            0 <= i < r_filled.len() ==> 0 <= #[trigger] posmap[i] < limit && rows[i]
                == order[posmap[i]].1,
        forall|i1: int, i2: int| 0 <= i1 < i2 < r_filled.len() ==> posmap[i1] != posmap[i2],
        forall|t1: int, t2: int|
            0 <= t1 < t2 < order.len() ==> (#[trigger] order[t1]).1 != (#[trigger] order[t2]).1,
        forall|i: int|
            base <= i < r_filled.len() ==> (#[trigger] r_filled[i]).reason@ == "Forgotten"@
                && r_filled[i].explanation@ == spec_asleep_text(
                spec_asleep_days(now, ix.files@[rows[i]].spec_activity()),
            ),
        r_filled.len() == base + k_end - ind_before(pf, k_end) - ind_before(ps, k_end)
            - ind_before(pd, k_end),
        0 <= k_end <= limit,
        k_end == limit || cnt <= r_filled.len(),
        base == ind_is_some(pf) + ind_is_some(ps) + ind_is_some(pd),
        pf is Some && ps is Some ==> pf != ps,
        pf is Some && pd is Some ==> pf != pd,
        ps is Some && pd is Some ==> ps != pd,
        match pf {
            Some(p) => p == 0usize,
            None => true,
        },
        match ps {
            Some(p) => (p as int) < limit,
            None => true,
        },
        match pd {
            Some(p) => (p as int) < limit,
            None => true,
        },
        forall|i: int|
            0 <= i < r_prefill.len() ==> ((#[trigger] r_prefill[i]).reason@ == "Forgotten"@
                || r_prefill[i].reason@ == "Seasonal Echo"@ || r_prefill[i].reason@
                == "Random Delight"@),
        forall|i: int|
            (0 <= i < r_prefill.len() && (#[trigger] r_prefill[i]).reason@ == "Seasonal Echo"@)
                ==> i == si,
        forall|i: int|
            (0 <= i < r_prefill.len() && (#[trigger] r_prefill[i]).reason@ == "Random Delight"@)
                ==> i == di,
        forall|i: int|
            (0 <= i < r_prefill.len() && (#[trigger] r_prefill[i]).reason@ == "Forgotten"@)
                ==> spec_is_forgotten_report(*ix, r_prefill[i], now),
        spec_has_forgotten(*ix, now) <==> pf is Some,
        pf is Some ==> base >= 1 && r_prefill[0].reason@ == "Forgotten"@
            && spec_is_oldest_forgotten(*ix, r_prefill[0], now),
        (0 <= now <= MAX_CIVIL_TS && ix.files@.len() <= POOL_CEILING && ps is Some) ==> 0 <= si
            < base && spec_is_seasonal_pick(*ix, r_prefill[si], now, r_after_forgotten),
        ps is Some ==> r_prefill.subrange(0, si) == r_after_forgotten,
        ps is None ==> si == -1,
        pd is Some ==> 0 <= di < base && spec_is_delight_pick(*ix, r_prefill[di], now),
        pd is None ==> di == -1,
        r_final == if cnt <= r_filled.len() {
            r_filled.subrange(0, cnt)
        } else {
            r_filled
        },
    ensures
        r_final.len() == if cnt <= ix.files@.len() {
            cnt
        } else {
            ix.files@.len() as int
        },
        forall|i: int|
            0 <= i < r_final.len() ==> spec_reports_live_row(*ix, (#[trigger] r_final[i]).file),
        forall|i1: int, i2: int|
            0 <= i1 < i2 < r_final.len() ==> (#[trigger] r_final[i1]).file.path@ != (
            #[trigger] r_final[i2]).file.path@,
        forall|i: int|
            0 <= i < r_final.len() ==> ((#[trigger] r_final[i]).reason@ == "Forgotten"@
                || r_final[i].reason@ == "Seasonal Echo"@ || r_final[i].reason@
                == "Random Delight"@),
        forall|i: int|
            (0 <= i < r_final.len() && (#[trigger] r_final[i]).reason@ == "Forgotten"@)
                ==> spec_is_forgotten_report(*ix, r_final[i], now),
        spec_has_forgotten(*ix, now) ==> r_final.len() > 0 && r_final[0].reason@ == "Forgotten"@
            && spec_is_oldest_forgotten(*ix, r_final[0], now),
        forall|i1: int, i2: int|
            0 <= i1 < i2 < r_final.len() ==> !((#[trigger] r_final[i1]).reason@
                == "Seasonal Echo"@ && (#[trigger] r_final[i2]).reason@ == "Seasonal Echo"@),
        forall|i1: int, i2: int|
            0 <= i1 < i2 < r_final.len() ==> !((#[trigger] r_final[i1]).reason@
                == "Random Delight"@ && (#[trigger] r_final[i2]).reason@ == "Random Delight"@),
        (0 <= now <= MAX_CIVIL_TS && ix.files@.len() <= POOL_CEILING) ==> (forall|i: int|
            (0 <= i < r_final.len() && (#[trigger] r_final[i]).reason@ == "Seasonal Echo"@)
                ==> spec_is_seasonal_pick(*ix, r_final[i], now, r_final.subrange(0, i))),
        forall|i: int|
            (0 <= i < r_final.len() && (#[trigger] r_final[i]).reason@ == "Random Delight"@)
                ==> spec_is_delight_pick(*ix, r_final[i], now),
        forall|i: int|
            (0 <= i < r_final.len() && (#[trigger] r_final[i]).reason@ == "Seasonal Echo"@) ==> i
                == si,
        forall|i: int|
            (0 <= i < r_final.len() && (#[trigger] r_final[i]).reason@ == "Random Delight"@)
                ==> i == di,
{
    lemma_reason_literals_distinct();
    let n = ix.files@.len() as int;
    assert(r_filled.len() <= limit);
    assert(cnt <= r_filled.len() || (k_end == limit && r_filled.len() == limit)) by {
        if r_filled.len() < cnt {
            assert(k_end == limit);
            assert(ind_before(pf, limit) == ind_is_some(pf));
            assert(ind_before(ps, limit) == ind_is_some(ps));
            assert(ind_before(pd, limit) == ind_is_some(pd));
        }
    }
    assert(r_final.len() == if cnt <= n {
        cnt
    } else {
        n
    }) by {
        if cnt <= r_filled.len() {
            assert(r_final.len() == cnt);
        } else {
            assert(r_filled.len() == limit);
            assert(cnt > limit);
            assert(limit == n);
        }
    }
    assert forall|i: int|
        0 <= i < r_final.len() implies ((#[trigger] r_final[i]).reason@ == "Forgotten"@
        || r_final[i].reason@ == "Seasonal Echo"@ || r_final[i].reason@
        == "Random Delight"@) by {
        assert(r_final[i] == r_filled[i]);
        if i < base {
            assert(r_filled[i] == r_prefill[i]);
        }
    }
    assert forall|i: int| 0 <= i < r_final.len() implies spec_reports_live_row(
        *ix,
        (#[trigger] r_final[i]).file,
    ) by {
        assert(r_final[i] == r_filled[i]);
        assert(spec_info_matches_row(r_final[i].file, ix.files@[rows[i]]));
    }
    assert forall|i1: int, i2: int|
        0 <= i1 < i2 < r_final.len() implies (#[trigger] r_final[i1]).file.path@ != (
    #[trigger] r_final[i2]).file.path@ by {
        assert(r_final[i1] == r_filled[i1] && r_final[i2] == r_filled[i2]);
        assert(posmap[i1] != posmap[i2]);
        assert(rows[i1] == order[posmap[i1]].1);
        assert(rows[i2] == order[posmap[i2]].1);
        assert(rows[i1] != rows[i2]);
        assert(r_final[i1].file.path@ == ix.files@[rows[i1]].path@);
        assert(r_final[i2].file.path@ == ix.files@[rows[i2]].path@);
    }
    assert forall|i: int|
        (0 <= i < r_final.len() && (#[trigger] r_final[i]).reason@ == "Seasonal Echo"@) implies i
        == si by {
        assert(r_final[i] == r_filled[i]);
        if i < base {
            assert(r_filled[i] == r_prefill[i]);
        } else {
            assert(r_filled[i].reason@ == "Forgotten"@);
        }
    }
    assert forall|i: int|
        (0 <= i < r_final.len() && (#[trigger] r_final[i]).reason@ == "Random Delight"@) implies i
        == di by {
        assert(r_final[i] == r_filled[i]);
        if i < base {
            assert(r_filled[i] == r_prefill[i]);
        } else {
            assert(r_filled[i].reason@ == "Forgotten"@);
        }
    }
    assert forall|i: int|
        (0 <= i < r_final.len() && (#[trigger] r_final[i]).reason@ == "Forgotten"@)
        implies spec_is_forgotten_report(*ix, r_final[i], now) by {
        assert(r_final[i] == r_filled[i]);
        if i < base {
            assert(r_filled[i] == r_prefill[i]);
        } else {
            assert(spec_info_matches_row(r_filled[i].file, ix.files@[rows[i]]));
        }
    }
    if spec_has_forgotten(*ix, now) {
        assert(r_final.len() > 0);
        assert(r_final[0] == r_filled[0]);
        assert(r_filled[0] == r_prefill[0]);
    }
    if 0 <= now <= MAX_CIVIL_TS && n <= POOL_CEILING {
        assert forall|i: int|
            (0 <= i < r_final.len() && (#[trigger] r_final[i]).reason@ == "Seasonal Echo"@)
            implies spec_is_seasonal_pick(*ix, r_final[i], now, r_final.subrange(0, i)) by {
            assert(i == si);
            assert(ps is Some);
            assert(r_final[i] == r_filled[i]);
            assert(r_filled[si] == r_prefill[si]);
            assert(r_final.subrange(0, i) =~= r_prefill.subrange(0, si));
        }
    }
    assert forall|i: int|
        (0 <= i < r_final.len() && (#[trigger] r_final[i]).reason@ == "Random Delight"@)
        implies spec_is_delight_pick(*ix, r_final[i], now) by {
        assert(i == di);
        assert(pd is Some);
        assert(r_final[i] == r_filled[i]);
        assert(r_filled[di] == r_prefill[di]);
    }
}

} // verus!
