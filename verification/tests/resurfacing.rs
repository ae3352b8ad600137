use aurora_index::clock::{utc_day_of_year, utc_year};
use aurora_index::extract::entry_to_file_info;
use aurora_index::index::{record_open, upsert_file, FileIndex};
use aurora_index::records::FileInfo;
use aurora_index::resurface::{
    activity_timestamp, get_resurfaced_files, stable_pick_index, wraparound_day_diff,
};

const DAY: i64 = 86400;
// 2024-06-15T12:00:00 UTC
const NOW: i64 = 1718452800;

fn indexed(ix: &mut FileIndex, path: &str, modified: i64, opened: Option<i64>) {
    let f = entry_to_file_info(path.to_string(), 10, Some(modified), Some(modified));
    assert!(upsert_file(ix, &f));
    if let Some(t) = opened {
        record_open(ix, path, t);
    }
}

#[test]
fn empty_index_resurfaces_nothing() {
    let ix = FileIndex::new();
    let r = get_resurfaced_files(&ix, NOW, 3);
    assert_eq!(r.len(), 0);
}

#[test]
fn no_duplicates_and_count_is_clamped() {
    let mut ix = FileIndex::new();
    for i in 0..15 {
        let path = format!("/pool/file{}.txt", i);
        indexed(&mut ix, &path, NOW - (30 + i) * DAY, None);
    }
    let r = get_resurfaced_files(&ix, NOW, 100);
    assert_eq!(r.len(), 12);
    for a in 0..r.len() {
        for b in (a + 1)..r.len() {
            assert_ne!(r[a].file.path, r[b].file.path);
        }
    }
    // a count below the floor is raised to one
    let one = get_resurfaced_files(&ix, NOW, 0);
    assert_eq!(one.len(), 1);
}

#[test]
fn seasonal_wraparound_distance() {
    assert_eq!(wraparound_day_diff(5, 362, 365), 8);
    assert_eq!(wraparound_day_diff(362, 5, 365), 8);
    assert_eq!(wraparound_day_diff(10, 20, 365), 10);
    assert_eq!(wraparound_day_diff(1, 366, 366), 1);
    assert_eq!(wraparound_day_diff(100, 100, 365), 0);
}

#[test]
fn random_delight_is_stable_within_a_day() {
    let mut ix = FileIndex::new();
    for i in 0..8 {
        let path = format!("/idle/file{}.txt", i);
        indexed(&mut ix, &path, NOW - 9 * DAY, Some(NOW - 10 * DAY - i * 100));
    }
    let first = get_resurfaced_files(&ix, NOW, 3);
    let second = get_resurfaced_files(&ix, NOW + 3600, 3);
    let pick1 = first.iter().find(|e| e.reason == "Random Delight").unwrap();
    let pick2 = second.iter().find(|e| e.reason == "Random Delight").unwrap();
    assert_eq!(pick1.file.path, pick2.file.path);
    assert_eq!(pick1.explanation, "A surprise to spark momentum");
}

#[test]
fn single_idle_file_comes_back_forgotten() {
    let mut ix = FileIndex::new();
    indexed(&mut ix, "/lone/note.txt", NOW - 20 * DAY, Some(NOW - 20 * DAY));
    let r = get_resurfaced_files(&ix, NOW, 1);
    assert_eq!(r.len(), 1);
    assert_eq!(r[0].file.path, "/lone/note.txt");
    assert_eq!(r[0].reason, "Forgotten");
    assert_eq!(r[0].explanation, "Asleep for ~20 days");
}

#[test]
fn oldest_activity_wins_the_forgotten_slot() {
    let mut ix = FileIndex::new();
    indexed(&mut ix, "/f/older.txt", NOW - 40 * DAY, Some(NOW - 40 * DAY));
    indexed(&mut ix, "/f/newer.txt", NOW - 16 * DAY, Some(NOW - 16 * DAY));
    let r = get_resurfaced_files(&ix, NOW, 2);
    assert_eq!(r[0].reason, "Forgotten");
    assert_eq!(r[0].file.path, "/f/older.txt");
    assert!(r[0].explanation.contains("40"));
}

#[test]
fn seasonal_echo_finds_the_matching_season() {
    let mut ix = FileIndex::new();
    // modified 2023-06-20T00:00:00 UTC: four days of the year away from NOW
    indexed(&mut ix, "/s/summer.txt", 1687219200, Some(NOW - 2 * DAY));
    // too young to be seasonal, recently opened
    indexed(&mut ix, "/s/recent.txt", NOW - 30 * DAY, Some(NOW - DAY));
    let r = get_resurfaced_files(&ix, NOW, 3);
    assert_eq!(r.len(), 2);
    assert_eq!(r[0].reason, "Seasonal Echo");
    assert_eq!(r[0].file.path, "/s/summer.txt");
    assert_eq!(r[0].explanation, "A similar season (\u{b1}4 days)");
}

#[test]
fn century_years_are_not_leap_years() {
    // 2100-01-03T12:00:00 UTC: 2100 divides by four but not by four hundred,
    // so the year is 365 days long and the wraparound distance from day 363
    // of the previous years is 5, not 6
    let century_now = 4102660800;
    let mut ix = FileIndex::new();
    indexed(&mut ix, "/c/winter.txt", 4070649600, Some(century_now - 2 * DAY));
    let r = get_resurfaced_files(&ix, century_now, 1);
    assert_eq!(r.len(), 1);
    assert_eq!(r[0].reason, "Seasonal Echo");
    assert_eq!(r[0].explanation, "A similar season (\u{b1}5 days)");
}

#[test]
fn fill_slots_are_tagged_forgotten() {
    let mut ix = FileIndex::new();
    indexed(&mut ix, "/fill/a.txt", NOW - 2 * DAY, Some(NOW - 2 * DAY));
    indexed(&mut ix, "/fill/b.txt", NOW - 3 * DAY, Some(NOW - 3 * DAY));
    let r = get_resurfaced_files(&ix, NOW, 5);
    assert_eq!(r.len(), 2);
    assert_eq!(r[0].reason, "Forgotten");
    assert_eq!(r[1].reason, "Forgotten");
    // oldest activity first
    assert_eq!(r[0].file.path, "/fill/b.txt");
    assert!(r[0].explanation.contains("3"));
    assert!(r[1].explanation.contains("2"));
}

#[test]
fn stable_pick_handles_empty_and_small_pools() {
    assert_eq!(stable_pick_index("2024-06-15:random_delight", 0), None);
    let p = stable_pick_index("2024-06-15:random_delight", 5).unwrap();
    assert!(p < 5);
    let q = stable_pick_index("2024-06-15:random_delight", 5).unwrap();
    assert_eq!(p, q);
    assert_eq!(stable_pick_index("anything", 1), Some(0));
}

#[test]
fn activity_prefers_last_opened() {
    let f = entry_to_file_info("/a/x.txt".to_string(), 1, Some(100), Some(200));
    assert_eq!(activity_timestamp(&f), 200);
    let mut g = f;
    g.last_opened_at = Some(900);
    assert_eq!(activity_timestamp(&g), 900);
}

#[test]
fn calendar_wrappers_read_the_utc_calendar() {
    assert_eq!(utc_day_of_year(0), Some(1));
    assert_eq!(utc_year(0), Some(1970));
    // 2024-12-31T00:00:00 UTC, day 366 of a leap year
    assert_eq!(utc_day_of_year(1735603200), Some(366));
    assert_eq!(utc_year(1735603200), Some(2024));
    // NOW is 2024-06-15, day 167
    assert_eq!(utc_day_of_year(NOW), Some(167));
}
