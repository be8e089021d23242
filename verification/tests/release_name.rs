use chrono::{Datelike, Local, NaiveDate, Weekday};
use xtask::release::{
    latest_release, latest_rc_number, next_release, next_release_date, rc_comment, rc_tag_prefix,
    schedule_in_range, title, ReleaseName, MAX_DAYS, MIN_DAYS, RELEASE_CADENCE_WEEKS,
    RELEASE_EPOCH_DAYS,
};

fn day(y: i32, m: u32, d: u32) -> i32 {
    NaiveDate::from_ymd_opt(y, m, d).unwrap().num_days_from_ce()
}

fn date_of(days: i32) -> NaiveDate {
    NaiveDate::from_num_days_from_ce_opt(days).unwrap()
}

fn today() -> i32 {
    Local::now().date_naive().num_days_from_ce()
}

#[test]
fn epoch_is_a_friday() {
    let epoch = NaiveDate::parse_from_str("2026-05-01", "%Y-%m-%d").unwrap();
    assert_eq!(epoch.num_days_from_ce(), RELEASE_EPOCH_DAYS);
    assert_eq!(date_of(RELEASE_EPOCH_DAYS).weekday(), Weekday::Fri);
}

#[test]
fn next_release_is_a_friday() {
    let date = next_release_date(today());
    assert_eq!(date_of(date).weekday(), Weekday::Fri);
}

#[test]
fn next_release_is_in_the_future() {
    let t = today();
    let date = next_release_date(t);
    assert!(date >= t);
}

#[test]
fn release_name_format() {
    let name = ReleaseName::new(day(2026, 5, 1), 3);
    assert_eq!(name.target(), "2026-05-01");
    assert_eq!(name.rc_tag(), "2026-05-01-rc.3");
    assert_eq!(name.pr_title(), "Release 2026-05-01");
    assert_eq!(name.rc_number(), 3);
}

#[test]
fn release_date_schedule() {
    assert_eq!(RELEASE_CADENCE_WEEKS, 1);
    // Before and on the epoch: the epoch.
    assert_eq!(next_release_date(day(2026, 1, 1)), RELEASE_EPOCH_DAYS);
    assert_eq!(next_release_date(RELEASE_EPOCH_DAYS), RELEASE_EPOCH_DAYS);
    // After it: the next Friday, strictly after the day.
    assert_eq!(next_release_date(day(2026, 5, 2)), day(2026, 5, 8));
    assert_eq!(next_release_date(day(2026, 5, 8)), day(2026, 5, 15));
    assert_eq!(next_release_date(day(2026, 5, 14)), day(2026, 5, 15));
}

#[test]
fn release_date_law_on_examples() {
    for t in [day(2026, 5, 2), day(2027, 2, 28), day(2030, 12, 31)] {
        let r = next_release_date(t);
        assert!(r > t && r <= t + 7);
        assert_eq!(date_of(r).weekday(), Weekday::Fri);
    }
}

#[test]
fn schedule_range() {
    assert!(schedule_in_range(today()));
    assert!(schedule_in_range(MIN_DAYS));
    assert!(!schedule_in_range(MAX_DAYS));
    assert!(NaiveDate::from_num_days_from_ce_opt(MAX_DAYS).is_some());
    assert!(NaiveDate::from_num_days_from_ce_opt(MAX_DAYS + 1).is_none());
    assert!(NaiveDate::from_num_days_from_ce_opt(MIN_DAYS).is_some());
    assert!(NaiveDate::from_num_days_from_ce_opt(MIN_DAYS - 1).is_none());
}

#[test]
fn rc_numbers_from_tags() {
    let tags = "2026-05-01-rc.0\n2026-05-01-rc.2\n2026-05-01-rc.10\n2026-05-01-rc.x\n2026-05-08-rc.40\n";
    assert_eq!(latest_rc_number(tags, "2026-05-01-rc."), Some(10));
    assert_eq!(latest_rc_number("", "2026-05-01-rc."), None);
    let d = day(2026, 5, 1);
    assert_eq!(rc_tag_prefix(d), "2026-05-01-rc.");
    assert_eq!(next_release(d, tags).rc_tag(), "2026-05-01-rc.11");
    assert_eq!(next_release(d, "").rc_tag(), "2026-05-01-rc.0");
    assert_eq!(latest_release(d, tags).unwrap().rc_number(), 10);
    assert!(latest_release(d, "").is_none());
}

#[test]
fn next_rc_is_fresh_example() {
    let d = day(2026, 5, 1);
    let tags = "2026-05-01-rc.7\n2026-05-01-rc.3\n";
    let next = next_release(d, tags);
    assert!(!tags.lines().any(|l| l == next.rc_tag()));
    assert_eq!(next.rc_number(), 8);
}

#[test]
fn rc_tag_reads_back() {
    let d = day(2026, 5, 1);
    let tag = ReleaseName::new(d, 42).rc_tag();
    assert_eq!(latest_rc_number(&tag, &rc_tag_prefix(d)), Some(42));
}

#[test]
fn title_and_comment() {
    let d = day(2026, 5, 8);
    assert_eq!(title(&ReleaseName::new(d, 0)), "Release 2026-05-08");
    assert_eq!(rc_comment(&Some(ReleaseName::new(d, 1)), "abc1234"), "**2026-05-08-rc.1** (abc1234)");
    assert_eq!(rc_comment(&None, "abc1234"), "RC updated (abc1234)");
}

#[test]
fn target_renders_years_outside_four_digits() {
    assert_eq!(ReleaseName::new(1, 0).target(), "0001-01-01");
    assert_eq!(ReleaseName::new(0, 0).target(), "0000-12-31");
    assert_eq!(ReleaseName::new(MIN_DAYS, 0).target(), "-262143-01-01");
    assert_eq!(ReleaseName::new(MAX_DAYS, 0).target(), "+262142-12-31");
    assert_eq!(ReleaseName::new(day(10000, 1, 1), 0).target(), "+10000-01-01");
}
