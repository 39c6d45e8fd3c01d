use chrono::{Days, Duration, Local, NaiveDateTime, NaiveTime};
use hvents::time::{sun_instant, sun_phrase, ExecutionPeriod, PeriodEvent, TimeEvent, TimeResult};

fn ms(t: NaiveDateTime) -> i64 {
    t.and_utc().timestamp_millis()
}

fn now_local() -> NaiveDateTime {
    Local::now().naive_local()
}

fn at(now: NaiveDateTime, h: u32, m: u32, s: u32, milli: u32) -> NaiveDateTime {
    now.date().and_time(NaiveTime::from_hms_milli_opt(h, m, s, milli).unwrap())
}

fn time_event(text: &str, now: i64) -> TimeEvent {
    TimeEvent { execute_time: TimeResult::parse(text, now).unwrap(), event_id: None }
}

#[test]
fn test_execution_time_from_json() {
    let now = now_local();
    let data = [
        ("now", now, true),
        ("today", at(now, 0, 0, 0, 0), true),
        ("22:00", at(now, 22, 0, 0, 0), true),
        ("22:00:00", at(now, 22, 0, 0, 999), true),
        ("22:00:01", at(now, 22, 0, 0, 0), false),
        ("22:00:00", at(now, 21, 59, 59, 1), true),
        ("21:59:59", at(now, 22, 0, 0, 0), false),
    ];
    for (time, when, expected) in data {
        let event = time_event(time, ms(now));
        assert_eq!(event.matches(ms(when)), expected, "{time} {event:?} {when}");
    }
}

#[test]
fn test_execution_time_expired_from_json() {
    let now = now_local();
    let data = [
        ("now", now, false),
        ("yesterday 12:00", now, true),
        ("today", at(now, 0, 0, 0, 0), false),
        ("yesterday", at(now, 0, 0, 0, 0), true),
        ("22:00", at(now, 22, 0, 0, 0), false),
        ("21:00", at(now, 22, 0, 0, 0), false),
    ];
    for (time, when, expired) in data {
        let event = time_event(time, ms(now));
        assert_eq!(event.expired(ms(when)), expired, "{time} {event:?}");
    }
}

#[test]
fn test_execution_within_period_from_json() {
    let now = now_local();
    let data = [
        ("a second ago", "in 2 minutes", now, true),
        ("a second ago", "in 2 hours", now, true),
        ("today", "tomorrow", now, true),
        ("22:00", "23:00", at(now, 22, 0, 0, 0), true),
        ("22:00", "23:00", at(now, 22, 59, 59, 0), true),
        ("22:00", "3:00", at(now, 22, 0, 0, 0), true),
        ("22:00", "3:00", at(now, 2, 59, 59, 0), true),
        ("22:00", "3:00", at(now, 3, 0, 0, 0), false),
        ("22:00", "3:00", at(now, 21, 59, 59, 0), false),
        ("22:00", "3:00", at(now, 17, 0, 0, 0), false),
    ];
    for (from, to, when, expected) in data {
        let period = PeriodEvent::new(ExecutionPeriod {
            from: TimeResult::parse(from, ms(now)).unwrap(),
            to: TimeResult::parse(to, ms(now)).unwrap(),
        });
        assert_eq!(period.is_within_period(ms(when)), expected, "{from} {to} {period:?} {when}");
    }
}

#[test]
fn period_gating_round_midnight() {
    let now = now_local();
    let period = PeriodEvent::new(ExecutionPeriod {
        from: TimeResult::parse("22:00", ms(now)).unwrap(),
        to: TimeResult::parse("03:00", ms(now)).unwrap(),
    });
    assert!(period.is_within_period(ms(at(now, 23, 0, 0, 0))));
    assert!(!period.is_within_period(ms(at(now, 17, 0, 0, 0))));
}

#[test]
fn test_time_result_matches() {
    let now = now_local();
    let in_few_seconds = now + Duration::seconds(2);
    let time_of_day = now.time().signed_duration_since(NaiveTime::MIN).num_milliseconds();
    let time = TimeResult::Time(time_of_day, now.time().to_string());
    assert!(time.gte(ms(now)));
    assert!(time.within_execution_period(ms(now)));
    assert!(time.lt(ms(in_few_seconds)));
    assert!(!time.gte(ms(in_few_seconds)));
    assert!(!time.within_execution_period(ms(in_few_seconds)));
    assert!(!time.lt(ms(now)));

    let time = time.reset(ms(now)).unwrap();
    assert!(!time.gte(ms(now)));
    assert!(time.within_execution_period(ms(now)));
    assert!(time.lt(ms(in_few_seconds)));
}

#[test]
fn test_date_result_matches() {
    let now = now_local();
    let tomorrow = now.checked_add_days(Days::new(1)).unwrap().date().and_time(NaiveTime::from_hms_opt(0, 0, 0).unwrap());
    let time = TimeResult::Date(ms(now), "tomorrow".to_string());
    assert!(time.gte(ms(now)));
    assert!(time.within_execution_period(ms(now)));
    assert!(time.lt(ms(now.checked_add_days(Days::new(1)).unwrap())));

    assert!(!time.gte(ms(tomorrow)));
    assert!(!time.within_execution_period(ms(tomorrow)));
    assert!(!time.lt(ms(now)));

    let time = time.reset(ms(now)).unwrap();
    assert!(time.gte(ms(tomorrow)));
    assert!(time.within_execution_period(ms(tomorrow)));
    assert!(time.lt(ms(tomorrow.checked_add_days(Days::new(1)).unwrap())));
}

#[test]
fn test_date_time_result_matches() {
    let now = now_local();
    let tomorrow = now.checked_add_days(Days::new(1)).unwrap().date().and_time(NaiveTime::from_hms_opt(12, 0, 0).unwrap());
    let time = TimeResult::DateTime(ms(now), "tomorrow 12:00".to_string());

    assert!(time.gte(ms(now)));
    assert!(time.within_execution_period(ms(now)));
    assert!(time.lt(ms(now.checked_add_days(Days::new(1)).unwrap())));

    assert!(!time.gte(ms(tomorrow)));
    assert!(!time.within_execution_period(ms(tomorrow)));
    assert!(!time.lt(ms(now)));

    let time = time.reset(ms(now)).unwrap();
    assert!(time.gte(ms(tomorrow)));
    assert!(time.within_execution_period(ms(tomorrow)));
    assert!(time.lt(ms(tomorrow.checked_add_days(Days::new(1)).unwrap())));
}

#[test]
fn reset_keeps_source_text() {
    let now = ms(now_local());
    let t = TimeResult::parse("tomorrow 12:00", now).unwrap();
    let again = t.reset(now + 86_400_000).unwrap();
    assert_eq!(again.source_text(), "tomorrow 12:00");
    assert!(TimeResult::parse("not a time at all", now).is_none());
}

#[test]
fn execution_period_is_under_one_second() {
    let t = TimeResult::DateTime(10_000, "x".to_string());
    assert!(t.within_execution_period(10_999));
    assert!(t.within_execution_period(9_001));
    assert!(!t.within_execution_period(11_000));
    assert!(!t.within_execution_period(9_000));
}

#[test]
fn time_of_day_before_the_epoch() {
    let t = TimeResult::Time(86_399_000, "23:59:59".to_string());
    assert!(t.within_execution_period(-1000));
}

#[test]
fn sun_instant_rolls_to_next_day() {
    let day = 86_400_000;
    let now = 5 * day + 30_000_000;
    // today's sunrise has passed: tomorrow's is taken
    assert_eq!(sun_instant(5 * day + 21_600_000, 6 * day + 21_500_000, now, now), Some(6 * day + 21_500_000));
    // not yet passed, and a phrase one minute ahead moves it one minute later
    let early = 5 * day + 3_600_000;
    assert_eq!(sun_instant(5 * day + 21_600_000, 6 * day + 21_500_000, early, early + 60_000), Some(5 * day + 21_660_000));
    assert_eq!(sun_instant(i64::MIN, 0, 1000, 0), None);
}

#[test]
fn phrases_the_parser_would_panic_on_are_not_read() {
    let now = ms(now_local());
    assert!(TimeResult::parse("in 260000 years 100000000 hours", 0).is_none());
    assert!(TimeResult::parse("in 4000000000 hours", now).is_none());
    assert!(TimeResult::parse("next hour", now).is_none());
    assert!(TimeResult::parse("This Minute", now).is_none());
    assert!(TimeResult::parse("last s", now).is_none());
    assert!(TimeResult::parse("now", i64::MAX).is_none());
    assert!(TimeResult::parse("in 2000000000 seconds", now).is_some());
    assert!(TimeResult::parse("next monday", now).is_some());
    assert!(TimeResult::parse("next month", now).is_some());
    assert!(TimeResult::parse("in 2 hours", now).is_some());
    assert!(hvents::time::phrase_readable("12:34:56.789123456"));
    assert!(!hvents::time::phrase_readable("next h"));
}

#[test]
fn sun_phrases_are_read() {
    assert!(sun_phrase("tomorrow 12:00").is_none());
    let p = sun_phrase("sunset in 1 hour").unwrap();
    assert_eq!(p.leading, Some(false));
    assert!(!p.names_sunrise);
    assert_eq!(p.phrase, "in 1 hour");
    let p = sun_phrase("sunrise").unwrap();
    assert_eq!(p.leading, Some(true));
    assert_eq!(p.phrase, "now");
    let p = sun_phrase("2024-07-31 sunrise").unwrap();
    assert_eq!(p.leading, None);
    assert!(p.names_sunrise);
    assert_eq!(p.phrase, "2024-07-31 sunrise");
}
