use servicing::anymap::{AnyMap, TagValue};
use servicing::runlog::{set_tag, timer_start, timer_stop, TagLog};

#[test]
fn anymap_basic_operations() {
    let mut m = AnyMap::default();
    assert!(!m.contains_key(&"time".to_string()));
    m.insert("time".to_string(), TagValue::Count(34));
    assert!(m.contains_key(&"time".to_string()));
    assert_eq!(m.get(&"time".to_string()), &TagValue::Count(34));
    assert_eq!(
        m.get_untyped(&"time".to_string()),
        Some(&TagValue::Count(34))
    );
    assert_eq!(m.get_untyped(&"other".to_string()), None);
    assert_eq!(m.get_display(&"time".to_string()), "34");

    m.insert("time".to_string(), TagValue::Text("late".to_string()));
    assert_eq!(m.get_display(&"time".to_string()), "late");
}

#[test]
fn timers_accumulate_elapsed_time() {
    let mut log = TagLog::default();
    timer_start(&mut log, "time2", 1_000);
    timer_stop(&mut log, "time2", 4_500);
    assert_eq!(log.tags.get(&"time2".to_string()), &TagValue::Count(3_500));

    // a second run adds onto the stored total
    timer_start(&mut log, "time2", 10_000);
    timer_stop(&mut log, "time2", 10_034);
    assert_eq!(log.tags.get(&"time2".to_string()), &TagValue::Count(3_534));
    assert_eq!(log.tags.get_display(&"time2".to_string()), "3534");
}

#[test]
fn timer_with_backwards_clock_adds_nothing() {
    let mut log = TagLog::default();
    timer_start(&mut log, "t", 500);
    timer_stop(&mut log, "t", 400);
    assert_eq!(log.tags.get(&"t".to_string()), &TagValue::Count(0));
}

#[test]
fn timer_totals_saturate() {
    let mut log = TagLog::default();
    set_tag(&mut log, "t", TagValue::Count(u64::MAX - 5));
    timer_start(&mut log, "t", 0);
    timer_stop(&mut log, "t", 1_000);
    assert_eq!(log.tags.get(&"t".to_string()), &TagValue::Count(u64::MAX));
}

#[test]
fn set_tag_overwrites() {
    let mut log = TagLog::default();
    set_tag(&mut log, "run", TagValue::Text("alpha".to_string()));
    set_tag(&mut log, "run", TagValue::Text("beta".to_string()));
    assert_eq!(log.tags.get_display(&"run".to_string()), "beta");
}
