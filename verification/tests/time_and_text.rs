use hydration_service::hyperbeam::CronItem;
use hydration_service::models::{ProcessConfig, ProcessStatus};
use hydration_service::queue::QueueManager;
use hydration_service::report::{
    active_from_crons, reserve_rows, short_process_id, short_task_id, shortened,
};
use hydration_service::reserves::ReserveMap;
use hydration_service::text::{sort_texts, text_precedes};
use hydration_service::time::{SyncRate, Timestamp};

const TOKEN_1: &str = "1111111111111111111111111111111111111111111";
const TOKEN_2: &str = "2222222222222222222222222222222222222222222";
const TOKEN_3: &str = "3333333333333333333333333333333333333333333";

fn ts(secs: i64, nanos: u32) -> Timestamp {
    Timestamp { secs, nanos }
}

fn report(pairs: &[(&str, &str)]) -> ReserveMap {
    let mut m = ReserveMap::new();
    for (k, v) in pairs {
        m.insert(k.to_string(), v.to_string());
    }
    m
}

#[test]
fn whole_seconds_between_instants() {
    assert_eq!(ts(100, 0).seconds_since(&ts(40, 0)), 60);
    assert_eq!(ts(100, 0).seconds_since(&ts(100, 0)), 0);
    assert_eq!(ts(100, 999_999_999).seconds_since(&ts(100, 0)), 0);
    assert_eq!(ts(101, 0).seconds_since(&ts(100, 1)), 0);
    assert_eq!(ts(101, 1).seconds_since(&ts(100, 1)), 1);
    assert_eq!(ts(102, 0).seconds_since(&ts(100, 500_000_000)), 1);
    assert_eq!(ts(40, 0).seconds_since(&ts(100, 0)), 0);
    assert_eq!(ts(-5, 0).seconds_since(&ts(-65, 0)), 60);
    assert_eq!(ts(i64::MAX, 0).seconds_since(&ts(i64::MIN, 0)), u64::MAX);
    assert_eq!(ts(i64::MAX, 0).seconds_since(&ts(0, 0)), i64::MAX as u64);
}

#[test]
fn instants_are_ordered_by_seconds_then_nanoseconds() {
    assert!(ts(1, 0).is_before(&ts(2, 0)));
    assert!(ts(1, 5).is_before(&ts(1, 6)));
    assert!(ts(-1, 999).is_before(&ts(0, 0)));
    assert!(!ts(1, 6).is_before(&ts(1, 6)));
    assert!(!ts(2, 0).is_before(&ts(1, 999_999_999)));
}

#[test]
fn instants_from_milliseconds() {
    assert_eq!(Timestamp::from_millis(0), Some(ts(0, 0)));
    assert_eq!(Timestamp::from_millis(1_234), Some(ts(1, 234_000_000)));
    assert_eq!(Timestamp::from_millis(-1), Some(ts(-1, 999_000_000)));
    assert_eq!(Timestamp::from_millis(-1_000), Some(ts(-1, 0)));
    assert_eq!(Timestamp::from_millis(-1_001), Some(ts(-2, 999_000_000)));
    assert_eq!(Timestamp::from_millis(947_638_923_004), Some(ts(947_638_923, 4_000_000)));
    assert_eq!(Timestamp::from_millis(i64::MAX), None);
    assert_eq!(Timestamp::from_millis(i64::MIN), None);
}

#[test]
fn clock_reads_a_present_instant() {
    let a = Timestamp::now();
    let b = Timestamp::now();
    assert!(a.secs > 1_600_000_000);
    assert!(a.nanos < 2_000_000_000);
    assert!(!b.is_before(&a));
}

#[test]
fn rate_in_thousandths_per_minute() {
    assert_eq!(SyncRate { slots: 6, seconds: 120 }.slots_per_minute_milli(), 3000);
    assert_eq!(SyncRate { slots: 1, seconds: 7 }.slots_per_minute_milli(), 8571);
    assert_eq!(SyncRate { slots: 0, seconds: 7 }.slots_per_minute_milli(), 0);
    assert_eq!(SyncRate { slots: 9, seconds: 0 }.slots_per_minute_milli(), 0);
    assert_eq!(
        SyncRate { slots: u64::MAX, seconds: 1 }.slots_per_minute_milli(),
        u64::MAX as u128 * 60_000
    );
    assert!(SyncRate { slots: 1, seconds: 1 }.is_positive());
    assert!(!SyncRate { slots: 0, seconds: 1 }.is_positive());
    assert!(!SyncRate { slots: 1, seconds: 0 }.is_positive());
    assert!(!SyncRate::new_zero().is_positive());
}

#[test]
fn texts_are_ordered_lexicographically() {
    assert!(text_precedes("", ""));
    assert!(text_precedes("", "a"));
    assert!(!text_precedes("a", ""));
    assert!(text_precedes("a", "a"));
    assert!(text_precedes("a", "ab"));
    assert!(!text_precedes("ab", "a"));
    assert!(text_precedes("Z", "a"));
    assert!(text_precedes("ab", "b"));
    assert!(!text_precedes("b", "ab"));
    assert!(text_precedes("z", "\u{e9}"));
    assert!(text_precedes("\u{e9}", "\u{4e2d}"));
    assert!(!text_precedes("\u{1f600}", "\u{4e2d}"));
}

#[test]
fn text_order_agrees_with_the_standard_order() {
    let samples = ["", "a", "A", "ab", "abc", "b", "\u{e9}", "\u{4e2d}", "\u{1f600}", "a\u{e9}", "~", "0", "10", "9"];
    for x in samples {
        for y in samples {
            assert_eq!(text_precedes(x, y), x <= y, "{:?} {:?}", x, y);
        }
    }
}

#[test]
fn sorting_texts() {
    let input: Vec<String> = ["pear", "Apple", "fig", "apple", "", "fig"].iter().map(|s| s.to_string()).collect();
    assert_eq!(sort_texts(input.clone()), vec!["", "Apple", "apple", "fig", "fig", "pear"]);
    let mut expected = input;
    expected.sort();
    assert_eq!(sort_texts(expected.clone()), expected);
    assert!(sort_texts(vec![]).is_empty());
}

#[test]
fn long_identifiers_are_shortened() {
    let id43 = "a".repeat(43);
    assert_eq!(short_process_id(&id43), id43);
    let long = format!("{}{}{}", "a".repeat(20), "m".repeat(10), "z".repeat(20));
    assert_eq!(short_process_id(&long), format!("{}...{}", "a".repeat(20), "z".repeat(20)));
    assert_eq!(short_task_id("12345678901234567890"), "12345678901234567890");
    assert_eq!(short_task_id("123456789012345678901"), "1234567890...5678901");
    assert_eq!(shortened("abcdef", 3, 1, 2), "a...ef");
    assert_eq!(shortened("abc", 3, 1, 2), "abc");
    assert_eq!(shortened("\u{e9}\u{e8}\u{ea}\u{eb}", 2, 1, 1), "\u{e9}...\u{eb}");
    assert_eq!(shortened("abcd", 2, 0, 0), "...");
}

#[test]
fn shown_rate_prefers_the_cron_clock() {
    let mut r = ProcessStatus::new("n".to_string(), "p".to_string());
    assert_eq!(r.display_rate(ts(100, 0)), None);
    r.metrics.avg_sync_rate = SyncRate { slots: 3, seconds: 60 };
    assert_eq!(r.display_rate(ts(100, 0)), Some(SyncRate { slots: 3, seconds: 60 }));
    r.cron_created_at = Some(ts(40, 0));
    assert_eq!(r.display_rate(ts(100, 0)), Some(SyncRate { slots: 3, seconds: 60 }));
    r.metrics.total_slots_advanced = 30;
    assert_eq!(r.display_rate(ts(100, 0)), Some(SyncRate { slots: 30, seconds: 60 }));
    assert_eq!(r.display_rate(ts(40, 0)), Some(SyncRate { slots: 3, seconds: 60 }));
    r.metrics.avg_sync_rate = SyncRate { slots: 0, seconds: 0 };
    assert_eq!(r.display_rate(ts(40, 0)), None);
}

#[test]
fn reserve_rows_cover_both_reports_in_token_order() {
    let hb = Some(report(&[(TOKEN_3, "30"), (TOKEN_1, "10"), ("TokenA", "x")]));
    let ao = Some(report(&[(TOKEN_2, "20"), (TOKEN_3, "31"), ("K", "y")]));
    let rows = reserve_rows(&hb, &ao);
    let got: Vec<(&str, Option<&str>, Option<&str>)> = rows
        .iter()
        .map(|r| (r.token.as_str(), r.hb_amount.as_deref(), r.ao_amount.as_deref()))
        .collect();
    assert_eq!(
        got,
        vec![
            (TOKEN_1, Some("10"), None),
            (TOKEN_2, None, Some("20")),
            (TOKEN_3, Some("30"), Some("31")),
        ]
    );
}

#[test]
fn reserve_rows_with_a_missing_report() {
    let hb = Some(report(&[(TOKEN_2, "2"), (TOKEN_1, "1")]));
    let rows = reserve_rows(&hb, &None);
    assert_eq!(rows.len(), 2);
    assert_eq!(rows[0].token, TOKEN_1);
    assert_eq!(rows[0].hb_amount.as_deref(), Some("1"));
    assert_eq!(rows[0].ao_amount, None);
    let rows = reserve_rows(&None, &hb);
    assert_eq!(rows.len(), 2);
    assert_eq!(rows[1].token, TOKEN_2);
    assert_eq!(rows[1].hb_amount, None);
    assert_eq!(rows[1].ao_amount.as_deref(), Some("2"));
    assert!(reserve_rows(&None, &None).is_empty());
    assert!(reserve_rows(&Some(report(&[("short", "1")])), &Some(report(&[]))).is_empty());
}

#[test]
fn cron_listing_selects_registered_processes() {
    let mut q = QueueManager::new(2);
    for id in ["a", "b"] {
        q.add_to_queue(ProcessConfig { name: id.to_string(), process_id: id.to_string(), base_url: None })
            .unwrap();
    }
    q.update_process_status("b", |r| {
        r.metrics.total_slots_advanced = 120;
        r.metrics.avg_sync_rate = SyncRate { slots: 1, seconds: 1 };
    })
    .unwrap();
    let item = |path: &str, created_at: u64| CronItem {
        created_at,
        path: path.to_string(),
        pid: String::new(),
        task_id: String::new(),
        cron_type: String::new(),
    };
    let items = vec![
        item("/b~process@1.0/now", 1_000_000),
        item("/zz~process@1.0/now", 1_000_000),
        item("no slash", 1_000_000),
        item("/a~process@1.0/now", i64::MAX as u64),
        item("/b~process@1.0/now", 2_000_000),
    ];
    let shown = active_from_crons(&q, &items, ts(1600, 0));
    assert_eq!(shown.len(), 3);
    assert_eq!(shown[0].process_id, "b");
    assert_eq!(shown[0].cron_created_at, Some(ts(1000, 0)));
    assert_eq!(shown[0].metrics.avg_sync_rate, SyncRate { slots: 120, seconds: 600 });
    assert_eq!(shown[1].process_id, "a");
    assert_eq!(shown[1].cron_created_at, None);
    assert_eq!(shown[1].metrics.avg_sync_rate, SyncRate { slots: 0, seconds: 0 });
    assert_eq!(shown[2].process_id, "b");
    assert_eq!(shown[2].cron_created_at, Some(ts(2000, 0)));
    assert_eq!(shown[2].metrics.avg_sync_rate, SyncRate { slots: 1, seconds: 1 });
    assert_eq!(q.get_process("b").unwrap().cron_created_at, None);
}
