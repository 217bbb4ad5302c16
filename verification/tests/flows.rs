use cc_switch_notify::dedup::{DedupState, ScheduledReset};
use cc_switch_notify::notify::{
    bootstrap, check_and_notify_balance, check_and_notify_coding_plan, check_and_notify_subscription, exhausted_notice_on,
    fire_reset, fire_thresholds, fire_warn, notify_auto_switched, reset_pair_delays,
    schedule_reset_pair, schedule_resets, thresholds_to_fire, NotificationSettings, QuotaTier,
};
use cc_switch_notify::texts::NotificationTexts;

fn all_on() -> NotificationSettings {
    NotificationSettings {
        enable_notifications: true,
        notify_on_threshold_reached: true,
        notify_on_reset_approaching: true,
        notify_on_auto_switch: true,
    }
}

fn tier(name: &str, utilization: u32, resets_at: Option<&str>) -> QuotaTier {
    QuotaTier {
        name: name.to_string(),
        utilization,
        resets_at: resets_at.map(|s| s.to_string()),
    }
}

fn entry(warn: i64, reset: i64, warn_fired: bool, reset_fired: bool) -> ScheduledReset {
    ScheduledReset {
        warn_at_epoch: warn,
        reset_at_epoch: reset,
        warn_fired,
        reset_fired,
        provider_name: "Kimi".to_string(),
        tier_label: "5h".to_string(),
    }
}

// 2026-06-22T12:00:00Z
const NOON: i64 = 1782129600;

#[test]
fn thresholds_fire_once_per_day() {
    let en = NotificationTexts::from_language("en");
    let mut state = DedupState::new();
    let tiers = vec![tier("five_hour", 96, None), tier("seven_day", 50, None)];
    let first = fire_thresholds(&mut state, &en, "p1", "Acme", &tiers, "2026-06-22");
    assert_eq!(
        first,
        vec![
            ("Quota alert".to_string(), "Acme five_hour at 80%".to_string()),
            ("Quota alert".to_string(), "Acme five_hour at 95%".to_string()),
        ]
    );
    let again = fire_thresholds(&mut state, &en, "p1", "Acme", &tiers, "2026-06-22");
    assert!(again.is_empty());
    // The next day they are due again.
    let next_day = fire_thresholds(&mut state, &en, "p1", "Acme", &tiers, "2026-06-23");
    assert_eq!(next_day.len(), 2);
    // Another provider has its own record.
    let other = fire_thresholds(&mut state, &en, "p2", "Other", &tiers, "2026-06-23");
    assert_eq!(other.len(), 2);
    assert_eq!(
        state.thresholds_fired.get("p1:tier:five_hour:80").map(|s| s.as_str()),
        Some("2026-06-23")
    );
}

#[test]
fn thresholds_to_fire_skips_recorded_ones() {
    let mut state = DedupState::new();
    let t = tier("five_hour", 100, None);
    assert_eq!(thresholds_to_fire(&state, "p", &t, "d"), vec![80, 95, 100]);
    state.record_fired("p:tier:five_hour:95".to_string(), "d".to_string());
    assert_eq!(thresholds_to_fire(&state, "p", &t, "d"), vec![80, 100]);
    assert_eq!(thresholds_to_fire(&state, "p", &t, "e"), vec![80, 95, 100]);
    let low = tier("five_hour", 79, None);
    assert!(thresholds_to_fire(&state, "p", &low, "d").is_empty());
}

#[test]
fn subscription_reading_sends_and_schedules() {
    let en = NotificationTexts::from_language("en");
    let mut state = DedupState::new();
    let tiers = vec![
        tier("five_hour", 100, Some("2026-06-22T17:00:00Z")),
        tier("seven_day", 10, Some("2026-06-20T00:00:00Z")),
        tier("opus", 0, Some("garbage")),
    ];
    let plan = check_and_notify_subscription(&mut state, &all_on(), &en, "p1", "Acme", &tiers, NOON);
    assert_eq!(plan.notices.len(), 3);
    assert_eq!(plan.schedules.len(), 1);
    let s = &plan.schedules[0];
    assert_eq!(s.key, "p1:five_hour");
    assert_eq!(s.entry.reset_at_epoch, NOON + 5 * 3600);
    assert_eq!(s.entry.warn_at_epoch, NOON + 5 * 3600 - 300);
    assert!(!s.replaces_existing);
    // The same reading again: nothing to send, nothing to restart.
    let plan = check_and_notify_subscription(&mut state, &all_on(), &en, "p1", "Acme", &tiers, NOON + 10);
    assert!(plan.notices.is_empty());
    assert!(plan.schedules.is_empty());
}

#[test]
fn subscription_respects_switches() {
    let en = NotificationTexts::from_language("en");
    let tiers = vec![tier("five_hour", 100, Some("2026-06-22T17:00:00Z"))];
    let mut state = DedupState::new();
    let off = NotificationSettings { enable_notifications: false, ..all_on() };
    let plan = check_and_notify_subscription(&mut state, &off, &en, "p", "P", &tiers, NOON);
    assert!(plan.notices.is_empty() && plan.schedules.is_empty());
    let no_threshold = NotificationSettings { notify_on_threshold_reached: false, ..all_on() };
    let plan = check_and_notify_subscription(&mut state, &no_threshold, &en, "p", "P", &tiers, NOON);
    assert!(plan.notices.is_empty());
    assert_eq!(plan.schedules.len(), 1);
    let no_reset = NotificationSettings { notify_on_reset_approaching: false, ..all_on() };
    let mut state = DedupState::new();
    let plan = check_and_notify_subscription(&mut state, &no_reset, &en, "p", "P", &tiers, NOON);
    assert_eq!(plan.notices.len(), 3);
    assert!(plan.schedules.is_empty());
}

#[test]
fn reschedule_ignores_jitter_and_replaces_moves() {
    let mut state = DedupState::new();
    let first = schedule_reset_pair(&mut state, "p", "5h", 1000, 1300, "P").unwrap();
    assert!(!first.replaces_existing);
    assert!(schedule_reset_pair(&mut state, "p", "5h", 1000, 1300, "P").is_none());
    assert!(schedule_reset_pair(&mut state, "p", "5h", 1059, 1300, "P").is_none());
    let moved = schedule_reset_pair(&mut state, "p", "5h", 1060, 1300, "P").unwrap();
    assert!(moved.replaces_existing);
    let new_reset = schedule_reset_pair(&mut state, "p", "5h", 1060, 1301, "P").unwrap();
    assert!(new_reset.replaces_existing);
    assert_eq!(state.resets_scheduled.get("p:5h").unwrap().reset_at_epoch, 1301);
}

#[test]
fn schedule_resets_skips_past_and_unknown() {
    let mut state = DedupState::new();
    let tiers = vec![tier("a", 0, None), tier("b", 0, None), tier("c", 0, None)];
    let epochs = vec![Some(5000), Some(100), None];
    let out = schedule_resets(&mut state, "p", "P", &tiers, &epochs, 100);
    assert_eq!(out.len(), 1);
    assert_eq!(out[0].key, "p:a");
    assert_eq!(out[0].entry.warn_at_epoch, 4700);
}

#[test]
fn balance_exhausted_once_per_day() {
    let en = NotificationTexts::from_language("en");
    let mut state = DedupState::new();
    assert!(check_and_notify_balance(&mut state, &all_on(), &en, "ds", "DeepSeek", true, NOON).is_none());
    let n = check_and_notify_balance(&mut state, &all_on(), &en, "ds", "DeepSeek", false, NOON).unwrap();
    assert_eq!(n.0, "DeepSeek exhausted");
    assert!(check_and_notify_balance(&mut state, &all_on(), &en, "ds", "DeepSeek", false, NOON + 60).is_none());
    assert!(check_and_notify_balance(&mut state, &all_on(), &en, "ds", "DeepSeek", false, NOON + 86400).is_some());
    let off = NotificationSettings { enable_notifications: false, ..all_on() };
    let mut fresh = DedupState::new();
    assert!(check_and_notify_balance(&mut fresh, &off, &en, "ds", "DeepSeek", false, NOON).is_none());
    assert!(exhausted_notice_on(&mut fresh, &en, "ds", "DeepSeek", "2026-06-22").is_some());
    assert!(exhausted_notice_on(&mut fresh, &en, "ds", "DeepSeek", "2026-06-22").is_none());
}

#[test]
fn auto_switch_notice_follows_settings() {
    let en = NotificationTexts::from_language("en");
    let n = notify_auto_switched(&all_on(), &en, "A", "B").unwrap();
    assert_eq!(n, ("Auto-switched".to_string(), "Switched from A to B".to_string()));
    let off = NotificationSettings { notify_on_auto_switch: false, ..all_on() };
    assert!(notify_auto_switched(&off, &en, "A", "B").is_none());
    let all_off = NotificationSettings { enable_notifications: false, ..all_on() };
    assert!(notify_auto_switched(&all_off, &en, "A", "B").is_none());
}

#[test]
fn warn_and_reset_fire_once() {
    let en = NotificationTexts::from_language("en");
    let mut state = DedupState::new();
    state.resets_scheduled.insert("p:5h".to_string(), entry(100, 400, false, false));
    let w = fire_warn(&mut state, &all_on(), &en, "p:5h", "5h", "Kimi").unwrap();
    assert_eq!(w.1, "Kimi 5h resets in 5 minutes");
    assert!(state.resets_scheduled.get("p:5h").unwrap().warn_fired);
    assert!(fire_warn(&mut state, &all_on(), &en, "p:5h", "5h", "Kimi").is_none());
    let r = fire_reset(&mut state, &all_on(), &en, "p:5h", "5h", "Kimi").unwrap();
    assert_eq!(r.1, "Kimi 5h quota has reset");
    let e = state.resets_scheduled.get("p:5h").unwrap();
    assert!(e.warn_fired && e.reset_fired);
    assert!(fire_reset(&mut state, &all_on(), &en, "p:5h", "5h", "Kimi").is_none());
    // An unrecorded key still gets its notice, and nothing is recorded for it.
    assert!(fire_reset(&mut state, &all_on(), &en, "x:5h", "5h", "Kimi").is_some());
    assert!(state.resets_scheduled.get("x:5h").is_none());
    // A fully sent pair is not restarted and is dropped once its reset is a day old.
    assert!(bootstrap(&mut state, 400).iter().all(|s| s.key != "p:5h"));
    assert!(state.resets_scheduled.get("p:5h").is_some());
    bootstrap(&mut state, 400 + 86_400);
    assert!(state.resets_scheduled.get("p:5h").is_none());
    let off = NotificationSettings { enable_notifications: false, ..all_on() };
    state.resets_scheduled.insert("q:5h".to_string(), entry(100, 400, false, false));
    assert!(fire_warn(&mut state, &off, &en, "q:5h", "5h", "Kimi").is_none());
    assert!(!state.resets_scheduled.get("q:5h").unwrap().warn_fired);
}

#[test]
fn bootstrap_prunes_and_restarts() {
    let mut state = DedupState::new();
    let now = 1_000_000;
    state.resets_scheduled.insert("old".to_string(), entry(0, now - 86_400, false, false));
    state.resets_scheduled.insert("recent".to_string(), entry(0, now - 86_399, false, false));
    state.resets_scheduled.insert("done".to_string(), entry(now + 10, now + 310, true, true));
    state.resets_scheduled.insert("half".to_string(), entry(now + 10, now + 310, true, false));
    let out = bootstrap(&mut state, now);
    assert!(state.resets_scheduled.get("old").is_none());
    assert!(state.resets_scheduled.get("recent").is_some());
    assert!(state.resets_scheduled.get("done").is_some());
    let keys: Vec<&str> = out.iter().map(|s| s.key.as_str()).collect();
    assert_eq!(keys, vec!["recent", "half"]);
    assert!(out.iter().all(|s| !s.replaces_existing));
    let again = bootstrap(&mut state, now);
    assert_eq!(again.len(), 2);
}

#[test]
fn reset_pair_delays_wait_for_future_times() {
    let e = entry(1300, 1600, false, false);
    assert_eq!(reset_pair_delays(&e, 1000), (Some(300), Some(600)));
    assert_eq!(reset_pair_delays(&e, 1300), (None, Some(300)));
    let fired = entry(1300, 1600, true, false);
    assert_eq!(reset_pair_delays(&fired, 1000), (None, Some(600)));
    let far = entry(i64::MAX, i64::MAX, false, false);
    assert_eq!(reset_pair_delays(&far, i64::MIN), (Some(u64::MAX), Some(u64::MAX)));
}

#[test]
fn coding_plan_reading_only_when_successful() {
    let en = NotificationTexts::from_language("en");
    let tiers = vec![tier("five_hour", 100, Some("2026-06-22T17:00:00Z"))];
    let mut state = DedupState::new();
    let plan = check_and_notify_coding_plan(&mut state, &all_on(), &en, "k", "Kimi", false, &tiers, NOON);
    assert!(plan.notices.is_empty() && plan.schedules.is_empty());
    let plan = check_and_notify_coding_plan(&mut state, &all_on(), &en, "k", "Kimi", true, &tiers, NOON);
    assert_eq!(plan.notices.len(), 3);
    assert_eq!(plan.schedules.len(), 1);
}
