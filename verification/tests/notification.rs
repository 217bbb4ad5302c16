use cc_switch_notify::clock::{parse_iso8601_to_epoch, utc_date_string};
use cc_switch_notify::keys::{
    balance_identity, coding_plan_identity, exhausted_key, reset_key, short_hash,
    threshold_dedup_key, threshold_key,
};
use cc_switch_notify::notify::{
    RESCHEDULE_MIN_DELTA_SECONDS, RESET_WARN_LEAD_SECONDS, THRESHOLDS,
};
use cc_switch_notify::render::{
    render_auto_switched, render_exhausted, render_reset, render_reset_approaching,
    render_threshold,
};
use cc_switch_notify::strings::{replace_str, u64_to_hex, u8_to_decimal};
use cc_switch_notify::texts::NotificationTexts;

fn blank() -> NotificationTexts {
    NotificationTexts {
        threshold_title: "",
        threshold_body: "",
        reset_approaching_title: "",
        reset_approaching_body: "",
        reset_title: "",
        reset_body: "",
        auto_switched_title: "",
        auto_switched_body: "",
        exhausted_title: "",
        exhausted_body: "",
    }
}

#[test]
fn utc_date_string_is_stable() {
    let s = utc_date_string(chrono::Utc::now().timestamp()).unwrap();
    assert_eq!(s.len(), 10);
    assert_eq!(&s[4..5], "-");
}

#[test]
fn utc_date_string_of_known_instants() {
    assert_eq!(utc_date_string(1782129600).unwrap(), "2026-06-22");
    assert_eq!(utc_date_string(0).unwrap(), "1970-01-01");
    assert_eq!(utc_date_string(-1).unwrap(), "1969-12-31");
    assert!(utc_date_string(i64::MAX).is_none());
}

// 2026-06-22T12:00:00Z is Unix time 1782129600 (1771243200 would be
// 2026-02-16T12:00:00Z, which is not what this text says).
#[test]
fn parse_iso8601_handles_z_suffix() {
    assert_eq!(parse_iso8601_to_epoch("2026-06-22T12:00:00Z"), Some(1782129600));
    assert_eq!(parse_iso8601_to_epoch("2026-06-22T12:00:00+00:00"), Some(1782129600));
    assert_eq!(parse_iso8601_to_epoch("2026-06-22T14:00:00+02:00"), Some(1782129600));
    assert!(parse_iso8601_to_epoch("not a date").is_none());
    assert!(parse_iso8601_to_epoch("").is_none());
}

#[test]
fn threshold_key_uses_tier_and_pct() {
    assert_eq!(threshold_key("five_hour", 80), "tier:five_hour:80");
    assert_eq!(threshold_key("seven_day", 100), "tier:seven_day:100");
}

#[test]
fn reset_key_uses_provider_and_tier() {
    assert_eq!(
        reset_key("provider-123", "five_hour"),
        "provider-123:five_hour"
    );
}

#[test]
fn dedup_and_exhausted_keys() {
    assert_eq!(threshold_dedup_key("p1", "five_hour", 95), "p1:tier:five_hour:95");
    assert_eq!(threshold_key("t", 0), "tier:t:0");
    assert_eq!(exhausted_key("deepseek"), "balance:deepseek:exhausted");
}

#[test]
fn threshold_constants_ascending() {
    let mut prev = 0u8;
    for t in THRESHOLDS {
        assert!(t > prev);
        prev = t;
    }
}

#[test]
fn render_threshold_substitutes_placeholders() {
    let t = NotificationTexts {
        threshold_title: "Quota {{provider}}",
        threshold_body: "{{provider}} {{tier}} used {{percent}}%",
        ..blank()
    };
    let (title, body) = render_threshold(&t, "acme", "five_hour", 80);
    assert_eq!(title, "Quota acme");
    assert_eq!(body, "acme five_hour used 80%");
}

#[test]
fn render_auto_switched_substitutes_from_and_to() {
    let t = NotificationTexts {
        auto_switched_title: "Switched",
        auto_switched_body: "from {{from}} to {{to}}",
        ..blank()
    };
    let (title, body) = render_auto_switched(&t, "A", "B");
    assert_eq!(title, "Switched");
    assert_eq!(body, "from A to B");
}

#[test]
fn render_other_notices() {
    let en = NotificationTexts::from_language("en");
    assert_eq!(
        render_exhausted(&en, "DeepSeek"),
        (
            "DeepSeek exhausted".to_string(),
            "DeepSeek balance or credits exhausted. Top up or switch providers.".to_string()
        )
    );
    assert_eq!(
        render_reset_approaching(&en, "Kimi", "5h"),
        ("Reset imminent".to_string(), "Kimi 5h resets in 5 minutes".to_string())
    );
    assert_eq!(
        render_reset(&en, "Kimi", "7d"),
        ("Quota reset".to_string(), "Kimi 7d quota has reset".to_string())
    );
    let (_, body) = render_threshold(&en, "Zhipu", "Opus 7d", 100);
    assert_eq!(body, "Zhipu Opus 7d at 100%");
}

#[test]
fn a_placeholder_in_a_name_is_substituted_in_order() {
    let en = NotificationTexts::from_language("en");
    let (_, body) = render_threshold(&en, "{{tier}}", "five", 95);
    assert_eq!(body, "five five at 95%");
    let (_, body) = render_auto_switched(&en, "{{to}}", "B");
    assert_eq!(body, "Switched from B to B");
}

#[test]
fn replace_matches_std() {
    for (s, p, r) in [
        ("aaaa", "aa", "b"),
        ("abcabc", "bc", "X"),
        ("", "x", "y"),
        ("xxx", "xxxx", "y"),
        ("配额 {{p}} 配额", "{{p}}", "供应商"),
        ("{{p}}{{p}}", "{{p}}", "{{p}}"),
    ] {
        assert_eq!(replace_str(s, p, r), s.replace(p, r));
    }
}

#[test]
fn number_formatting() {
    assert_eq!(u8_to_decimal(0), "0");
    assert_eq!(u8_to_decimal(7), "7");
    assert_eq!(u8_to_decimal(80), "80");
    assert_eq!(u8_to_decimal(255), "255");
    assert_eq!(u64_to_hex(0), "0");
    assert_eq!(u64_to_hex(0xffff_ffff), "ffffffff");
    assert_eq!(u64_to_hex(0x642361cf), "642361cf");
    assert_eq!(u64_to_hex(u64::MAX), format!("{:x}", u64::MAX));
}

#[test]
fn short_hash_is_fnv1a_low_32_bits() {
    assert_eq!(short_hash("https://api.deepseek.com"), "642361cf");
    assert_eq!(short_hash(""), "739d0383");
    assert_eq!(short_hash("a"), "73cd9906");
}

#[test]
fn provider_identity_falls_back_to_hash() {
    let (id, name) = balance_identity("https://api.deepseek.com", None, None);
    assert_eq!(id, "balance:642361cf");
    assert_eq!(name, "balance:642361cf");
    let (id, name) = coding_plan_identity("a", None, Some("Kimi".to_string()));
    assert_eq!(id, "coding_plan:73cd9906");
    assert_eq!(name, "Kimi");
    let (id, name) = balance_identity("x", Some("ds".to_string()), None);
    assert_eq!(id, "ds");
    assert_eq!(name, "ds");
}

#[test]
fn reschedule_min_delta_threshold() {
    assert!(RESCHEDULE_MIN_DELTA_SECONDS >= 10);
    assert!(RESCHEDULE_MIN_DELTA_SECONDS <= 600);
}

#[test]
fn reset_warn_lead_is_5_minutes() {
    assert_eq!(RESET_WARN_LEAD_SECONDS, 300);
}

#[test]
fn threshold_keys_differ_for_different_tiers_or_thresholds() {
    assert_ne!(threshold_key("x:8", 0), threshold_key("x", 80));
    assert_ne!(threshold_key("five_hour", 8), threshold_key("five_hour", 80));
    assert_ne!(threshold_dedup_key("p", "a:1", 0), threshold_dedup_key("p", "a", 10));
    assert_eq!(threshold_dedup_key("p", "a", 10), threshold_dedup_key("p", "a", 10));
}
