use cc_switch_notify::texts::{LangCache, NotificationTexts, TextsLoader};

#[test]
fn from_language_handles_all_supported() {
    for lang in ["zh", "zh-TW", "ja", "en", "fr"] {
        let t = NotificationTexts::from_language(lang);
        assert!(!t.threshold_title.is_empty());
        assert!(!t.threshold_body.is_empty());
        assert!(!t.reset_approaching_body.is_empty());
        assert!(!t.exhausted_body.is_empty());
    }
}

#[test]
fn unknown_language_falls_back_to_zh() {
    let zh = NotificationTexts::from_language("zh");
    let fr = NotificationTexts::from_language("fr");
    assert_eq!(zh.threshold_title, fr.threshold_title);
}

#[test]
fn bodies_under_120_chars() {
    let t = NotificationTexts::from_language("zh");
    let long_provider = "x".repeat(50);
    for body in [
        t.threshold_body,
        t.reset_approaching_body,
        t.reset_body,
        t.auto_switched_body,
        t.exhausted_body,
    ] {
        let filled = body
            .replace("{{provider}}", &long_provider)
            .replace("{{tier}}", "5h")
            .replace("{{percent}}", "100")
            .replace("{{from}}", &long_provider)
            .replace("{{to}}", &long_provider);
        assert!(
            filled.chars().count() <= 120,
            "body too long ({} chars): {filled}",
            filled.chars().count()
        );
    }
}

#[test]
fn cache_returns_same_reference_for_same_language() {
    let a = TextsLoader::resolve("en");
    let b = TextsLoader::resolve("en");
    assert!(std::ptr::eq(a, b));
}

#[test]
fn cache_switches_when_language_changes() {
    let _a = TextsLoader::resolve("zh");
    let b = TextsLoader::resolve("en");
    assert_eq!(b.threshold_title, "Quota alert");
}

#[test]
fn each_language_has_its_own_table() {
    assert_eq!(NotificationTexts::from_language("en").reset_title, "Quota reset");
    assert_eq!(NotificationTexts::from_language("ja").threshold_title, "クォータ警告");
    assert_eq!(NotificationTexts::from_language("zh-TW").threshold_title, "配額提醒");
    assert_eq!(NotificationTexts::from_language("zh").threshold_title, "配额提醒");
    assert_eq!(NotificationTexts::from_language("").threshold_title, "配额提醒");
    assert_eq!(NotificationTexts::from_language("EN").threshold_title, "配额提醒");
}

#[test]
fn current_language_defaults_to_zh() {
    let r = TextsLoader::resolve_for_current_language(None);
    assert_eq!(r.snapshot().threshold_title, "配额提醒");
    let r = TextsLoader::resolve_for_current_language(Some("ja"));
    assert_eq!(r.snapshot().reset_title, "リセット完了");
}

#[test]
fn lang_cache_gives_the_table_of_each_language() {
    let mut cache = LangCache::new();
    let a = cache.get_or_resolve("en");
    assert_eq!(a.threshold_title, "Quota alert");
    let b = cache.get_or_resolve("en");
    assert!(std::ptr::eq(a, b));
    let c = cache.get_or_resolve("ja");
    assert_eq!(c.threshold_title, "クォータ警告");
    let d = cache.get_or_resolve("de");
    assert_eq!(d.threshold_title, "配额提醒");
}

#[test]
fn lang_ref_derefs_to_its_texts() {
    let r = TextsLoader::resolve_for_current_language(Some("en"));
    assert_eq!(r.threshold_title, "Quota alert");
    assert!(std::ptr::eq(r.snapshot(), TextsLoader::resolve("en")));
}
