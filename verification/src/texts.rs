//! Localized notification texts.
//!
//! Four languages are built in (zh, zh-TW, ja, en); any other language falls back
//! to zh. Templates carry the placeholders `{{provider}}`, `{{tier}}`,
//! `{{percent}}`, `{{from}}` and `{{to}}`, which `render` substitutes.
use vstd::prelude::*;
use crate::strings::str_eq;

verus! {

/// The ten templates of one language.
#[derive(Debug, Clone, Copy)]
pub struct NotificationTexts {
    pub threshold_title: &'static str,
    pub threshold_body: &'static str,
    pub reset_approaching_title: &'static str,
    pub reset_approaching_body: &'static str,
    pub reset_title: &'static str,
    pub reset_body: &'static str,
    pub auto_switched_title: &'static str,
    pub auto_switched_body: &'static str,
    pub exhausted_title: &'static str,
    pub exhausted_body: &'static str,
}

/// The simplified-Chinese table, also the fallback for unknown languages.
pub open spec fn zh_texts() -> NotificationTexts {
    NotificationTexts {
        threshold_title: "配额提醒",
        threshold_body: "{{provider}} {{tier}} 已使用 {{percent}}%",
        reset_approaching_title: "即将重置",
        reset_approaching_body: "{{provider}} {{tier}} 将在 5 分钟后重置",
        reset_title: "已重置",
        reset_body: "{{provider}} {{tier}} 配额已重置",
        auto_switched_title: "已自动切换",
        auto_switched_body: "已从 {{from}} 切换到 {{to}}",
        exhausted_title: "{{provider}} 已用尽",
        exhausted_body: "{{provider}} 余额或额度已用尽，请充值或切换",
    }
}

/// The traditional-Chinese table.
pub open spec fn zh_tw_texts() -> NotificationTexts {
    NotificationTexts {
        threshold_title: "配額提醒",
        threshold_body: "{{provider}} {{tier}} 已使用 {{percent}}%",
        reset_approaching_title: "即將重置",
        reset_approaching_body: "{{provider}} {{tier}} 將在 5 分鐘後重置",
        reset_title: "已重置",
        reset_body: "{{provider}} {{tier}} 配額已重置",
        auto_switched_title: "已自動切換",
        auto_switched_body: "已從 {{from}} 切換到 {{to}}",
        exhausted_title: "{{provider}} 已用盡",
        exhausted_body: "{{provider}} 餘額或額度已用盡，請儲值或切換",
    }
}

/// The Japanese table.
pub open spec fn ja_texts() -> NotificationTexts {
    NotificationTexts {
        threshold_title: "クォータ警告",
        threshold_body: "{{provider}} {{tier}} が {{percent}}% 使用中",
        reset_approaching_title: "リセット間近",
        reset_approaching_body: "{{provider}} {{tier}} は 5 分後にリセット",
        reset_title: "リセット完了",
        reset_body: "{{provider}} {{tier}} のクォータがリセットされました",
        auto_switched_title: "自動切り替え",
        auto_switched_body: "{{from}} から {{to}} に切り替えました",
        exhausted_title: "{{provider}} が枯渇",
        exhausted_body: "{{provider}} の残高または割当が枯渇しました。チャージまたは切り替えが必要です",
    }
}

/// The English table.
pub open spec fn en_texts() -> NotificationTexts {
    NotificationTexts {
        threshold_title: "Quota alert",
        threshold_body: "{{provider}} {{tier}} at {{percent}}%",
        reset_approaching_title: "Reset imminent",
        reset_approaching_body: "{{provider}} {{tier}} resets in 5 minutes",
        reset_title: "Quota reset",
        reset_body: "{{provider}} {{tier}} quota has reset",
        auto_switched_title: "Auto-switched",
        auto_switched_body: "Switched from {{from}} to {{to}}",
        exhausted_title: "{{provider}} exhausted",
        exhausted_body: "{{provider}} balance or credits exhausted. Top up or switch providers.",
    }
}

/// The table chosen for a language code: "zh-TW", "ja" and "en" have their own,
/// every other code gets the simplified-Chinese one.
pub open spec fn texts_for(language: Seq<char>) -> NotificationTexts {
    if language == "zh-TW"@ {
        zh_tw_texts()
    } else if language == "ja"@ {
        ja_texts()
    } else if language == "en"@ {
        en_texts()
    } else {
        zh_texts()
    }
}

impl NotificationTexts {
    /// The texts for `language`, falling back to simplified Chinese.
    pub fn from_language(language: &str) -> (t: Self)
        ensures
            t == texts_for(language@),
    {
        *Self::table(language)
    }

    /// The built-in table for `language`, as a reference that lives for the whole program.
    fn table(language: &str) -> (t: &'static Self)
        ensures
            *t == texts_for(language@),
    {
        if str_eq(language, "zh-TW") {
            Self::zh_tw()
        } else if str_eq(language, "ja") {
            Self::ja()
        } else if str_eq(language, "en") {
            Self::en()
        } else {
            Self::zh()
        }
    }

    fn zh() -> (t: &'static Self)
        ensures
            *t == zh_texts(),
    {
        &NotificationTexts {
            threshold_title: "配额提醒",
            threshold_body: "{{provider}} {{tier}} 已使用 {{percent}}%",
            reset_approaching_title: "即将重置",
            reset_approaching_body: "{{provider}} {{tier}} 将在 5 分钟后重置",
            reset_title: "已重置",
            reset_body: "{{provider}} {{tier}} 配额已重置",
            auto_switched_title: "已自动切换",
            auto_switched_body: "已从 {{from}} 切换到 {{to}}",
            exhausted_title: "{{provider}} 已用尽",
            exhausted_body: "{{provider}} 余额或额度已用尽，请充值或切换",
        }
    }

    fn zh_tw() -> (t: &'static Self)
        ensures
            *t == zh_tw_texts(),
    {
        &NotificationTexts {
            threshold_title: "配額提醒",
            threshold_body: "{{provider}} {{tier}} 已使用 {{percent}}%",
            reset_approaching_title: "即將重置",
            reset_approaching_body: "{{provider}} {{tier}} 將在 5 分鐘後重置",
            reset_title: "已重置",
            reset_body: "{{provider}} {{tier}} 配額已重置",
            auto_switched_title: "已自動切換",
            auto_switched_body: "已從 {{from}} 切換到 {{to}}",
            exhausted_title: "{{provider}} 已用盡",
            exhausted_body: "{{provider}} 餘額或額度已用盡，請儲值或切換",
        }
    }

    fn ja() -> (t: &'static Self)
        ensures
            *t == ja_texts(),
    {
        &NotificationTexts {
            threshold_title: "クォータ警告",
            threshold_body: "{{provider}} {{tier}} が {{percent}}% 使用中",
            reset_approaching_title: "リセット間近",
            reset_approaching_body: "{{provider}} {{tier}} は 5 分後にリセット",
            reset_title: "リセット完了",
            reset_body: "{{provider}} {{tier}} のクォータがリセットされました",
            auto_switched_title: "自動切り替え",
            auto_switched_body: "{{from}} から {{to}} に切り替えました",
            exhausted_title: "{{provider}} が枯渇",
            exhausted_body: "{{provider}} の残高または割当が枯渇しました。チャージまたは切り替えが必要です",
        }
    }

    fn en() -> (t: &'static Self)
        ensures
            *t == en_texts(),
    {
        &NotificationTexts {
            threshold_title: "Quota alert",
            threshold_body: "{{provider}} {{tier}} at {{percent}}%",
            reset_approaching_title: "Reset imminent",
            reset_approaching_body: "{{provider}} {{tier}} resets in 5 minutes",
            reset_title: "Quota reset",
            reset_body: "{{provider}} {{tier}} quota has reset",
            auto_switched_title: "Auto-switched",
            auto_switched_body: "Switched from {{from}} to {{to}}",
            exhausted_title: "{{provider}} exhausted",
            exhausted_body: "{{provider}} balance or credits exhausted. Top up or switch providers.",
        }
    }
}

/// Entry point that hands out the texts of a language.
pub struct TextsLoader;

/// The language used when none is configured.
pub open spec fn configured_language(language: Option<&str>) -> Seq<char> {
    match language {
        Some(l) => l@,
        None => "zh"@,
    }
}

impl TextsLoader {
    /// The texts for `language`. The tables are program-wide constants, so two calls
    /// with the same language hand out the same reference.
    pub fn resolve(language: &str) -> (t: &'static NotificationTexts)
        ensures
            *t == texts_for(language@),
    {
        NotificationTexts::table(language)
    }

    /// The texts for the configured language (`None` when the user never chose one,
    /// which means simplified Chinese).
    pub fn resolve_for_current_language(language: Option<&str>) -> (r: LangRef)
        ensures
            r.texts() == texts_for(configured_language(language)),
    {
        let lang = match language {
            Some(l) => l,
            None => "zh",
        };
        LangRef(Self::resolve(lang))
    }
}

/// A handle on the texts of one language.
pub struct LangRef(&'static NotificationTexts);

impl LangRef {
    /// The texts this handle points to.
    pub closed spec fn texts(&self) -> NotificationTexts {
        *self.0
    }

    /// The texts this handle points to.
    pub fn snapshot(&self) -> (t: &'static NotificationTexts)
        ensures
            *t == self.texts(),
    {
        self.0
    }
}

impl core::ops::Deref for LangRef {
    type Target = NotificationTexts;

    fn deref(&self) -> (t: &NotificationTexts)
        ensures
            *t == self.texts(),
    {
        self.0
    }
}

/// Remembers the last language that was resolved and its table.
pub struct LangCache {
    inner: Option<(String, &'static NotificationTexts)>,
}

impl LangCache {
    /// The language whose table is cached, if any.
    pub closed spec fn cached_language(&self) -> Option<Seq<char>> {
        match self.inner {
            Some((l, _)) => Some(l@),
            None => None,
        }
    }

    #[verifier::type_invariant]
    closed spec fn well_formed(&self) -> bool {
        match self.inner {
            Some((l, t)) => *t == texts_for(l@),
            None => true,
        }
    }

    /// An empty cache.
    pub fn new() -> (c: Self)
        ensures
            c.cached_language() == None::<Seq<char>>,
    {
        LangCache { inner: None }
    }

    /// The texts for `language`: the cached table when `language` is the cached one,
    /// else a fresh lookup, which then becomes the cached entry.
    pub fn get_or_resolve(&mut self, language: &str) -> (t: &'static NotificationTexts)
        ensures
            *t == texts_for(language@),
            final(self).cached_language() == Some(language@),
    {
        proof {
            use_type_invariant(&*self);
        }
        if let Some((cached_lang, cached)) = &self.inner {
            if str_eq(cached_lang.as_str(), language) {
                return *cached;
            }
        }
        let resolved = NotificationTexts::table(language);
        self.inner = Some((language.to_owned(), resolved));
        resolved
    }
}

} // verus!
