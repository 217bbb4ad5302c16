//! Filling the templates of a `NotificationTexts` into a notice title and body.
use vstd::prelude::*;
use crate::strings::{decimal, replace_all, replace_str, u8_to_decimal};
use crate::texts::NotificationTexts;

verus! {

/// `template` with `{{provider}}` replaced by `provider`.
pub open spec fn with_provider(template: Seq<char>, provider: Seq<char>) -> Seq<char> {
    replace_all(template, "{{provider}}"@, provider)
}

/// `template` with `{{provider}}`, then `{{tier}}`, replaced.
pub open spec fn with_provider_tier(
    template: Seq<char>,
    provider: Seq<char>,
    tier: Seq<char>,
) -> Seq<char> {
    replace_all(with_provider(template, provider), "{{tier}}"@, tier)
}

/// Title and body of a threshold alert.
pub open spec fn threshold_notice(
    t: NotificationTexts,
    provider: Seq<char>,
    tier: Seq<char>,
    pct: nat,
) -> (Seq<char>, Seq<char>) {
    (
        with_provider(t.threshold_title@, provider),
        replace_all(
            with_provider_tier(t.threshold_body@, provider, tier),
            "{{percent}}"@,
            decimal(pct),
        ),
    )
}

/// Title and body of the "exhausted" notice of a balance provider.
pub open spec fn exhausted_notice(t: NotificationTexts, provider: Seq<char>) -> (
    Seq<char>,
    Seq<char>,
) {
    (with_provider(t.exhausted_title@, provider), with_provider(t.exhausted_body@, provider))
}

/// Title and body of the notice that the active provider was switched from `old` to `new`.
pub open spec fn auto_switched_notice(t: NotificationTexts, old: Seq<char>, new: Seq<char>) -> (
    Seq<char>,
    Seq<char>,
) {
    (
        t.auto_switched_title@,
        replace_all(replace_all(t.auto_switched_body@, "{{from}}"@, old), "{{to}}"@, new),
    )
}

/// Title and body of the notice sent shortly before a tier resets.
pub open spec fn reset_approaching_notice(
    t: NotificationTexts,
    provider: Seq<char>,
    tier: Seq<char>,
) -> (Seq<char>, Seq<char>) {
    (
        with_provider(t.reset_approaching_title@, provider),
        with_provider_tier(t.reset_approaching_body@, provider, tier),
    )
}

/// Title and body of the notice sent when a tier has reset.
pub open spec fn reset_notice(t: NotificationTexts, provider: Seq<char>, tier: Seq<char>) -> (
    Seq<char>,
    Seq<char>,
) {
    (with_provider(t.reset_title@, provider), with_provider_tier(t.reset_body@, provider, tier))
}

fn fill_provider(template: &str, provider_name: &str) -> (r: String)
    ensures
        r@ == with_provider(template@, provider_name@),
{
    proof {
        reveal_strlit("{{provider}}");
    }
    replace_str(template, "{{provider}}", provider_name)
}

fn fill_provider_tier(template: &str, provider_name: &str, tier_name: &str) -> (r: String)
    ensures
        r@ == with_provider_tier(template@, provider_name@, tier_name@),
{
    proof {
        reveal_strlit("{{tier}}");
    }
    let p = fill_provider(template, provider_name);
    replace_str(p.as_str(), "{{tier}}", tier_name)
}

/// A threshold alert for `tier_name` of `provider_name` at `pct` percent.
pub fn render_threshold(
    t: &NotificationTexts,
    provider_name: &str,
    tier_name: &str,
    pct: u8,
) -> (r: (String, String))
    ensures
        (r.0@, r.1@) == threshold_notice(*t, provider_name@, tier_name@, pct as nat),
{
    proof {
        reveal_strlit("{{percent}}");
    }
    let title = fill_provider(t.threshold_title, provider_name);
    let body = fill_provider_tier(t.threshold_body, provider_name, tier_name);
    let pct_text = u8_to_decimal(pct);
    let body = replace_str(body.as_str(), "{{percent}}", pct_text.as_str());
    (title, body)
}

/// The "exhausted" notice of `provider_name`.
pub fn render_exhausted(t: &NotificationTexts, provider_name: &str) -> (r: (String, String))
    ensures
        (r.0@, r.1@) == exhausted_notice(*t, provider_name@),
{
    let title = fill_provider(t.exhausted_title, provider_name);
    let body = fill_provider(t.exhausted_body, provider_name);
    (title, body)
}

/// The notice that the active provider was switched from `old` to `new`.
pub fn render_auto_switched(t: &NotificationTexts, old: &str, new: &str) -> (r: (String, String))
    ensures
        (r.0@, r.1@) == auto_switched_notice(*t, old@, new@),
{
    proof {
        reveal_strlit("{{from}}");
        reveal_strlit("{{to}}");
    }
    let title = t.auto_switched_title.to_owned();
    let body = replace_str(t.auto_switched_body, "{{from}}", old);
    let body = replace_str(body.as_str(), "{{to}}", new);
    (title, body)
}

/// The notice that `tier_name` of `provider_name` resets soon.
pub fn render_reset_approaching(
    t: &NotificationTexts,
    provider_name: &str,
    tier_name: &str,
) -> (r: (String, String))
    ensures
        (r.0@, r.1@) == reset_approaching_notice(*t, provider_name@, tier_name@),
{
    let title = fill_provider(t.reset_approaching_title, provider_name);
    let body = fill_provider_tier(t.reset_approaching_body, provider_name, tier_name);
    (title, body)
}

/// The notice that `tier_name` of `provider_name` has reset.
pub fn render_reset(t: &NotificationTexts, provider_name: &str, tier_name: &str) -> (r: (
    String,
    String,
))
    ensures
        (r.0@, r.1@) == reset_notice(*t, provider_name@, tier_name@),
{
    let title = fill_provider(t.reset_title, provider_name);
    let body = fill_provider_tier(t.reset_body, provider_name, tier_name);
    (title, body)
}

} // verus!
