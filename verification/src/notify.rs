//! The decisions of the notification flows: which threshold alerts are due, which
//! reset reminders to (re)schedule, when a balance provider is reported exhausted,
//! and what a restart restores. Each function takes the dedup state and what the
//! caller observed, updates the state, and returns what is to be sent or scheduled.
use vstd::prelude::*;
use crate::clock::{parse_iso8601_to_epoch, rfc3339_epoch, utc_date_of, utc_date_string};
use crate::dedup::{fired_on, fresh_reset, DedupState, DedupView, ScheduledReset, ScheduledResetView};
use crate::store::StrMap;
use crate::keys::{
    exhausted_key, exhausted_key_of, reset_key, reset_key_of, threshold_dedup_key,
    threshold_dedup_key_of,
};
use crate::render::{
    auto_switched_notice, exhausted_notice, render_auto_switched, render_exhausted, render_reset,
    render_reset_approaching, render_threshold, reset_approaching_notice, reset_notice,
    threshold_notice,
};
use crate::texts::NotificationTexts;

verus! {

/// Usage percentages that raise an alert, in ascending order.
pub const THRESHOLDS: [u8; 3] = [80, 95, 100];

/// Seconds between the "reset approaching" reminder and the reset.
pub const RESET_WARN_LEAD_SECONDS: i64 = 5 * 60;

/// A rescheduled reminder pair whose reset time is unchanged and whose warning
/// moves by less than this many seconds is left as it is.
pub const RESCHEDULE_MIN_DELTA_SECONDS: i64 = 60;

/// Reset reminders whose reset lies more than this many hours in the past are
/// dropped at start-up.
pub const MISSED_WINDOW_GRACE_HOURS: i64 = 24;

/// The `i`-th entry of `THRESHOLDS`.
pub open spec fn threshold_at(i: int) -> u8 {
    if i == 0 {
        80
    } else if i == 1 {
        95
    } else {
        100
    }
}

/// One quota tier as reported by a provider.
pub struct QuotaTier {
    /// Tier name, e.g. `five_hour`.
    pub name: String,
    /// Used share of the quota in whole percent, truncated toward zero (what
    /// `f64 as u32` makes of the reported utilization; `NaN` and negatives give 0).
    pub utilization: u32,
    /// When the tier resets, as an RFC 3339 timestamp.
    pub resets_at: Option<String>,
}

/// The user's notification switches.
#[derive(Clone, Copy, Debug)]
pub struct NotificationSettings {
    pub enable_notifications: bool,
    pub notify_on_threshold_reached: bool,
    pub notify_on_reset_approaching: bool,
    pub notify_on_auto_switch: bool,
}

/// An optional (title, body), taken as character sequences.
pub open spec fn notice_opt_view(r: Option<(String, String)>) -> Option<(Seq<char>, Seq<char>)> {
    match r {
        Some(n) => Some((n.0@, n.1@)),
        None => None,
    }
}

/// Titles and bodies, taken as character sequences.
pub open spec fn notice_views(s: Seq<(String, String)>) -> Seq<(Seq<char>, Seq<char>)> {
    s.map_values(|n: (String, String)| (n.0@, n.1@))
}

/// Whether the alert for `pct` of `tier` is due: the tier reached `pct` and the
/// alert was not sent today.
pub open spec fn threshold_due(
    fired: Map<Seq<char>, Seq<char>>,
    provider_id: Seq<char>,
    tier: QuotaTier,
    today: Seq<char>,
    pct: u8,
) -> bool {
    &&& tier.utilization >= pct
    &&& !fired_on(fired, threshold_dedup_key_of(provider_id, tier.name@, pct as nat), today)
}

/// The due alerts among the first `n` thresholds, in ascending order.
pub open spec fn due_thresholds(
    fired: Map<Seq<char>, Seq<char>>,
    provider_id: Seq<char>,
    tier: QuotaTier,
    today: Seq<char>,
    n: nat,
) -> Seq<u8>
    decreases n,
{
    if n == 0 {
        seq![]
    } else {
        let prev = due_thresholds(fired, provider_id, tier, today, (n - 1) as nat);
        let p = threshold_at(n - 1);
        if threshold_due(fired, provider_id, tier, today, p) {
            prev.push(p)
        } else {
            prev
        }
    }
}

/// Sends the alerts `due` of one tier: each is recorded as sent `today` and its
/// notice appended to `notices`.
pub open spec fn mark_due(
    fired: Map<Seq<char>, Seq<char>>,
    notices: Seq<(Seq<char>, Seq<char>)>,
    texts: NotificationTexts,
    provider_id: Seq<char>,
    provider_name: Seq<char>,
    tier_name: Seq<char>,
    today: Seq<char>,
    due: Seq<u8>,
    n: nat,
) -> (Map<Seq<char>, Seq<char>>, Seq<(Seq<char>, Seq<char>)>)
    decreases n,
{
    if n == 0 {
        (fired, notices)
    } else {
        let prev = mark_due(
            fired,
            notices,
            texts,
            provider_id,
            provider_name,
            tier_name,
            today,
            due,
            (n - 1) as nat,
        );
        let p = due[n - 1];
        (
            prev.0.insert(threshold_dedup_key_of(provider_id, tier_name, p as nat), today),
            prev.1.push(threshold_notice(texts, provider_name, tier_name, p as nat)),
        )
    }
}

/// The threshold alerts of the first `n` tiers: the recorded dates afterwards and
/// the notices, tier after tier.
pub open spec fn thresholds_pass(
    fired: Map<Seq<char>, Seq<char>>,
    texts: NotificationTexts,
    provider_id: Seq<char>,
    provider_name: Seq<char>,
    tiers: Seq<QuotaTier>,
    today: Seq<char>,
    n: nat,
) -> (Map<Seq<char>, Seq<char>>, Seq<(Seq<char>, Seq<char>)>)
    decreases n,
{
    if n == 0 {
        (fired, seq![])
    } else {
        let prev = thresholds_pass(
            fired,
            texts,
            provider_id,
            provider_name,
            tiers,
            today,
            (n - 1) as nat,
        );
        let tier = tiers[n - 1];
        let due = due_thresholds(prev.0, provider_id, tier, today, 3);
        mark_due(
            prev.0,
            prev.1,
            texts,
            provider_id,
            provider_name,
            tier.name@,
            today,
            due,
            due.len(),
        )
    }
}

/// The thresholds of `tier` whose alert is due `today`, in ascending order.
pub fn thresholds_to_fire(
    state: &DedupState,
    provider_id: &str,
    tier: &QuotaTier,
    today: &str,
) -> (r: Vec<u8>)
    ensures
        r@ == due_thresholds(state@.fired, provider_id@, *tier, today@, 3),
{
    let mut r: Vec<u8> = Vec::new();
    let mut i: usize = 0;
    while i < 3
        invariant
            i <= 3,
            r@ == due_thresholds(state@.fired, provider_id@, *tier, today@, i as nat),
        decreases 3 - i,
    {
        let pct = THRESHOLDS[i];
        assert(pct == threshold_at(i as int));
        if tier.utilization >= pct as u32 {
            let key = threshold_dedup_key(provider_id, tier.name.as_str(), pct);
            if !state.was_fired_on(key.as_str(), today) {
                r.push(pct);
            }
        }
        i = i + 1;
    }
    r
}

/// Records the alert for `threshold` of `tier_name` of `provider_id` as sent `today`.
pub fn mark_threshold_fired(
    state: &mut DedupState,
    provider_id: &str,
    tier_name: &str,
    threshold: u8,
    today: String,
)
    ensures
        final(state)@.fired == old(state)@.fired.insert(
            threshold_dedup_key_of(provider_id@, tier_name@, threshold as nat),
            today@,
        ),
        final(state)@.resets == old(state)@.resets,
{
    let key = threshold_dedup_key(provider_id, tier_name, threshold);
    state.record_fired(key, today);
}

/// Sends the due threshold alerts of all `tiers`: each is recorded as sent `today`
/// and returned as (title, body), tier after tier, thresholds ascending.
pub fn fire_thresholds(
    state: &mut DedupState,
    texts: &NotificationTexts,
    provider_id: &str,
    provider_name: &str,
    tiers: &Vec<QuotaTier>,
    today: &str,
) -> (notices: Vec<(String, String)>)
    ensures
        (final(state)@.fired, notice_views(notices@)) == thresholds_pass(
            old(state)@.fired,
            *texts,
            provider_id@,
            provider_name@,
            tiers@,
            today@,
            tiers@.len(),
        ),
        final(state)@.resets == old(state)@.resets,
{
    let mut notices: Vec<(String, String)> = Vec::new();
    let n = tiers.len();
    let mut j: usize = 0;
    assert(notice_views(notices@) =~= Seq::<(Seq<char>, Seq<char>)>::empty());
    while j < n
        invariant
            j <= n,
            n == tiers@.len(),
            state@.resets == old(state)@.resets,
            (state@.fired, notice_views(notices@)) == thresholds_pass(
                old(state)@.fired,
                *texts,
                provider_id@,
                provider_name@,
                tiers@,
                today@,
                j as nat,
            ),
        decreases n - j,
    {
        let tier = &tiers[j];
        let due = thresholds_to_fire(state, provider_id, tier, today);
        let ghost f0 = state@.fired;
        let ghost n0 = notice_views(notices@);
        let m = due.len();
        let mut k: usize = 0;
        while k < m
            invariant
                k <= m,
                m == due@.len(),
                state@.resets == old(state)@.resets,
                (state@.fired, notice_views(notices@)) == mark_due(
                    f0,
                    n0,
                    *texts,
                    provider_id@,
                    provider_name@,
                    tier.name@,
                    today@,
                    due@,
                    k as nat,
                ),
            decreases m - k,
        {
            let pct = due[k];
            let notice = render_threshold(texts, provider_name, tier.name.as_str(), pct);
            let ghost before = notices@;
            notices.push(notice);
            assert(notice_views(notices@) =~= notice_views(before).push(
                threshold_notice(*texts, provider_name@, tier.name@, pct as nat),
            ));
            mark_threshold_fired(state, provider_id, tier.name.as_str(), pct, today.to_owned());
            k = k + 1;
        }
        j = j + 1;
    }
    notices
}

/// A reminder pair to start: abort the tasks already running under `key` when
/// `replaces_existing`, then start the pair described by `entry`.
pub struct ResetSchedule {
    pub key: String,
    pub entry: ScheduledReset,
    pub replaces_existing: bool,
}

/// `ResetSchedule` with its texts taken as character sequences.
pub struct ResetScheduleView {
    pub key: Seq<char>,
    pub entry: ScheduledResetView,
    pub replaces_existing: bool,
}

impl View for ResetSchedule {
    type V = ResetScheduleView;

    open spec fn view(&self) -> ResetScheduleView {
        ResetScheduleView {
            key: self.key@,
            entry: self.entry@,
            replaces_existing: self.replaces_existing,
        }
    }
}

/// The optional schedule taken by its view.
pub open spec fn schedule_opt_view(r: Option<ResetSchedule>) -> Option<ResetScheduleView> {
    match r {
        Some(s) => Some(s@),
        None => None,
    }
}

/// The schedules taken by their views.
pub open spec fn schedule_views(s: Seq<ResetSchedule>) -> Seq<ResetScheduleView> {
    s.map_values(|x: ResetSchedule| x@)
}

/// Whether a pair due at `warn` and `reset` only jitters around `existing`: same reset
/// time, and a warning less than `RESCHEDULE_MIN_DELTA_SECONDS` away.
pub open spec fn is_jitter(existing: ScheduledResetView, warn: int, reset: int) -> bool {
    &&& (if existing.warn_at_epoch >= warn {
        existing.warn_at_epoch - warn
    } else {
        warn - existing.warn_at_epoch
    }) < RESCHEDULE_MIN_DELTA_SECONDS
    &&& existing.reset_at_epoch == reset
}

/// Scheduling the pair (`warn`, `reset`) under `key`: nothing when it only jitters
/// around the scheduled pair, else the fresh pair is recorded and started.
pub open spec fn reset_step(
    resets: Map<Seq<char>, ScheduledResetView>,
    key: Seq<char>,
    warn: int,
    reset: int,
    provider_name: Seq<char>,
    tier_name: Seq<char>,
) -> (Map<Seq<char>, ScheduledResetView>, Option<ResetScheduleView>) {
    if resets.contains_key(key) && is_jitter(resets[key], warn, reset) {
        (resets, None)
    } else {
        let e = fresh_reset(warn, reset, provider_name, tier_name);
        (
            resets.insert(key, e),
            Some(ResetScheduleView { key, entry: e, replaces_existing: resets.contains_key(key) }),
        )
    }
}

/// The reminder pairs of the first `n` tiers: every tier whose reset time (`epochs`)
/// is known and lies after `now` gets a pair, warned `RESET_WARN_LEAD_SECONDS` early.
pub open spec fn resets_pass(
    resets: Map<Seq<char>, ScheduledResetView>,
    provider_id: Seq<char>,
    provider_name: Seq<char>,
    tiers: Seq<QuotaTier>,
    epochs: Seq<Option<i64>>,
    now: int,
    n: nat,
) -> (Map<Seq<char>, ScheduledResetView>, Seq<ResetScheduleView>)
    decreases n,
{
    if n == 0 {
        (resets, seq![])
    } else {
        let prev = resets_pass(
            resets,
            provider_id,
            provider_name,
            tiers,
            epochs,
            now,
            (n - 1) as nat,
        );
        let tier = tiers[n - 1];
        match epochs[n - 1] {
            Some(r) => if r > now {
                let step = reset_step(
                    prev.0,
                    reset_key_of(provider_id, tier.name@),
                    r - RESET_WARN_LEAD_SECONDS,
                    r as int,
                    provider_name,
                    tier.name@,
                );
                (
                    step.0,
                    match step.1 {
                        Some(s) => prev.1.push(s),
                        None => prev.1,
                    },
                )
            } else {
                prev
            },
            None => prev,
        }
    }
}

/// Records the reminder pair of `tier_name` of `provider_id`, due at `warn_epoch` and
/// `reset_epoch`, unless it only jitters around the pair already recorded; returns the
/// pair to start, if any.
pub fn schedule_reset_pair(
    state: &mut DedupState,
    provider_id: &str,
    tier_name: &str,
    warn_epoch: i64,
    reset_epoch: i64,
    provider_name: &str,
) -> (r: Option<ResetSchedule>)
    ensures
        (final(state)@.resets, schedule_opt_view(r)) == reset_step(
            old(state)@.resets,
            reset_key_of(provider_id@, tier_name@),
            warn_epoch as int,
            reset_epoch as int,
            provider_name@,
            tier_name@,
        ),
        final(state)@.fired == old(state)@.fired,
{
    let key = reset_key(provider_id, tier_name);
    let replaces_existing = match state.resets_scheduled.get(key.as_str()) {
        Some(existing) => {
            let delta: i128 = existing.warn_at_epoch as i128 - warn_epoch as i128;
            let abs_delta: i128 = if delta >= 0 {
                delta
            } else {
                -delta
            };
            if abs_delta < RESCHEDULE_MIN_DELTA_SECONDS as i128 && existing.reset_at_epoch
                == reset_epoch {
                return None;
            }
            true
        },
        None => false,
    };
    let entry = ScheduledReset {
        warn_at_epoch: warn_epoch,
        reset_at_epoch: reset_epoch,
        warn_fired: false,
        reset_fired: false,
        provider_name: provider_name.to_owned(),
        tier_label: tier_name.to_owned(),
    };
    let stored = entry.clone();
    state.resets_scheduled.insert(key.clone(), stored);
    Some(ResetSchedule { key, entry, replaces_existing })
}

/// Schedules the reminder pairs of all `tiers`, given their reset times `epochs`
/// (`None` where unknown): each tier resetting after `now` gets a pair whose warning
/// comes `RESET_WARN_LEAD_SECONDS` before the reset.
pub fn schedule_resets(
    state: &mut DedupState,
    provider_id: &str,
    provider_name: &str,
    tiers: &Vec<QuotaTier>,
    epochs: &Vec<Option<i64>>,
    now: i64,
) -> (schedules: Vec<ResetSchedule>)
    requires
        epochs@.len() == tiers@.len(),
        now >= i64::MIN + RESET_WARN_LEAD_SECONDS,
    ensures
        (final(state)@.resets, schedule_views(schedules@)) == resets_pass(
            old(state)@.resets,
            provider_id@,
            provider_name@,
            tiers@,
            epochs@,
            now as int,
            tiers@.len(),
        ),
        final(state)@.fired == old(state)@.fired,
{
    let mut schedules: Vec<ResetSchedule> = Vec::new();
    let n = tiers.len();
    let mut j: usize = 0;
    assert(schedule_views(schedules@) =~= Seq::<ResetScheduleView>::empty());
    while j < n
        invariant
            j <= n,
            n == tiers@.len(),
            epochs@.len() == n,
            now >= i64::MIN + RESET_WARN_LEAD_SECONDS,
            state@.fired == old(state)@.fired,
            (state@.resets, schedule_views(schedules@)) == resets_pass(
                old(state)@.resets,
                provider_id@,
                provider_name@,
                tiers@,
                epochs@,
                now as int,
                j as nat,
            ),
        decreases n - j,
    {
        let tier = &tiers[j];
        match epochs[j] {
            Some(reset_epoch) => {
                if reset_epoch > now {
                    let warn_epoch = reset_epoch - RESET_WARN_LEAD_SECONDS;
                    let r = schedule_reset_pair(
                        state,
                        provider_id,
                        tier.name.as_str(),
                        warn_epoch,
                        reset_epoch,
                        provider_name,
                    );
                    match r {
                        Some(s) => {
                            let ghost before = schedules@;
                            schedules.push(s);
                            assert(schedule_views(schedules@) =~= schedule_views(before).push(
                                s@,
                            ));
                        },
                        None => {},
                    }
                }
            },
            None => {},
        }
        j = j + 1;
    }
    schedules
}

/// What one quota reading asks for: notices to send now and reminder pairs to start.
pub struct SubscriptionPlan {
    pub notices: Vec<(String, String)>,
    pub schedules: Vec<ResetSchedule>,
}

/// The reset time of `tier`, read from its RFC 3339 `resets_at`.
pub open spec fn tier_reset_epoch(tier: QuotaTier) -> Option<i64> {
    match tier.resets_at {
        Some(s) => rfc3339_epoch(s@),
        None => None,
    }
}

/// The reset times of `tiers`, one per tier.
pub open spec fn tier_reset_epochs(tiers: Seq<QuotaTier>) -> Seq<Option<i64>> {
    Seq::new(tiers.len(), |i: int| tier_reset_epoch(tiers[i]))
}

/// The reset time of each tier (`None` where it has none or it does not parse).
pub fn reset_epochs(tiers: &Vec<QuotaTier>) -> (r: Vec<Option<i64>>)
    ensures
        r@ == tier_reset_epochs(tiers@),
{
    let mut r: Vec<Option<i64>> = Vec::new();
    let n = tiers.len();
    let mut j: usize = 0;
    while j < n
        invariant
            j <= n,
            n == tiers@.len(),
            r@ == tier_reset_epochs(tiers@).subrange(0, j as int),
        decreases n - j,
    {
        let e = match &tiers[j].resets_at {
            Some(s) => parse_iso8601_to_epoch(s.as_str()),
            None => None,
        };
        r.push(e);
        j = j + 1;
        assert(r@ =~= tier_reset_epochs(tiers@).subrange(0, j as int));
    }
    assert(r@ =~= tier_reset_epochs(tiers@));
    r
}

/// Handles a quota reading of `provider_id` taken at `now` (Unix seconds).
///
/// With notifications off nothing happens. Otherwise, when threshold alerts are on,
/// the due alerts of every tier are sent and recorded under today's UTC date; when
/// reset reminders are on, every tier that resets after `now` gets a reminder pair.
pub fn check_and_notify_subscription(
    state: &mut DedupState,
    settings: &NotificationSettings,
    texts: &NotificationTexts,
    provider_id: &str,
    provider_name: &str,
    tiers: &Vec<QuotaTier>,
    now: i64,
) -> (plan: SubscriptionPlan)
    requires
        now >= i64::MIN + RESET_WARN_LEAD_SECONDS,
    ensures
        !settings.enable_notifications ==> final(state)@ == old(state)@ && plan.notices@.len() == 0
            && plan.schedules@.len() == 0,
        settings.enable_notifications ==> (final(state)@.fired, notice_views(plan.notices@)) == (
        if settings.notify_on_threshold_reached && utc_date_of(now) is Some {
            thresholds_pass(
                old(state)@.fired,
                *texts,
                provider_id@,
                provider_name@,
                tiers@,
                utc_date_of(now)->0,
                tiers@.len(),
            )
        } else {
            (old(state)@.fired, Seq::<(Seq<char>, Seq<char>)>::empty())
        }),
        settings.enable_notifications ==> (final(state)@.resets, schedule_views(plan.schedules@)) == (
        if settings.notify_on_reset_approaching {
            resets_pass(
                old(state)@.resets,
                provider_id@,
                provider_name@,
                tiers@,
                tier_reset_epochs(tiers@),
                now as int,
                tiers@.len(),
            )
        } else {
            (old(state)@.resets, Seq::<ResetScheduleView>::empty())
        }),
{
    let mut notices: Vec<(String, String)> = Vec::new();
    let mut schedules: Vec<ResetSchedule> = Vec::new();
    if !settings.enable_notifications {
        return SubscriptionPlan { notices, schedules };
    }
    assert(notice_views(notices@) =~= Seq::<(Seq<char>, Seq<char>)>::empty());
    assert(schedule_views(schedules@) =~= Seq::<ResetScheduleView>::empty());
    if settings.notify_on_threshold_reached {
        match utc_date_string(now) {
            Some(today) => {
                notices = fire_thresholds(
                    state,
                    texts,
                    provider_id,
                    provider_name,
                    tiers,
                    today.as_str(),
                );
            },
            None => {},
        }
    }
    if settings.notify_on_reset_approaching {
        let epochs = reset_epochs(tiers);
        schedules = schedule_resets(state, provider_id, provider_name, tiers, &epochs, now);
    }
    SubscriptionPlan { notices, schedules }
}

/// Handles a coding-plan quota reading: a successful query is handled as a
/// subscription reading, a failed one sends and records nothing.
pub fn check_and_notify_coding_plan(
    state: &mut DedupState,
    settings: &NotificationSettings,
    texts: &NotificationTexts,
    provider_id: &str,
    provider_name: &str,
    success: bool,
    tiers: &Vec<QuotaTier>,
    now: i64,
) -> (plan: SubscriptionPlan)
    requires
        now >= i64::MIN + RESET_WARN_LEAD_SECONDS,
    ensures
        !success ==> final(state)@ == old(state)@ && plan.notices@.len() == 0
            && plan.schedules@.len() == 0,
        success && !settings.enable_notifications ==> final(state)@ == old(state)@
            && plan.notices@.len() == 0 && plan.schedules@.len() == 0,
        success && settings.enable_notifications ==> (
        final(state)@.fired,
        notice_views(plan.notices@),
        ) == (if settings.notify_on_threshold_reached && utc_date_of(now) is Some {
            thresholds_pass(
                old(state)@.fired,
                *texts,
                provider_id@,
                provider_name@,
                tiers@,
                utc_date_of(now)->0,
                tiers@.len(),
            )
        } else {
            (old(state)@.fired, Seq::<(Seq<char>, Seq<char>)>::empty())
        }),
        success && settings.enable_notifications ==> (
        final(state)@.resets,
        schedule_views(plan.schedules@),
        ) == (if settings.notify_on_reset_approaching {
            resets_pass(
                old(state)@.resets,
                provider_id@,
                provider_name@,
                tiers@,
                tier_reset_epochs(tiers@),
                now as int,
                tiers@.len(),
            )
        } else {
            (old(state)@.resets, Seq::<ResetScheduleView>::empty())
        }),
{
    if !success {
        return SubscriptionPlan { notices: Vec::new(), schedules: Vec::new() };
    }
    check_and_notify_subscription(state, settings, texts, provider_id, provider_name, tiers, now)
}

/// A failed balance reading of `provider_id` on `today`: the "exhausted" notice is
/// recorded and sent unless it was already sent that day.
pub open spec fn exhausted_step(
    fired: Map<Seq<char>, Seq<char>>,
    texts: NotificationTexts,
    provider_id: Seq<char>,
    provider_name: Seq<char>,
    today: Seq<char>,
) -> (Map<Seq<char>, Seq<char>>, Option<(Seq<char>, Seq<char>)>) {
    let key = exhausted_key_of(provider_id);
    if fired_on(fired, key, today) {
        (fired, None)
    } else {
        (fired.insert(key, today), Some(exhausted_notice(texts, provider_name)))
    }
}

/// A balance reading: only a failed query (`success == false`) with notifications on
/// and a known UTC date (`today`) can send the "exhausted" notice.
pub open spec fn balance_outcome(
    state: DedupView,
    settings: NotificationSettings,
    texts: NotificationTexts,
    provider_id: Seq<char>,
    provider_name: Seq<char>,
    success: bool,
    today: Option<Seq<char>>,
) -> (DedupView, Option<(Seq<char>, Seq<char>)>) {
    if !settings.enable_notifications || success || today is None {
        (state, None)
    } else {
        let step = exhausted_step(state.fired, texts, provider_id, provider_name, today->0);
        (DedupView { fired: step.0, resets: state.resets }, step.1)
    }
}

/// Records that `provider_id` was reported exhausted `today`; returns the notice to
/// send, or `None` when it was already sent today.
pub fn exhausted_notice_on(
    state: &mut DedupState,
    texts: &NotificationTexts,
    provider_id: &str,
    provider_name: &str,
    today: &str,
) -> (r: Option<(String, String)>)
    ensures
        (final(state)@.fired, notice_opt_view(r)) == exhausted_step(
            old(state)@.fired,
            *texts,
            provider_id@,
            provider_name@,
            today@,
        ),
        final(state)@.resets == old(state)@.resets,
{
    let key = exhausted_key(provider_id);
    if state.was_fired_on(key.as_str(), today) {
        return None;
    }
    let notice = render_exhausted(texts, provider_name);
    state.record_fired(key, today.to_owned());
    Some(notice)
}

/// Handles a balance reading of `provider_id` taken at `now`: a provider whose query
/// failed (`success == false`) is reported exhausted, at most once per UTC day.
pub fn check_and_notify_balance(
    state: &mut DedupState,
    settings: &NotificationSettings,
    texts: &NotificationTexts,
    provider_id: &str,
    provider_name: &str,
    success: bool,
    now: i64,
) -> (r: Option<(String, String)>)
    ensures
        (final(state)@, notice_opt_view(r)) == balance_outcome(
            old(state)@,
            *settings,
            *texts,
            provider_id@,
            provider_name@,
            success,
            utc_date_of(now),
        ),
{
    if !settings.enable_notifications || success {
        return None;
    }
    match utc_date_string(now) {
        Some(today) => exhausted_notice_on(state, texts, provider_id, provider_name, today.as_str()),
        None => None,
    }
}

/// The notice that the active provider was switched from `provider_name` to
/// `new_provider_name`, when notifications and switch notices are on.
pub fn notify_auto_switched(
    settings: &NotificationSettings,
    texts: &NotificationTexts,
    provider_name: &str,
    new_provider_name: &str,
) -> (r: Option<(String, String)>)
    ensures
        r is Some <==> settings.enable_notifications && settings.notify_on_auto_switch,
        r is Some ==> notice_opt_view(r) == Some(
            auto_switched_notice(*texts, provider_name@, new_provider_name@),
        ),
{
    if !settings.enable_notifications {
        return None;
    }
    if !settings.notify_on_auto_switch {
        return None;
    }
    Some(render_auto_switched(texts, provider_name, new_provider_name))
}

/// The reminder entry `e` with its warning marked as sent.
pub open spec fn with_warn_fired(e: ScheduledResetView) -> ScheduledResetView {
    ScheduledResetView { warn_fired: true, ..e }
}

/// The reminder entry `e` with its reset reminder marked as sent.
pub open spec fn with_reset_fired(e: ScheduledResetView) -> ScheduledResetView {
    ScheduledResetView { reset_fired: true, ..e }
}

/// Firing the warning of the pair recorded under `key`: nothing when notifications
/// are off or the warning was already sent; otherwise the recorded pair (if any) is
/// marked as warned and the notice is sent.
pub open spec fn warn_fire_step(
    resets: Map<Seq<char>, ScheduledResetView>,
    enabled: bool,
    texts: NotificationTexts,
    key: Seq<char>,
    tier_name: Seq<char>,
    provider_name: Seq<char>,
) -> (Map<Seq<char>, ScheduledResetView>, Option<(Seq<char>, Seq<char>)>) {
    if !enabled || (resets.contains_key(key) && resets[key].warn_fired) {
        (resets, None)
    } else {
        (
            if resets.contains_key(key) {
                resets.insert(key, with_warn_fired(resets[key]))
            } else {
                resets
            },
            Some(reset_approaching_notice(texts, provider_name, tier_name)),
        )
    }
}

/// Firing the reset reminder of the pair recorded under `key`: nothing when
/// notifications are off or it was already sent; otherwise the recorded pair (if any)
/// is marked as reset-sent, so that it is never sent twice, and the notice is sent.
/// Start-up pruning drops the pair once its reset is more than a day old.
pub open spec fn reset_fire_step(
    resets: Map<Seq<char>, ScheduledResetView>,
    enabled: bool,
    texts: NotificationTexts,
    key: Seq<char>,
    tier_name: Seq<char>,
    provider_name: Seq<char>,
) -> (Map<Seq<char>, ScheduledResetView>, Option<(Seq<char>, Seq<char>)>) {
    if !enabled || (resets.contains_key(key) && resets[key].reset_fired) {
        (resets, None)
    } else {
        (
            if resets.contains_key(key) {
                resets.insert(key, with_reset_fired(resets[key]))
            } else {
                resets
            },
            Some(reset_notice(texts, provider_name, tier_name)),
        )
    }
}

/// Fires the "reset approaching" reminder recorded under `key`: nothing when
/// notifications are off or that warning was already sent; otherwise it is marked
/// as sent (when recorded) and its notice returned.
pub fn fire_warn(
    state: &mut DedupState,
    settings: &NotificationSettings,
    texts: &NotificationTexts,
    key: &str,
    tier_name: &str,
    provider_name: &str,
) -> (r: Option<(String, String)>)
    ensures
        (final(state)@.resets, notice_opt_view(r)) == warn_fire_step(
            old(state)@.resets,
            settings.enable_notifications,
            *texts,
            key@,
            tier_name@,
            provider_name@,
        ),
        final(state)@.fired == old(state)@.fired,
{
    if !settings.enable_notifications {
        return None;
    }
    let updated = match state.resets_scheduled.get(key) {
        Some(sr) => {
            if sr.warn_fired {
                return None;
            }
            let mut e = sr.clone();
            e.warn_fired = true;
            Some(e)
        },
        None => None,
    };
    match updated {
        Some(e) => {
            state.resets_scheduled.insert(key.to_owned(), e);
        },
        None => {},
    }
    Some(render_reset_approaching(texts, provider_name, tier_name))
}

/// Fires the "reset" reminder recorded under `key`: nothing when notifications are
/// off or that reminder was already sent; otherwise it is marked as sent (when
/// recorded) and its notice returned.
pub fn fire_reset(
    state: &mut DedupState,
    settings: &NotificationSettings,
    texts: &NotificationTexts,
    key: &str,
    tier_name: &str,
    provider_name: &str,
) -> (r: Option<(String, String)>)
    ensures
        (final(state)@.resets, notice_opt_view(r)) == reset_fire_step(
            old(state)@.resets,
            settings.enable_notifications,
            *texts,
            key@,
            tier_name@,
            provider_name@,
        ),
        final(state)@.fired == old(state)@.fired,
{
    if !settings.enable_notifications {
        return None;
    }
    let updated = match state.resets_scheduled.get(key) {
        Some(sr) => {
            if sr.reset_fired {
                return None;
            }
            let mut e = sr.clone();
            e.reset_fired = true;
            Some(e)
        },
        None => None,
    };
    match updated {
        Some(e) => {
            state.resets_scheduled.insert(key.to_owned(), e);
        },
        None => {},
    }
    Some(render_reset(texts, provider_name, tier_name))
}

/// Seconds from `now` until `at`, when `at` is later and the reminder is not sent yet.
pub open spec fn pending_delay(fired: bool, at: int, now: int) -> Option<u64> {
    if !fired && at > now {
        Some((at - now) as u64)
    } else {
        None
    }
}

/// How long the two reminder tasks of `entry` wait before firing, seen at `now`;
/// `None` for a task that does not fire (already sent, or its time has passed).
pub fn reset_pair_delays(entry: &ScheduledReset, now: i64) -> (r: (Option<u64>, Option<u64>))
    ensures
        r.0 == pending_delay(entry.warn_fired, entry.warn_at_epoch as int, now as int),
        r.1 == pending_delay(entry.reset_fired, entry.reset_at_epoch as int, now as int),
{
    let warn: i128 = entry.warn_at_epoch as i128 - now as i128;
    let reset: i128 = entry.reset_at_epoch as i128 - now as i128;
    let w = if !entry.warn_fired && warn > 0 {
        Some(warn as u64)
    } else {
        None
    };
    let r = if !entry.reset_fired && reset > 0 {
        Some(reset as u64)
    } else {
        None
    };
    (w, r)
}

/// Whether a recorded pair is kept at start-up: its reset lies less than
/// `MISSED_WINDOW_GRACE_HOURS` before `now`.
pub open spec fn within_grace(e: ScheduledResetView, now: int) -> bool {
    e.reset_at_epoch > now - MISSED_WINDOW_GRACE_HOURS * 3600
}

/// Whether a recorded pair still has a reminder to send.
pub open spec fn needs_task(e: ScheduledResetView) -> bool {
    !(e.warn_fired && e.reset_fired)
}

/// The recorded pairs that are kept at start-up.
pub open spec fn pruned_resets(resets: Map<Seq<char>, ScheduledResetView>, now: int) -> Map<
    Seq<char>,
    ScheduledResetView,
> {
    Map::new(
        |k: Seq<char>| resets.contains_key(k) && within_grace(resets[k], now),
        |k: Seq<char>| resets[k],
    )
}

/// The entries among the first `i` of `ev` that are kept at start-up, as a map.
pub open spec fn kept_upto(ev: Seq<(Seq<char>, ScheduledResetView)>, now: int, i: nat) -> Map<
    Seq<char>,
    ScheduledResetView,
>
    decreases i,
{
    if i == 0 {
        Map::empty()
    } else {
        let m = kept_upto(ev, now, (i - 1) as nat);
        if within_grace(ev[i - 1].1, now) {
            m.insert(ev[i - 1].0, ev[i - 1].1)
        } else {
            m
        }
    }
}

proof fn lemma_kept_upto(ev: Seq<(Seq<char>, ScheduledResetView)>, now: int, i: nat)
    requires
        i <= ev.len(),
        forall|a: int, b: int| 0 <= a < b < ev.len() ==> (#[trigger] ev[a]).0 != (#[trigger] ev[b]).0,
    ensures
        forall|j: int|
            0 <= j < i && within_grace((#[trigger] ev[j]).1, now) ==> kept_upto(
                ev,
                now,
                i,
            ).contains_key(ev[j].0) && kept_upto(ev, now, i)[ev[j].0] == ev[j].1,
        forall|k: Seq<char>| #[trigger]
            kept_upto(ev, now, i).contains_key(k) ==> exists|j: int|
                0 <= j < i && (#[trigger] ev[j]).0 == k && within_grace(ev[j].1, now),
    decreases i,
{
    if i > 0 {
        lemma_kept_upto(ev, now, (i - 1) as nat);
        let last = (i - 1) as int;
        assert forall|j: int|
            0 <= j < i && within_grace((#[trigger] ev[j]).1, now) implies kept_upto(
            ev,
            now,
            i,
        ).contains_key(ev[j].0) && kept_upto(ev, now, i)[ev[j].0] == ev[j].1 by {
            if j < last {
                assert(ev[j].0 != ev[last].0);
            }
        }
        assert forall|k: Seq<char>| #[trigger] kept_upto(ev, now, i).contains_key(k) implies exists|
            j: int,
        | 0 <= j < i && (#[trigger] ev[j]).0 == k && within_grace(ev[j].1, now) by {
            if k == ev[last].0 && within_grace(ev[last].1, now) {
                assert(ev[last].0 == k);
            } else {
                assert(kept_upto(ev, now, (i - 1) as nat).contains_key(k));
            }
        }
    }
}

proof fn lemma_bootstrap_result(
    m: Map<Seq<char>, ScheduledResetView>,
    ev: Seq<(Seq<char>, ScheduledResetView)>,
    now: int,
    kept: Map<Seq<char>, ScheduledResetView>,
    sv: Seq<ResetScheduleView>,
    idx: Seq<int>,
    pos: Seq<int>,
)
    requires
        forall|i: int|
            0 <= i < ev.len() ==> m.contains_key((#[trigger] ev[i]).0) && m[ev[i].0] == ev[i].1,
        forall|k: Seq<char>|
            #[trigger] m.contains_key(k) ==> exists|i: int| 0 <= i < ev.len() && #[trigger] ev[i].0 == k,
        forall|a: int, b: int| 0 <= a < b < ev.len() ==> (#[trigger] ev[a]).0 != (#[trigger] ev[b]).0,
        kept == kept_upto(ev, now, ev.len()),
        idx.len() == sv.len(),
        forall|t: int|
            0 <= t < sv.len() ==> 0 <= #[trigger] idx[t] < ev.len() && ev[idx[t]].0 == sv[t].key
                && sv[t].entry == ev[idx[t]].1 && within_grace(ev[idx[t]].1, now) && needs_task(
                ev[idx[t]].1,
            ) && !sv[t].replaces_existing,
        pos.len() == ev.len(),
        forall|j: int|
            0 <= j < ev.len() && within_grace(ev[j].1, now) && needs_task(ev[j].1) ==> 0
                <= #[trigger] pos[j] < sv.len() && sv[pos[j]].key == ev[j].0,
    ensures
        kept == pruned_resets(m, now),
        forall|t: int|
            0 <= t < sv.len() ==> {
                let s = #[trigger] sv[t];
                &&& kept.contains_key(s.key)
                &&& s.entry == kept[s.key]
                &&& needs_task(s.entry)
                &&& !s.replaces_existing
            },
        forall|k: Seq<char>|
            #[trigger] kept.contains_key(k) && needs_task(kept[k]) ==> exists|t: int|
                0 <= t < sv.len() && (#[trigger] sv[t]).key == k,
{
    let n = ev.len();
    lemma_kept_upto(ev, now, n);
    assert(kept =~= pruned_resets(m, now)) by {
        assert forall|k: Seq<char>| #[trigger]
            pruned_resets(m, now).contains_key(k) implies kept.contains_key(k) && kept[k]
            == m[k] by {
            let j = choose|j: int| 0 <= j < ev.len() && #[trigger] ev[j].0 == k;
            assert(ev[j].0 == k);
        }
        assert forall|k: Seq<char>| #[trigger] kept.contains_key(k) implies pruned_resets(
            m,
            now,
        ).contains_key(k) by {
            let j = choose|j: int|
                0 <= j < n && (#[trigger] ev[j]).0 == k && within_grace(ev[j].1, now);
            assert(m.contains_key(ev[j].0));
        }
    }
    assert forall|t: int| 0 <= t < sv.len() implies {
        let s = #[trigger] sv[t];
        &&& kept.contains_key(s.key)
        &&& s.entry == kept[s.key]
        &&& needs_task(s.entry)
        &&& !s.replaces_existing
    } by {
        let j = idx[t];
        assert(m.contains_key(ev[j].0));
    }
    assert forall|k: Seq<char>| #[trigger] kept.contains_key(k) && needs_task(kept[k]) implies exists|
        t: int,
    | 0 <= t < sv.len() && (#[trigger] sv[t]).key == k by {
        let j = choose|j: int| 0 <= j < ev.len() && #[trigger] ev[j].0 == k;
        assert(ev[j].0 == k);
        let t = pos[j];
        assert(sv[t].key == k);
    }
}

/// Start-up: drops the recorded pairs whose reset is more than
/// `MISSED_WINDOW_GRACE_HOURS` past, and returns a pair to restart for every kept
/// entry that still has a reminder to send.
pub fn bootstrap(state: &mut DedupState, now: i64) -> (schedules: Vec<ResetSchedule>)
    ensures
        final(state)@.fired == old(state)@.fired,
        final(state)@.resets == pruned_resets(old(state)@.resets, now as int),
        forall|t: int|
            0 <= t < schedules@.len() ==> {
                let s = (#[trigger] schedules@[t])@;
                &&& final(state)@.resets.contains_key(s.key)
                &&& s.entry == final(state)@.resets[s.key]
                &&& needs_task(s.entry)
                &&& !s.replaces_existing
            },
        forall|k: Seq<char>|
            #[trigger] final(state)@.resets.contains_key(k) && needs_task(final(state)@.resets[k])
                ==> exists|t: int| 0 <= t < schedules@.len() && (#[trigger] schedules@[t])@.key == k,
        forall|a: int, b: int|
            0 <= a < b < schedules@.len() ==> (#[trigger] schedules@[a])@.key != (
            #[trigger] schedules@[b])@.key,
{
    let mut old_map: StrMap<ScheduledReset> = StrMap::new();
    std::mem::swap(&mut old_map, &mut state.resets_scheduled);
    let ghost m = old_map@;
    let ghost ev = old_map.entries_view();
    proof {
        use_type_invariant(&old_map);
        old_map.lemma_entries_view();
    }
    let cutoff: i128 = now as i128 - (MISSED_WINDOW_GRACE_HOURS as i128) * 3600;
    let mut kept: StrMap<ScheduledReset> = StrMap::new();
    let mut schedules: Vec<ResetSchedule> = Vec::new();
    let ghost mut idx: Seq<int> = Seq::empty();
    let ghost mut pos: Seq<int> = Seq::empty();
    let n = old_map.len();
    let mut i: usize = 0;
    while i < n
        invariant
            i <= n,
            n == ev.len(),
            ev == old_map.entries_view(),
            cutoff == now - MISSED_WINDOW_GRACE_HOURS * 3600,
            kept@ == kept_upto(ev, now as int, i as nat),
            idx.len() == schedules@.len(),
            forall|a: int, b: int| 0 <= a < b < idx.len() ==> #[trigger] idx[a] < #[trigger] idx[b],
            forall|t: int|
                0 <= t < schedules@.len() ==> 0 <= #[trigger] idx[t] < i && ev[idx[t]].0
                    == schedules@[t]@.key && schedules@[t]@.entry == ev[idx[t]].1 && within_grace(
                    ev[idx[t]].1,
                    now as int,
                ) && needs_task(ev[idx[t]].1) && !schedules@[t]@.replaces_existing,
            pos.len() == i,
            forall|j: int|
                0 <= j < i && within_grace(ev[j].1, now as int) && needs_task(ev[j].1) ==> 0
                    <= #[trigger] pos[j] < schedules@.len() && schedules@[pos[j]]@.key == ev[j].0,
        decreases n - i,
    {
        let (k, e) = old_map.entry(i);
        if (e.reset_at_epoch as i128) > cutoff {
            kept.insert(k.clone(), e.clone());
        }
        if (e.reset_at_epoch as i128) > cutoff && !(e.warn_fired && e.reset_fired) {
            let s = ResetSchedule { key: k.clone(), entry: e.clone(), replaces_existing: false };
            proof {
                pos = pos.push(schedules@.len() as int);
                idx = idx.push(i as int);
            }
            schedules.push(s);
        } else {
            proof {
                pos = pos.push(-1);
            }
        }
        i = i + 1;
    }
    proof {
        let sv = schedule_views(schedules@);
        assert forall|t: int| 0 <= t < sv.len() implies 0 <= #[trigger] idx[t] < ev.len()
            && ev[idx[t]].0 == sv[t].key && sv[t].entry == ev[idx[t]].1 && within_grace(
            ev[idx[t]].1,
            now as int,
        ) && needs_task(ev[idx[t]].1) && !sv[t].replaces_existing by {
            assert(sv[t] == schedules@[t]@);
        }
        assert forall|j: int|
            0 <= j < ev.len() && within_grace(ev[j].1, now as int) && needs_task(
                ev[j].1,
            ) implies 0 <= #[trigger] pos[j] < sv.len() && sv[pos[j]].key == ev[j].0 by {
            assert(sv[pos[j]] == schedules@[pos[j]]@);
        }
        lemma_bootstrap_result(m, ev, now as int, kept@, sv, idx, pos);
        assert forall|t: int| 0 <= t < schedules@.len() implies {
            let s = (#[trigger] schedules@[t])@;
            &&& kept@.contains_key(s.key)
            &&& s.entry == kept@[s.key]
            &&& needs_task(s.entry)
            &&& !s.replaces_existing
        } by {
            assert(sv[t] == schedules@[t]@);
        }
        assert forall|k: Seq<char>|
            #[trigger] kept@.contains_key(k) && needs_task(kept@[k]) implies exists|t: int|
            0 <= t < schedules@.len() && (#[trigger] schedules@[t])@.key == k by {
            let t = choose|t: int| 0 <= t < sv.len() && (#[trigger] sv[t]).key == k;
            assert(sv[t] == schedules@[t]@);
        }
        assert forall|a: int, b: int| 0 <= a < b < schedules@.len() implies (
        #[trigger] schedules@[a])@.key != (#[trigger] schedules@[b])@.key by {
            assert(idx[a] < idx[b]);
            assert(ev[idx[a]].0 != ev[idx[b]].0);
        }
    }
    state.resets_scheduled = kept;
    schedules
}

} // verus!
