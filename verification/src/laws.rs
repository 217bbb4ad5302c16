//! Properties that hold across calls of the notification flows.
use vstd::prelude::*;
use crate::dedup::{fired_on, fresh_reset, ScheduledResetView};
use crate::keys::{exhausted_key_of, reset_key_of, threshold_dedup_key_of, threshold_key_of};
use crate::strings::{decimal, digit_char, radix_digits, replace_all};
use crate::render::{auto_switched_notice, threshold_notice};
use crate::dedup::DedupView;
use crate::notify::{
    balance_outcome, due_thresholds, is_jitter, threshold_due, ResetScheduleView, mark_due, pruned_resets, reset_step, resets_pass,
    reset_fire_step, threshold_at, thresholds_pass, warn_fire_step, NotificationSettings, QuotaTier,
    RESET_WARN_LEAD_SECONDS,
};
use crate::texts::{texts_for, NotificationTexts};

verus! {

/// Every threshold that one of the first `n` tiers reached is recorded as sent `today`.
pub open spec fn all_reached_fired(
    fired: Map<Seq<char>, Seq<char>>,
    provider_id: Seq<char>,
    tiers: Seq<QuotaTier>,
    today: Seq<char>,
    n: nat,
) -> bool {
    forall|i: int, p: int|
        0 <= i < n && 0 <= p < 3 && tiers[i].utilization >= threshold_at(p) ==> fired_on(
            fired,
            #[trigger] threshold_dedup_key_of(provider_id, tiers[i].name@, threshold_at(p) as nat),
            today,
        )
}

/// Notices recorded as sent `today` in `a` are still recorded so in `b`.
pub open spec fn keeps_today(
    a: Map<Seq<char>, Seq<char>>,
    b: Map<Seq<char>, Seq<char>>,
    today: Seq<char>,
) -> bool {
    forall|k: Seq<char>| #[trigger] fired_on(a, k, today) ==> fired_on(b, k, today)
}

proof fn lemma_mark_due(
    fired: Map<Seq<char>, Seq<char>>,
    notices: Seq<(Seq<char>, Seq<char>)>,
    texts: NotificationTexts,
    provider_id: Seq<char>,
    provider_name: Seq<char>,
    tier_name: Seq<char>,
    today: Seq<char>,
    due: Seq<u8>,
    n: nat,
)
    requires
        n <= due.len(),
    ensures
        keeps_today(
            fired,
            mark_due(fired, notices, texts, provider_id, provider_name, tier_name, today, due, n).0,
            today,
        ),
        forall|q: int|
            0 <= q < n ==> fired_on(
                mark_due(
                    fired,
                    notices,
                    texts,
                    provider_id,
                    provider_name,
                    tier_name,
                    today,
                    due,
                    n,
                ).0,
                threshold_dedup_key_of(provider_id, tier_name, (#[trigger] due[q]) as nat),
                today,
            ),
    decreases n,
{
    if n > 0 {
        lemma_mark_due(
            fired,
            notices,
            texts,
            provider_id,
            provider_name,
            tier_name,
            today,
            due,
            (n - 1) as nat,
        );
    }
}

proof fn lemma_due_contains(
    fired: Map<Seq<char>, Seq<char>>,
    provider_id: Seq<char>,
    tier: QuotaTier,
    today: Seq<char>,
    m: nat,
)
    requires
        m <= 3,
    ensures
        forall|p: int|
            0 <= p < m && tier.utilization >= threshold_at(p) && !fired_on(
                fired,
                threshold_dedup_key_of(provider_id, tier.name@, (#[trigger] threshold_at(p)) as nat),
                today,
            ) ==> exists|q: int|
                0 <= q < due_thresholds(fired, provider_id, tier, today, m).len()
                    && due_thresholds(fired, provider_id, tier, today, m)[q] == threshold_at(p),
    decreases m,
{
    if m > 0 {
        lemma_due_contains(fired, provider_id, tier, today, (m - 1) as nat);
        let prev = due_thresholds(fired, provider_id, tier, today, (m - 1) as nat);
        let cur = due_thresholds(fired, provider_id, tier, today, m);
        assert forall|p: int|
            0 <= p < m && tier.utilization >= threshold_at(p) && !fired_on(
                fired,
                threshold_dedup_key_of(provider_id, tier.name@, (#[trigger] threshold_at(p)) as nat),
                today,
            ) implies exists|q: int| 0 <= q < cur.len() && cur[q] == threshold_at(p) by {
            if p < m - 1 {
                let q = choose|q: int| 0 <= q < prev.len() && prev[q] == threshold_at(p);
                assert(cur[q] == threshold_at(p));
            } else {
                assert(cur[cur.len() - 1] == threshold_at(p));
            }
        }
    }
}

proof fn lemma_due_empty(
    fired: Map<Seq<char>, Seq<char>>,
    provider_id: Seq<char>,
    tier: QuotaTier,
    today: Seq<char>,
    m: nat,
)
    requires
        m <= 3,
        forall|p: int|
            0 <= p < m && tier.utilization >= threshold_at(p) ==> fired_on(
                fired,
                threshold_dedup_key_of(provider_id, tier.name@, (#[trigger] threshold_at(p)) as nat),
                today,
            ),
    ensures
        due_thresholds(fired, provider_id, tier, today, m) == Seq::<u8>::empty(),
    decreases m,
{
    if m > 0 {
        lemma_due_empty(fired, provider_id, tier, today, (m - 1) as nat);
        let p = m - 1;
        assert(tier.utilization >= threshold_at(p) ==> fired_on(
            fired,
            threshold_dedup_key_of(provider_id, tier.name@, threshold_at(p) as nat),
            today,
        ));
    }
}

proof fn lemma_pass_marks(
    fired: Map<Seq<char>, Seq<char>>,
    texts: NotificationTexts,
    provider_id: Seq<char>,
    provider_name: Seq<char>,
    tiers: Seq<QuotaTier>,
    today: Seq<char>,
    n: nat,
)
    requires
        n <= tiers.len(),
    ensures
        keeps_today(
            fired,
            thresholds_pass(fired, texts, provider_id, provider_name, tiers, today, n).0,
            today,
        ),
        all_reached_fired(
            thresholds_pass(fired, texts, provider_id, provider_name, tiers, today, n).0,
            provider_id,
            tiers,
            today,
            n,
        ),
    decreases n,
{
    if n > 0 {
        lemma_pass_marks(fired, texts, provider_id, provider_name, tiers, today, (n - 1) as nat);
        let prev = thresholds_pass(
            fired,
            texts,
            provider_id,
            provider_name,
            tiers,
            today,
            (n - 1) as nat,
        );
        let tier = tiers[n - 1];
        let due = due_thresholds(prev.0, provider_id, tier, today, 3);
        let res = thresholds_pass(fired, texts, provider_id, provider_name, tiers, today, n);
        lemma_mark_due(
            prev.0,
            prev.1,
            texts,
            provider_id,
            provider_name,
            tier.name@,
            today,
            due,
            due.len(),
        );
        lemma_due_contains(prev.0, provider_id, tier, today, 3);
        assert forall|k: Seq<char>| #[trigger] fired_on(fired, k, today) implies fired_on(
            res.0,
            k,
            today,
        ) by {
            assert(fired_on(prev.0, k, today));
        }
        assert forall|i: int, p: int|
            0 <= i < n && 0 <= p < 3 && tiers[i].utilization >= threshold_at(p) implies fired_on(
            res.0,
            #[trigger] threshold_dedup_key_of(provider_id, tiers[i].name@, threshold_at(p) as nat),
            today,
        ) by {
            let key = threshold_dedup_key_of(provider_id, tiers[i].name@, threshold_at(p) as nat);
            if i < n - 1 {
                assert(fired_on(prev.0, key, today));
            } else {
                if !fired_on(prev.0, key, today) {
                    let q = choose|q: int| 0 <= q < due.len() && due[q] == threshold_at(p);
                    assert(fired_on(
                        res.0,
                        threshold_dedup_key_of(provider_id, tier.name@, due[q] as nat),
                        today,
                    ));
                } else {
                    assert(fired_on(prev.0, key, today));
                }
            }
        }
    }
}

proof fn lemma_pass_noop(
    fired: Map<Seq<char>, Seq<char>>,
    texts: NotificationTexts,
    provider_id: Seq<char>,
    provider_name: Seq<char>,
    tiers: Seq<QuotaTier>,
    today: Seq<char>,
    n: nat,
)
    requires
        n <= tiers.len(),
        all_reached_fired(fired, provider_id, tiers, today, n),
    ensures
        thresholds_pass(fired, texts, provider_id, provider_name, tiers, today, n) == (
            fired,
            Seq::<(Seq<char>, Seq<char>)>::empty(),
        ),
    decreases n,
{
    if n > 0 {
        lemma_pass_noop(fired, texts, provider_id, provider_name, tiers, today, (n - 1) as nat);
        let tier = tiers[n - 1];
        assert forall|p: int| 0 <= p < 3 && tier.utilization >= threshold_at(p) implies fired_on(
            fired,
            threshold_dedup_key_of(provider_id, tier.name@, (#[trigger] threshold_at(p)) as nat),
            today,
        ) by {
            assert(fired_on(
                fired,
                threshold_dedup_key_of(provider_id, tiers[n - 1].name@, threshold_at(p) as nat),
                today,
            ));
        }
        lemma_due_empty(fired, provider_id, tier, today, 3);
    }
}

/// A threshold alert is sent at most once per UTC day: once the alerts of a quota
/// reading were sent on `today`, the same reading on the same day sends none and
/// changes nothing.
pub proof fn lemma_threshold_alert_once_per_day(
    fired: Map<Seq<char>, Seq<char>>,
    texts: NotificationTexts,
    provider_id: Seq<char>,
    provider_name: Seq<char>,
    tiers: Seq<QuotaTier>,
    today: Seq<char>,
)
    ensures
        ({
            let first = thresholds_pass(
                fired,
                texts,
                provider_id,
                provider_name,
                tiers,
                today,
                tiers.len(),
            );
            thresholds_pass(first.0, texts, provider_id, provider_name, tiers, today, tiers.len())
                == (first.0, Seq::<(Seq<char>, Seq<char>)>::empty())
        }),
{
    lemma_pass_marks(fired, texts, provider_id, provider_name, tiers, today, tiers.len());
    let first = thresholds_pass(fired, texts, provider_id, provider_name, tiers, today, tiers.len());
    lemma_pass_noop(first.0, texts, provider_id, provider_name, tiers, today, tiers.len());
}

/// After a quota reading on `today`, every threshold that a tier reached is recorded
/// as sent that day, and nothing recorded for that day before is lost.
pub proof fn lemma_reached_thresholds_recorded(
    fired: Map<Seq<char>, Seq<char>>,
    texts: NotificationTexts,
    provider_id: Seq<char>,
    provider_name: Seq<char>,
    tiers: Seq<QuotaTier>,
    today: Seq<char>,
)
    ensures
        keeps_today(
            fired,
            thresholds_pass(fired, texts, provider_id, provider_name, tiers, today, tiers.len()).0,
            today,
        ),
        all_reached_fired(
            thresholds_pass(fired, texts, provider_id, provider_name, tiers, today, tiers.len()).0,
            provider_id,
            tiers,
            today,
            tiers.len(),
        ),
{
    lemma_pass_marks(fired, texts, provider_id, provider_name, tiers, today, tiers.len());
}

/// The "exhausted" notice of a provider is sent at most once per UTC day: after a
/// failed balance reading on `today`, a second failed reading that day sends nothing
/// and changes nothing.
pub proof fn lemma_exhausted_once_per_day(
    state: DedupView,
    settings: NotificationSettings,
    texts: NotificationTexts,
    provider_id: Seq<char>,
    provider_name: Seq<char>,
    today: Seq<char>,
)
    ensures
        ({
            let first = balance_outcome(
                state,
                settings,
                texts,
                provider_id,
                provider_name,
                false,
                Some(today),
            );
            balance_outcome(first.0, settings, texts, provider_id, provider_name, false, Some(today))
                == (first.0, None::<(Seq<char>, Seq<char>)>)
        }),
{
    let first = balance_outcome(state, settings, texts, provider_id, provider_name, false, Some(today));
    let second = balance_outcome(first.0, settings, texts, provider_id, provider_name, false, Some(today));
    assert(second.0 =~= first.0);
}

/// Scheduling the same reminder pair twice starts it once: the second request finds
/// the recorded pair and leaves everything as it is.
pub proof fn lemma_schedule_twice_is_noop(
    resets: Map<Seq<char>, ScheduledResetView>,
    key: Seq<char>,
    warn: int,
    reset: int,
    provider_name: Seq<char>,
    tier_name: Seq<char>,
)
    ensures
        ({
            let first = reset_step(resets, key, warn, reset, provider_name, tier_name);
            reset_step(first.0, key, warn, reset, provider_name, tier_name) == (
                first.0,
                None::<crate::notify::ResetScheduleView>,
            )
        }),
{
}

/// Every tier among the first `n` whose reset lies after `now` has a recorded pair
/// that the pair due now only jitters around.
pub open spec fn all_resets_recorded(
    resets: Map<Seq<char>, ScheduledResetView>,
    provider_id: Seq<char>,
    tiers: Seq<QuotaTier>,
    epochs: Seq<Option<i64>>,
    now: int,
    n: nat,
) -> bool {
    forall|i: int|
        0 <= i < n && (#[trigger] epochs[i]) is Some && epochs[i]->0 > now ==> {
            let key = reset_key_of(provider_id, tiers[i].name@);
            let r = epochs[i]->0 as int;
            resets.contains_key(key) && is_jitter(resets[key], r - RESET_WARN_LEAD_SECONDS, r)
        }
}

proof fn lemma_reset_keys_distinct(provider_id: Seq<char>, a: Seq<char>, b: Seq<char>)
    requires
        a != b,
    ensures
        reset_key_of(provider_id, a) != reset_key_of(provider_id, b),
{
    let pre = provider_id + ":"@;
    if reset_key_of(provider_id, a) == reset_key_of(provider_id, b) {
        assert(reset_key_of(provider_id, a) == pre + a);
        assert(reset_key_of(provider_id, b) == pre + b);
        assert(a =~= (pre + a).subrange(pre.len() as int, (pre + a).len() as int));
        assert(b =~= (pre + b).subrange(pre.len() as int, (pre + b).len() as int));
    }
}

proof fn lemma_resets_pass_records(
    resets: Map<Seq<char>, ScheduledResetView>,
    provider_id: Seq<char>,
    provider_name: Seq<char>,
    tiers: Seq<QuotaTier>,
    epochs: Seq<Option<i64>>,
    now: int,
    n: nat,
)
    requires
        n <= tiers.len(),
        epochs.len() == tiers.len(),
        forall|a: int, b: int|
            0 <= a < b < tiers.len() ==> (#[trigger] tiers[a]).name@ != (#[trigger] tiers[b]).name@,
    ensures
        all_resets_recorded(
            resets_pass(resets, provider_id, provider_name, tiers, epochs, now, n).0,
            provider_id,
            tiers,
            epochs,
            now,
            n,
        ),
    decreases n,
{
    if n > 0 {
        lemma_resets_pass_records(
            resets,
            provider_id,
            provider_name,
            tiers,
            epochs,
            now,
            (n - 1) as nat,
        );
        let prev = resets_pass(
            resets,
            provider_id,
            provider_name,
            tiers,
            epochs,
            now,
            (n - 1) as nat,
        );
        let res = resets_pass(resets, provider_id, provider_name, tiers, epochs, now, n);
        let last = n - 1;
        let last_key = reset_key_of(provider_id, tiers[last].name@);
        assert forall|i: int| 0 <= i < n && (#[trigger] epochs[i]) is Some && epochs[i]->0 > now implies {
            let key = reset_key_of(provider_id, tiers[i].name@);
            let r = epochs[i]->0 as int;
            res.0.contains_key(key) && is_jitter(res.0[key], r - RESET_WARN_LEAD_SECONDS, r)
        } by {
            let key = reset_key_of(provider_id, tiers[i].name@);
            if i < last {
                lemma_reset_keys_distinct(provider_id, tiers[i].name@, tiers[last].name@);
                assert(key != last_key);
            }
        }
    }
}

proof fn lemma_resets_pass_noop(
    resets: Map<Seq<char>, ScheduledResetView>,
    provider_id: Seq<char>,
    provider_name: Seq<char>,
    tiers: Seq<QuotaTier>,
    epochs: Seq<Option<i64>>,
    now: int,
    n: nat,
)
    requires
        n <= tiers.len(),
        epochs.len() == tiers.len(),
        all_resets_recorded(resets, provider_id, tiers, epochs, now, n),
    ensures
        resets_pass(resets, provider_id, provider_name, tiers, epochs, now, n) == (
            resets,
            Seq::<crate::notify::ResetScheduleView>::empty(),
        ),
    decreases n,
{
    if n > 0 {
        lemma_resets_pass_noop(
            resets,
            provider_id,
            provider_name,
            tiers,
            epochs,
            now,
            (n - 1) as nat,
        );
        let last = n - 1;
        assert(epochs[last] is Some && epochs[last]->0 > now ==> resets.contains_key(
            reset_key_of(provider_id, tiers[last].name@),
        ));
    }
}

/// Reset reminders are not restarted by a repeated reading: when no two tiers share a
/// name, handling the same reset times again at the same moment starts no pair and
/// changes nothing.
pub proof fn lemma_reset_reminders_stable(
    resets: Map<Seq<char>, ScheduledResetView>,
    provider_id: Seq<char>,
    provider_name: Seq<char>,
    tiers: Seq<QuotaTier>,
    epochs: Seq<Option<i64>>,
    now: int,
)
    requires
        epochs.len() == tiers.len(),
        forall|a: int, b: int|
            0 <= a < b < tiers.len() ==> (#[trigger] tiers[a]).name@ != (#[trigger] tiers[b]).name@,
    ensures
        ({
            let first = resets_pass(
                resets,
                provider_id,
                provider_name,
                tiers,
                epochs,
                now,
                tiers.len(),
            );
            resets_pass(first.0, provider_id, provider_name, tiers, epochs, now, tiers.len()) == (
                first.0,
                Seq::<crate::notify::ResetScheduleView>::empty(),
            )
        }),
{
    lemma_resets_pass_records(
        resets,
        provider_id,
        provider_name,
        tiers,
        epochs,
        now,
        tiers.len(),
    );
    let first = resets_pass(resets, provider_id, provider_name, tiers, epochs, now, tiers.len());
    lemma_resets_pass_noop(first.0, provider_id, provider_name, tiers, epochs, now, tiers.len());
}

/// The "reset approaching" reminder of a recorded pair is sent once: firing it a
/// second time sends nothing and changes nothing.
pub proof fn lemma_warning_fires_once(
    resets: Map<Seq<char>, ScheduledResetView>,
    enabled: bool,
    texts: NotificationTexts,
    key: Seq<char>,
    tier_name: Seq<char>,
    provider_name: Seq<char>,
)
    requires
        resets.contains_key(key),
    ensures
        ({
            let first = warn_fire_step(resets, enabled, texts, key, tier_name, provider_name);
            warn_fire_step(first.0, enabled, texts, key, tier_name, provider_name) == (
                first.0,
                None::<(Seq<char>, Seq<char>)>,
            )
        }),
{
}

/// The reset reminder of a recorded pair is sent once: firing it a second time sends
/// nothing and changes nothing.
pub proof fn lemma_reset_fires_once(
    resets: Map<Seq<char>, ScheduledResetView>,
    enabled: bool,
    texts: NotificationTexts,
    key: Seq<char>,
    tier_name: Seq<char>,
    provider_name: Seq<char>,
)
    requires
        resets.contains_key(key),
    ensures
        ({
            let first = reset_fire_step(resets, enabled, texts, key, tier_name, provider_name);
            reset_fire_step(first.0, enabled, texts, key, tier_name, provider_name) == (
                first.0,
                None::<(Seq<char>, Seq<char>)>,
            )
        }),
{
}

/// Start-up pruning is idempotent: pruning what was kept at `now` keeps all of it.
pub proof fn lemma_prune_idempotent(resets: Map<Seq<char>, ScheduledResetView>, now: int)
    ensures
        pruned_resets(pruned_resets(resets, now), now) == pruned_resets(resets, now),
{
    assert(pruned_resets(pruned_resets(resets, now), now) =~= pruned_resets(resets, now));
}

/// A freshly scheduled pair warns `RESET_WARN_LEAD_SECONDS` before its reset and has
/// sent nothing yet.
pub proof fn lemma_fresh_pair_shape(
    resets: Map<Seq<char>, ScheduledResetView>,
    key: Seq<char>,
    reset: int,
    provider_name: Seq<char>,
    tier_name: Seq<char>,
)
    ensures
        ({
            let step = reset_step(
                resets,
                key,
                reset - RESET_WARN_LEAD_SECONDS,
                reset,
                provider_name,
                tier_name,
            );
            step.1 is Some ==> step.1->0.entry == fresh_reset(
                reset - RESET_WARN_LEAD_SECONDS,
                reset,
                provider_name,
                tier_name,
            ) && step.0[key] == step.1->0.entry && !step.1->0.entry.warn_fired
                && !step.1->0.entry.reset_fired
        }),
{
}

/// The number a string of decimal digits stands for.
pub open spec fn decimal_value(s: Seq<char>) -> int
    decreases s.len(),
{
    if s.len() == 0 {
        0
    } else {
        decimal_value(s.drop_last()) * 10 + digit_value(s.last())
    }
}

/// The value of a decimal digit.
pub open spec fn digit_value(c: char) -> int {
    if c == '1' {
        1
    } else if c == '2' {
        2
    } else if c == '3' {
        3
    } else if c == '4' {
        4
    } else if c == '5' {
        5
    } else if c == '6' {
        6
    } else if c == '7' {
        7
    } else if c == '8' {
        8
    } else if c == '9' {
        9
    } else {
        0
    }
}

/// Decimal writing is non-empty, holds no ':', and reads back as the number.
pub proof fn lemma_decimal_reads_back(n: nat)
    ensures
        decimal(n).len() > 0,
        decimal_value(decimal(n)) == n,
        forall|i: int| 0 <= i < decimal(n).len() ==> #[trigger] decimal(n)[i] != ':',
    decreases n,
{
    if n < 10 {
        assert(digit_value(digit_char(n)) == n);
        assert(decimal(n) == seq![digit_char(n)]);
        assert(decimal(n).drop_last() =~= Seq::<char>::empty());
        assert(decimal_value(decimal(n).drop_last()) == 0);
        assert(decimal_value(decimal(n)) == decimal_value(decimal(n).drop_last()) * 10
            + digit_value(decimal(n).last()));
    } else {
        lemma_decimal_reads_back(n / 10);
        let d = decimal(n);
        assert(d == radix_digits(n / 10, 10) + seq![digit_char(n % 10)]);
        assert(d.drop_last() =~= decimal(n / 10));
        assert((n / 10) * 10 + n % 10 == n) by (nonlinear_arith);
        assert(n % 10 < 10) by (nonlinear_arith);
        assert(digit_value(digit_char(n % 10)) == n % 10);
        assert(d.last() == digit_char(n % 10));
        assert(decimal_value(d) == decimal_value(d.drop_last()) * 10 + digit_value(d.last()));
        assert forall|i: int| 0 <= i < d.len() implies #[trigger] d[i] != ':' by {
            if i < d.len() - 1 {
                assert(d[i] == decimal(n / 10)[i]);
            }
        }
    }
}

proof fn lemma_suffix_after_last_colon(
    a: Seq<char>,
    d1: Seq<char>,
    b: Seq<char>,
    d2: Seq<char>,
)
    requires
        forall|i: int| 0 <= i < d1.len() ==> #[trigger] d1[i] != ':',
        forall|i: int| 0 <= i < d2.len() ==> #[trigger] d2[i] != ':',
        a + seq![':'] + d1 == b + seq![':'] + d2,
    ensures
        a == b,
        d1 == d2,
{
    let s1 = a + seq![':'] + d1;
    let s2 = b + seq![':'] + d2;
    assert(s1.len() == s2.len());
    if d1.len() < d2.len() {
        let i = a.len() as int;
        assert(s1[i] == ':');
        assert(s2[i] == d2[i - b.len() - 1]);
        assert(s1[i] == s2[i]);
    } else if d2.len() < d1.len() {
        let i = b.len() as int;
        assert(b.len() > a.len());
        assert(s2[i] == ':');
        assert(s1[i] == d1[i - a.len() - 1]);
        assert(s1[i] == s2[i]);
    }
    assert(a =~= s1.subrange(0, a.len() as int));
    assert(b =~= s2.subrange(0, b.len() as int));
    assert(d1 =~= s1.subrange(s1.len() - d1.len(), s1.len() as int));
    assert(d2 =~= s2.subrange(s2.len() - d2.len(), s2.len() as int));
}

/// Two threshold keys are equal exactly when tier name and threshold are: the text
/// after the last ':' is the threshold in decimal, which holds no ':'.
pub proof fn lemma_threshold_key_injective(a: Seq<char>, p: u8, b: Seq<char>, q: u8)
    ensures
        threshold_key_of(a, p as nat) == threshold_key_of(b, q as nat) <==> (a == b && p == q),
{
    reveal_strlit("tier:");
    reveal_strlit(":");
    if threshold_key_of(a, p as nat) == threshold_key_of(b, q as nat) {
        lemma_decimal_reads_back(p as nat);
        lemma_decimal_reads_back(q as nat);
        let ta = "tier:"@ + a;
        let tb = "tier:"@ + b;
        assert(":"@ =~= seq![':']);
        assert(threshold_key_of(a, p as nat) =~= ta + seq![':'] + decimal(p as nat));
        assert(threshold_key_of(b, q as nat) =~= tb + seq![':'] + decimal(q as nat));
        lemma_suffix_after_last_colon(ta, decimal(p as nat), tb, decimal(q as nat));
        assert(a =~= ta.subrange(5, ta.len() as int));
        assert(b =~= tb.subrange(5, tb.len() as int));
    }
}

/// Within one provider, two threshold dedup keys are equal exactly when tier name and
/// threshold are, so each threshold of each tier is recorded on its own.
pub proof fn lemma_threshold_dedup_key_injective(
    provider_id: Seq<char>,
    a: Seq<char>,
    p: u8,
    b: Seq<char>,
    q: u8,
)
    ensures
        threshold_dedup_key_of(provider_id, a, p as nat) == threshold_dedup_key_of(
            provider_id,
            b,
            q as nat,
        ) <==> (a == b && p == q),
{
    lemma_threshold_key_injective(a, p, b, q);
    let pre = provider_id + ":"@;
    let ka = threshold_key_of(a, p as nat);
    let kb = threshold_key_of(b, q as nat);
    if pre + ka == pre + kb {
        assert(ka =~= (pre + ka).subrange(pre.len() as int, (pre + ka).len() as int));
        assert(kb =~= (pre + kb).subrange(pre.len() as int, (pre + kb).len() as int));
    }
    assert(threshold_dedup_key_of(provider_id, a, p as nat) == pre + ka);
    assert(threshold_dedup_key_of(provider_id, b, q as nat) == pre + kb);
}

/// Different providers never share an "exhausted" key.
pub proof fn lemma_exhausted_key_injective(a: Seq<char>, b: Seq<char>)
    ensures
        exhausted_key_of(a) == exhausted_key_of(b) <==> a == b,
{
    reveal_strlit("balance:");
    reveal_strlit(":exhausted");
    let pre = "balance:"@;
    let post = ":exhausted"@;
    if exhausted_key_of(a) == exhausted_key_of(b) {
        let ka = pre + a + post;
        let kb = pre + b + post;
        assert(exhausted_key_of(a) == ka);
        assert(exhausted_key_of(b) == kb);
        assert(ka.len() == kb.len());
        assert(a =~= ka.subrange(pre.len() as int, (pre.len() + a.len()) as int));
        assert(b =~= kb.subrange(pre.len() as int, (pre.len() + b.len()) as int));
    }
}

/// One provider's "exhausted" notice never suppresses another's: after a failed
/// reading of provider `a` on `today`, a failed reading of a different provider `b`
/// that day is reported unless `b` itself was already reported that day.
pub proof fn lemma_exhausted_per_provider(
    state: DedupView,
    settings: NotificationSettings,
    texts: NotificationTexts,
    a: Seq<char>,
    a_name: Seq<char>,
    b: Seq<char>,
    b_name: Seq<char>,
    today: Seq<char>,
)
    requires
        a != b,
        settings.enable_notifications,
        !fired_on(state.fired, exhausted_key_of(b), today),
    ensures
        ({
            let first = balance_outcome(state, settings, texts, a, a_name, false, Some(today));
            balance_outcome(first.0, settings, texts, b, b_name, false, Some(today)).1 is Some
        }),
{
    lemma_exhausted_key_injective(a, b);
}

/// Start-up keeps exactly the recorded pairs whose reset lies less than 24 hours in
/// the past (in particular every pair whose reset is still to come), unchanged.
pub proof fn lemma_startup_keeps_recent_pairs(
    resets: Map<Seq<char>, ScheduledResetView>,
    now: int,
)
    ensures
        forall|k: Seq<char>|
            #[trigger] pruned_resets(resets, now).contains_key(k) <==> (resets.contains_key(k)
                && resets[k].reset_at_epoch > now - 24 * 3600),
        forall|k: Seq<char>|
            #[trigger] pruned_resets(resets, now).contains_key(k) ==> pruned_resets(
                resets,
                now,
            )[k] == resets[k],
        forall|k: Seq<char>|
            resets.contains_key(k) && resets[k].reset_at_epoch >= now ==> #[trigger] pruned_resets(
                resets,
                now,
            ).contains_key(k),
{
}

/// Whether tier `i` has a known reset time after `now`.
pub open spec fn resets_later(epochs: Seq<Option<i64>>, now: int, i: int) -> bool {
    epochs[i] is Some && epochs[i]->0 > now
}

/// Whether a pair due at `warn` and `reset` is the recorded `e` up to a move of the
/// warning by less than a minute.
pub open spec fn same_pair_up_to_a_minute(e: ScheduledResetView, warn: int, reset: int) -> bool {
    -60 < e.warn_at_epoch - warn < 60 && e.reset_at_epoch == reset
}

/// The pair a tier resetting at `reset` should have: warned five minutes early, nothing
/// sent yet, labelled with the provider and tier names.
pub open spec fn wanted_pair(reset: int, provider_name: Seq<char>, tier_name: Seq<char>) -> ScheduledResetView {
    ScheduledResetView {
        warn_at_epoch: reset - 300,
        reset_at_epoch: reset,
        warn_fired: false,
        reset_fired: false,
        provider_name,
        tier_label: tier_name,
    }
}

/// Whether the pair recorded under tier `i`'s key before the reading had to change.
pub open spec fn pair_changes(
    before: Map<Seq<char>, ScheduledResetView>,
    provider_id: Seq<char>,
    tiers: Seq<QuotaTier>,
    epochs: Seq<Option<i64>>,
    i: int,
) -> bool {
    let key = reset_key_of(provider_id, tiers[i].name@);
    let reset = epochs[i]->0 as int;
    !(before.contains_key(key) && same_pair_up_to_a_minute(before[key], reset - 300, reset))
}

/// What a reading must leave for tier `i` (resetting later than `now`): when the
/// recorded pair is the wanted one up to a minute, that pair stays and nothing is
/// started for its key; otherwise the wanted pair is recorded and a start request
/// carries it, replacing the old tasks exactly when a pair was recorded before.
pub open spec fn tier_pair_outcome(
    before: Map<Seq<char>, ScheduledResetView>,
    after: Map<Seq<char>, ScheduledResetView>,
    started: Seq<ResetScheduleView>,
    provider_id: Seq<char>,
    provider_name: Seq<char>,
    tiers: Seq<QuotaTier>,
    epochs: Seq<Option<i64>>,
    i: int,
) -> bool {
    let key = reset_key_of(provider_id, tiers[i].name@);
    let reset = epochs[i]->0 as int;
    if !pair_changes(before, provider_id, tiers, epochs, i) {
        &&& after.contains_key(key)
        &&& after[key] == before[key]
        &&& forall|t: int| 0 <= t < started.len() ==> (#[trigger] started[t]).key != key
    } else {
        &&& after.contains_key(key)
        &&& after[key] == wanted_pair(reset, provider_name, tiers[i].name@)
        &&& exists|t: int|
            0 <= t < started.len() && #[trigger] started[t] == ResetScheduleView {
                key,
                entry: wanted_pair(reset, provider_name, tiers[i].name@),
                replaces_existing: before.contains_key(key),
            }
    }
}

/// The tier whose reset key `key` is (meaningful when one is).
pub open spec fn source_tier(
    provider_id: Seq<char>,
    tiers: Seq<QuotaTier>,
    epochs: Seq<Option<i64>>,
    now: int,
    key: Seq<char>,
) -> int {
    choose|i: int|
        0 <= i < tiers.len() && resets_later(epochs, now, i) && key == reset_key_of(
            provider_id,
            (#[trigger] tiers[i]).name@,
        )
}

/// Every start request is for one of the first `n` tiers, which resets later than
/// `now` and whose pair had to change.
pub open spec fn started_only_changed(
    before: Map<Seq<char>, ScheduledResetView>,
    started: Seq<ResetScheduleView>,
    provider_id: Seq<char>,
    tiers: Seq<QuotaTier>,
    epochs: Seq<Option<i64>>,
    now: int,
    n: int,
) -> bool {
    forall|t: int|
        #![trigger started[t]]
        0 <= t < started.len() ==> {
            let i = source_tier(provider_id, tiers, epochs, now, started[t].key);
            &&& 0 <= i < n
            &&& resets_later(epochs, now, i)
            &&& started[t].key == reset_key_of(provider_id, tiers[i].name@)
            &&& pair_changes(before, provider_id, tiers, epochs, i)
        }
}

/// Whether `k` is the key of one of the first `n` tiers that reset after `now`.
pub open spec fn key_of_later_tier(
    k: Seq<char>,
    provider_id: Seq<char>,
    tiers: Seq<QuotaTier>,
    epochs: Seq<Option<i64>>,
    now: int,
    n: int,
) -> bool {
    exists|i: int|
        0 <= i < n && resets_later(epochs, now, i) && k == reset_key_of(
            provider_id,
            (#[trigger] tiers[i]).name@,
        )
}

/// Keys of no tier resetting later are left as they were.
pub open spec fn others_untouched(
    before: Map<Seq<char>, ScheduledResetView>,
    after: Map<Seq<char>, ScheduledResetView>,
    provider_id: Seq<char>,
    tiers: Seq<QuotaTier>,
    epochs: Seq<Option<i64>>,
    now: int,
    n: int,
) -> bool {
    forall|k: Seq<char>|
        !key_of_later_tier(k, provider_id, tiers, epochs, now, n) ==> (#[trigger] after.contains_key(k)
            == before.contains_key(k) && (before.contains_key(k) ==> after[k] == before[k]))
}

proof fn lemma_source_tier_unique(
    provider_id: Seq<char>,
    tiers: Seq<QuotaTier>,
    epochs: Seq<Option<i64>>,
    now: int,
    i: int,
)
    requires
        0 <= i < tiers.len(),
        resets_later(epochs, now, i),
        forall|a: int, b: int|
            0 <= a < b < tiers.len() ==> (#[trigger] tiers[a]).name@ != (#[trigger] tiers[b]).name@,
    ensures
        source_tier(provider_id, tiers, epochs, now, reset_key_of(provider_id, tiers[i].name@)) == i,
{
    let key = reset_key_of(provider_id, tiers[i].name@);
    assert(0 <= i < tiers.len() && resets_later(epochs, now, i) && key == reset_key_of(
        provider_id,
        tiers[i].name@,
    ));
    let s = source_tier(provider_id, tiers, epochs, now, key);
    if s != i {
        if s < i {
            lemma_reset_keys_distinct(provider_id, tiers[s].name@, tiers[i].name@);
        } else {
            lemma_reset_keys_distinct(provider_id, tiers[i].name@, tiers[s].name@);
        }
    }
}

proof fn lemma_untouched_step(
    before: Map<Seq<char>, ScheduledResetView>,
    m0: Map<Seq<char>, ScheduledResetView>,
    m1: Map<Seq<char>, ScheduledResetView>,
    provider_id: Seq<char>,
    tiers: Seq<QuotaTier>,
    epochs: Seq<Option<i64>>,
    now: int,
    j: int,
    entry: ScheduledResetView,
)
    requires
        0 <= j < tiers.len(),
        others_untouched(before, m0, provider_id, tiers, epochs, now, j),
        m1 == m0 || (resets_later(epochs, now, j) && m1 == m0.insert(
            reset_key_of(provider_id, tiers[j].name@),
            entry,
        )),
    ensures
        others_untouched(before, m1, provider_id, tiers, epochs, now, j + 1),
{
    let kj = reset_key_of(provider_id, tiers[j].name@);
    assert forall|k: Seq<char>|
        !key_of_later_tier(k, provider_id, tiers, epochs, now, j + 1) implies (
        #[trigger] m1.contains_key(k) == before.contains_key(k) && (before.contains_key(k) ==> m1[k]
            == before[k])) by {
        if key_of_later_tier(k, provider_id, tiers, epochs, now, j) {
            let i = choose|i: int|
                0 <= i < j && resets_later(epochs, now, i) && k == reset_key_of(
                    provider_id,
                    (#[trigger] tiers[i]).name@,
                );
            assert(key_of_later_tier(k, provider_id, tiers, epochs, now, j + 1));
        }
        if resets_later(epochs, now, j) && k == kj {
            assert(key_of_later_tier(k, provider_id, tiers, epochs, now, j + 1));
        }
        assert(m0.contains_key(k) == before.contains_key(k));
    }
}

#[verifier::spinoff_prover]
#[verifier::rlimit(50)]
proof fn lemma_reset_pairs_prefix(
    resets: Map<Seq<char>, ScheduledResetView>,
    provider_id: Seq<char>,
    provider_name: Seq<char>,
    tiers: Seq<QuotaTier>,
    epochs: Seq<Option<i64>>,
    now: int,
    n: nat,
)
    requires
        n <= tiers.len(),
        epochs.len() == tiers.len(),
        forall|a: int, b: int|
            0 <= a < b < tiers.len() ==> (#[trigger] tiers[a]).name@ != (#[trigger] tiers[b]).name@,
    ensures
        ({
            let res = resets_pass(resets, provider_id, provider_name, tiers, epochs, now, n);
            &&& forall|i: int|
                0 <= i < n && resets_later(epochs, now, i) ==> #[trigger] tier_pair_outcome(
                    resets,
                    res.0,
                    res.1,
                    provider_id,
                    provider_name,
                    tiers,
                    epochs,
                    i,
                )
            &&& started_only_changed(resets, res.1, provider_id, tiers, epochs, now, n as int)
            &&& forall|a: int, b: int|
                0 <= a < b < res.1.len() ==> (#[trigger] res.1[a]).key != (#[trigger] res.1[b]).key
            &&& others_untouched(resets, res.0, provider_id, tiers, epochs, now, n as int)
        }),
    decreases n,
{
    let res = resets_pass(resets, provider_id, provider_name, tiers, epochs, now, n);
    if n == 0 {
        assert(res.1.len() == 0);
        return;
    }
    lemma_reset_pairs_prefix(resets, provider_id, provider_name, tiers, epochs, now, (n - 1) as nat);
    let prev = resets_pass(resets, provider_id, provider_name, tiers, epochs, now, (n - 1) as nat);
    let j = (n - 1) as int;
    let kj = reset_key_of(provider_id, tiers[j].name@);
    assert forall|i: int| 0 <= i < j implies reset_key_of(provider_id, (#[trigger] tiers[i]).name@)
        != kj by {
        lemma_reset_keys_distinct(provider_id, tiers[i].name@, tiers[j].name@);
    }
    assert(!key_of_later_tier(kj, provider_id, tiers, epochs, now, j));
    assert(prev.0.contains_key(kj) == resets.contains_key(kj));
    assert(resets.contains_key(kj) ==> prev.0[kj] == resets[kj]);
    // Earlier start requests are for earlier tiers, so none is for tier j's key.
    assert forall|t: int| 0 <= t < prev.1.len() implies (#[trigger] prev.1[t]).key != kj by {
        let i = source_tier(provider_id, tiers, epochs, now, prev.1[t].key);
        assert(i < j);
        assert(prev.1[t].key == reset_key_of(provider_id, tiers[i].name@));
    }
    // What an untouched key keeps from before the reading.
    assert forall|k: Seq<char>| !key_of_later_tier(k, provider_id, tiers, epochs, now, n as int)
        implies !key_of_later_tier(k, provider_id, tiers, epochs, now, j) && (resets_later(
        epochs,
        now,
        j,
    ) ==> k != kj) by {
        if key_of_later_tier(k, provider_id, tiers, epochs, now, j) {
            let i = choose|i: int|
                0 <= i < j && resets_later(epochs, now, i) && k == reset_key_of(
                    provider_id,
                    (#[trigger] tiers[i]).name@,
                );
            assert(key_of_later_tier(k, provider_id, tiers, epochs, now, n as int));
        }
        if k == kj && resets_later(epochs, now, j) {
            assert(key_of_later_tier(k, provider_id, tiers, epochs, now, n as int));
        }
    }
    if resets_later(epochs, now, j) && pair_changes(resets, provider_id, tiers, epochs, j) {
        let r = epochs[j]->0;
        let entry = wanted_pair(r as int, provider_name, tiers[j].name@);
        let sv = ResetScheduleView { key: kj, entry, replaces_existing: resets.contains_key(kj) };
        assert(res.0 == prev.0.insert(kj, entry));
        assert(res.1 == prev.1.push(sv));
        let last = prev.1.len() as int;
        assert(res.1[last] == sv);
        lemma_source_tier_unique(provider_id, tiers, epochs, now, j);
        assert forall|i: int| 0 <= i < n && resets_later(epochs, now, i) implies #[trigger] tier_pair_outcome(
            resets,
            res.0,
            res.1,
            provider_id,
            provider_name,
            tiers,
            epochs,
            i,
        ) by {
            if i < j {
                assert(tier_pair_outcome(
                    resets,
                    prev.0,
                    prev.1,
                    provider_id,
                    provider_name,
                    tiers,
                    epochs,
                    i,
                ));
                let ki = reset_key_of(provider_id, tiers[i].name@);
                assert(ki != kj);
                if pair_changes(resets, provider_id, tiers, epochs, i) {
                    let t = choose|t: int|
                        0 <= t < prev.1.len() && #[trigger] prev.1[t] == ResetScheduleView {
                            key: ki,
                            entry: wanted_pair(epochs[i]->0 as int, provider_name, tiers[i].name@),
                            replaces_existing: resets.contains_key(ki),
                        };
                    assert(res.1[t] == prev.1[t]);
                } else {
                    assert forall|t: int| 0 <= t < res.1.len() implies (#[trigger] res.1[t]).key
                        != ki by {
                        if t < last {
                            assert(res.1[t] == prev.1[t]);
                        }
                    }
                }
            }
        }
        assert forall|t: int| #![trigger res.1[t]] 0 <= t < res.1.len() implies ({
            let i = source_tier(provider_id, tiers, epochs, now, res.1[t].key);
            &&& 0 <= i < n
            &&& resets_later(epochs, now, i)
            &&& res.1[t].key == reset_key_of(provider_id, tiers[i].name@)
            &&& pair_changes(resets, provider_id, tiers, epochs, i)
        }) by {
            if t < last {
                assert(res.1[t] == prev.1[t]);
            }
        }
        assert forall|a: int, b: int| 0 <= a < b < res.1.len() implies (#[trigger] res.1[a]).key
            != (#[trigger] res.1[b]).key by {
            assert(res.1[a] == prev.1[a]);
            if b < last {
                assert(res.1[b] == prev.1[b]);
            }
        }
        lemma_untouched_step(resets, prev.0, res.0, provider_id, tiers, epochs, now, j, entry);
    } else {
        assert(res == prev);
        assert forall|i: int| 0 <= i < n && resets_later(epochs, now, i) implies #[trigger] tier_pair_outcome(
            resets,
            res.0,
            res.1,
            provider_id,
            provider_name,
            tiers,
            epochs,
            i,
        ) by {
            if i < j {
                assert(tier_pair_outcome(
                    resets,
                    prev.0,
                    prev.1,
                    provider_id,
                    provider_name,
                    tiers,
                    epochs,
                    i,
                ));
            }
        }
        assert forall|t: int| #![trigger res.1[t]] 0 <= t < res.1.len() implies ({
            let i = source_tier(provider_id, tiers, epochs, now, res.1[t].key);
            &&& 0 <= i < n
            &&& resets_later(epochs, now, i)
            &&& res.1[t].key == reset_key_of(provider_id, tiers[i].name@)
            &&& pair_changes(resets, provider_id, tiers, epochs, i)
        }) by {
            assert(res.1[t] == prev.1[t]);
        }
        lemma_untouched_step(
            resets,
            prev.0,
            res.0,
            provider_id,
            tiers,
            epochs,
            now,
            j,
            wanted_pair(0, provider_name, tiers[j].name@),
        );
    }
}

/// A reading schedules reset reminders as intended: for every tier (names distinct)
/// resetting after `now`, a new pair or one that moved by a minute or more is recorded
/// with its warning five minutes before the reset and started exactly once (replacing
/// the old tasks exactly when a pair was recorded before), while a pair within a
/// minute of the wanted one is left alone and not restarted. Nothing else is started,
/// no key is started twice, and no other key changes.
pub proof fn lemma_reset_pairs_follow_reading(
    resets: Map<Seq<char>, ScheduledResetView>,
    provider_id: Seq<char>,
    provider_name: Seq<char>,
    tiers: Seq<QuotaTier>,
    epochs: Seq<Option<i64>>,
    now: int,
)
    requires
        epochs.len() == tiers.len(),
        forall|a: int, b: int|
            0 <= a < b < tiers.len() ==> (#[trigger] tiers[a]).name@ != (#[trigger] tiers[b]).name@,
    ensures
        ({
            let res = resets_pass(
                resets,
                provider_id,
                provider_name,
                tiers,
                epochs,
                now,
                tiers.len(),
            );
            &&& forall|i: int|
                0 <= i < tiers.len() && resets_later(epochs, now, i) ==> #[trigger] tier_pair_outcome(
                    resets,
                    res.0,
                    res.1,
                    provider_id,
                    provider_name,
                    tiers,
                    epochs,
                    i,
                )
            &&& started_only_changed(
                resets,
                res.1,
                provider_id,
                tiers,
                epochs,
                now,
                tiers.len() as int,
            )
            &&& forall|a: int, b: int|
                0 <= a < b < res.1.len() ==> (#[trigger] res.1[a]).key != (#[trigger] res.1[b]).key
            &&& others_untouched(resets, res.0, provider_id, tiers, epochs, now, tiers.len() as int)
        }),
{
    lemma_reset_pairs_prefix(
        resets,
        provider_id,
        provider_name,
        tiers,
        epochs,
        now,
        tiers.len(),
    );
}

/// Whether `s` holds no `{`.
pub open spec fn no_brace(s: Seq<char>) -> bool {
    forall|i: int| 0 <= i < s.len() ==> #[trigger] s[i] != '{'
}

proof fn lemma_replace_skips_plain(x: Seq<char>, y: Seq<char>, pat: Seq<char>, rep: Seq<char>)
    requires
        pat.len() > 0,
        pat[0] == '{',
        no_brace(x),
    ensures
        replace_all(x + y, pat, rep) == x + replace_all(y, pat, rep),
    decreases x.len(),
{
    if x.len() == 0 {
        assert(x + y =~= y);
        assert(x + replace_all(y, pat, rep) =~= replace_all(y, pat, rep));
    } else {
        let s = x + y;
        assert(s[0] == x[0]);
        if pat.len() <= s.len() {
            assert(s.subrange(0, pat.len() as int)[0] != pat[0]);
        }
        assert(s.skip(1) =~= x.skip(1) + y);
        lemma_replace_skips_plain(x.skip(1), y, pat, rep);
        assert(x =~= seq![x[0]] + x.skip(1));
        assert(x + replace_all(y, pat, rep) =~= seq![x[0]] + (x.skip(1) + replace_all(y, pat, rep)));
    }
}

proof fn lemma_replace_at_match(pat: Seq<char>, y: Seq<char>, rep: Seq<char>)
    requires
        pat.len() > 0,
    ensures
        replace_all(pat + y, pat, rep) == rep + replace_all(y, pat, rep),
{
    let s = pat + y;
    assert(s.subrange(0, pat.len() as int) =~= pat);
    assert(s.skip(pat.len() as int) =~= y);
}

proof fn lemma_replace_plain(x: Seq<char>, pat: Seq<char>, rep: Seq<char>)
    requires
        pat.len() > 0,
        pat[0] == '{',
        no_brace(x),
    ensures
        replace_all(x, pat, rep) == x,
{
    lemma_replace_skips_plain(x, Seq::<char>::empty(), pat, rep);
    assert(x + Seq::<char>::empty() =~= x);
    assert(replace_all(Seq::<char>::empty(), pat, rep) == Seq::<char>::empty());
    assert(x + Seq::<char>::empty() =~= x);
}

/// Whether `template` is `a`, the `{{from}}` placeholder, `m`, the `{{to}}`
/// placeholder and `c`, in that order, with no other `{` in it.
pub open spec fn from_then_to(template: Seq<char>, a: Seq<char>, m: Seq<char>, c: Seq<char>) -> bool {
    &&& no_brace(a)
    &&& no_brace(m)
    &&& no_brace(c)
    &&& template == a + "{{from}}"@ + m + "{{to}}"@ + c
}

proof fn lemma_fill_from_then_to(
    a: Seq<char>,
    m: Seq<char>,
    c: Seq<char>,
    old: Seq<char>,
    new: Seq<char>,
)
    requires
        no_brace(a),
        no_brace(m),
        no_brace(c),
        no_brace(old),
    ensures
        replace_all(
            replace_all(a + "{{from}}"@ + m + "{{to}}"@ + c, "{{from}}"@, old),
            "{{to}}"@,
            new,
        ) == a + old + m + new + c,
{
    reveal_strlit("{{from}}");
    reveal_strlit("{{to}}");
    let f = "{{from}}"@;
    let t = "{{to}}"@;
    assert(f.len() == 8 && f[0] == '{' && f[2] == 'f');
    assert(t.len() == 6 && t[0] == '{' && t[1] == '{' && t[2] == 't');
    // {{to}} followed by plain text has no {{from}} in it.
    let s0 = t + c;
    let s1 = s0.skip(1);
    let s2 = s1.skip(1);
    assert(no_brace(s2)) by {
        assert forall|i: int| 0 <= i < s2.len() implies #[trigger] s2[i] != '{' by {
            assert(s2[i] == s0[i + 2]);
            if i + 2 < 6 {
                assert(s0[i + 2] == t[i + 2]);
            } else {
                assert(s0[i + 2] == c[i + 2 - 6]);
            }
        }
    }
    lemma_replace_plain(s2, f, old);
    if f.len() <= s1.len() {
        assert(s1.subrange(0, 8)[1] == 't');
    }
    assert(s1 =~= seq![s1[0]] + s2);
    if f.len() <= s0.len() {
        assert(s0.subrange(0, 8)[2] == 't');
    }
    assert(s0 =~= seq![s0[0]] + s1);
    assert(s1.len() > 0 && s1[0] == '{');
    assert(!(f.len() <= s1.len() && s1.subrange(0, f.len() as int) == f));
    assert(replace_all(s1, f, old) == seq![s1[0]] + replace_all(s2, f, old));
    assert(replace_all(s1, f, old) =~= s1);
    assert(!(f.len() <= s0.len() && s0.subrange(0, f.len() as int) == f));
    assert(replace_all(s0, f, old) == seq![s0[0]] + replace_all(s1, f, old));
    assert(replace_all(s0, f, old) =~= s0);
    // First fill: {{from}} becomes the old name.
    let tpl = a + f + m + t + c;
    assert(tpl =~= a + (f + (m + s0)));
    lemma_replace_skips_plain(a, f + (m + s0), f, old);
    lemma_replace_at_match(f, m + s0, old);
    lemma_replace_skips_plain(m, s0, f, old);
    let r1 = a + old + m + t + c;
    assert(replace_all(tpl, f, old) =~= r1);
    // Second fill: {{to}} becomes the new name.
    let pre = a + old + m;
    assert(no_brace(pre)) by {
        assert forall|i: int| 0 <= i < pre.len() implies #[trigger] pre[i] != '{' by {
            if i < a.len() {
                assert(pre[i] == a[i]);
            } else if i < a.len() + old.len() {
                assert(pre[i] == old[i - a.len()]);
            } else {
                assert(pre[i] == m[i - a.len() - old.len()]);
            }
        }
    }
    assert(r1 =~= pre + (t + c));
    lemma_replace_skips_plain(pre, t + c, t, new);
    lemma_replace_at_match(t, c, new);
    lemma_replace_plain(c, t, new);
    assert(replace_all(r1, t, new) =~= a + old + m + new + c);
}

/// Every language's switch notice names the old provider first and the new one
/// second, as "switched from old to new": its template has `{{from}}` before
/// `{{to}}`, and filling it with names free of `{` gives the sentence with the old
/// name in the source place and the new one in the target place.
pub proof fn lemma_auto_switch_names_in_order(language: Seq<char>, old: Seq<char>, new: Seq<char>)
    requires
        no_brace(old),
        no_brace(new),
    ensures
        exists|a: Seq<char>, m: Seq<char>, c: Seq<char>|
            #[trigger] from_then_to(texts_for(language).auto_switched_body@, a, m, c)
                && auto_switched_notice(texts_for(language), old, new).1 == a + old + m + new + c,
{
    let body = texts_for(language).auto_switched_body@;
    let f = "{{from}}"@;
    let t = "{{to}}"@;
    reveal_strlit("{{from}}");
    reveal_strlit("{{to}}");
    reveal_strlit("zh-TW");
    reveal_strlit("ja");
    reveal_strlit("en");
    let (a, m, c) = if language == "zh-TW"@ {
        reveal_strlit("已從 {{from}} 切換到 {{to}}");
        (seq!['已', '從', ' '], seq![' ', '切', '換', '到', ' '], Seq::<char>::empty())
    } else if language == "ja"@ {
        reveal_strlit("{{from}} から {{to}} に切り替えました");
        (
            Seq::<char>::empty(),
            seq![' ', 'か', 'ら', ' '],
            seq![' ', 'に', '切', 'り', '替', 'え', 'ま', 'し', 'た'],
        )
    } else if language == "en"@ {
        reveal_strlit("Switched from {{from}} to {{to}}");
        (
            seq!['S', 'w', 'i', 't', 'c', 'h', 'e', 'd', ' ', 'f', 'r', 'o', 'm', ' '],
            seq![' ', 't', 'o', ' '],
            Seq::<char>::empty(),
        )
    } else {
        reveal_strlit("已从 {{from}} 切换到 {{to}}");
        (seq!['已', '从', ' '], seq![' ', '切', '换', '到', ' '], Seq::<char>::empty())
    };
    assert(body =~= a + f + m + t + c);
    assert(from_then_to(body, a, m, c));
    lemma_fill_from_then_to(a, m, c, old, new);
}

/// The alert levels, ascending: 80, 95 and 100 percent.
pub open spec fn alert_level(p: int) -> u8 {
    if p == 0 {
        80
    } else if p == 1 {
        95
    } else {
        100
    }
}

/// Whether one of the first `n` tiers is named `name` and reached `level`.
pub open spec fn reached_by_some_tier(tiers: Seq<QuotaTier>, n: int, name: Seq<char>, level: u8) -> bool {
    exists|j: int|
        0 <= j < n && (#[trigger] tiers[j]).name@ == name && tiers[j].utilization >= level
}

/// Whether the reading owes an alert for level `p` of tier `i`: the tier reached it,
/// it was not recorded as sent `today` before the reading, and no earlier tier of
/// the reading with the same name reached it (that one carries the alert).
pub open spec fn newly_due(
    fired0: Map<Seq<char>, Seq<char>>,
    provider_id: Seq<char>,
    tiers: Seq<QuotaTier>,
    today: Seq<char>,
    i: int,
    p: int,
) -> bool {
    let level = alert_level(p);
    &&& tiers[i].utilization >= level
    &&& !fired_on(fired0, threshold_dedup_key_of(provider_id, tiers[i].name@, level as nat), today)
    &&& !reached_by_some_tier(tiers, i, tiers[i].name@, level)
}

/// The alerts owed for the first `m` levels of tier `i`, ascending.
pub open spec fn tier_alerts(
    fired0: Map<Seq<char>, Seq<char>>,
    texts: NotificationTexts,
    provider_id: Seq<char>,
    provider_name: Seq<char>,
    tiers: Seq<QuotaTier>,
    today: Seq<char>,
    i: int,
    m: nat,
) -> Seq<(Seq<char>, Seq<char>)>
    decreases m,
{
    if m == 0 {
        seq![]
    } else {
        let prev = tier_alerts(fired0, texts, provider_id, provider_name, tiers, today, i, (m - 1) as nat);
        if newly_due(fired0, provider_id, tiers, today, i, m - 1) {
            prev.push(threshold_notice(texts, provider_name, tiers[i].name@, alert_level(m - 1) as nat))
        } else {
            prev
        }
    }
}

/// The alerts owed by a reading of the first `n` tiers: tier after tier, each tier's
/// levels ascending.
pub open spec fn owed_alerts(
    fired0: Map<Seq<char>, Seq<char>>,
    texts: NotificationTexts,
    provider_id: Seq<char>,
    provider_name: Seq<char>,
    tiers: Seq<QuotaTier>,
    today: Seq<char>,
    n: nat,
) -> Seq<(Seq<char>, Seq<char>)>
    decreases n,
{
    if n == 0 {
        seq![]
    } else {
        owed_alerts(fired0, texts, provider_id, provider_name, tiers, today, (n - 1) as nat)
            + tier_alerts(fired0, texts, provider_id, provider_name, tiers, today, n - 1, 3)
    }
}

/// The notices of a list of due levels of one tier.
pub open spec fn alerts_for(
    due: Seq<u8>,
    texts: NotificationTexts,
    provider_name: Seq<char>,
    tier_name: Seq<char>,
) -> Seq<(Seq<char>, Seq<char>)> {
    due.map_values(|p: u8| threshold_notice(texts, provider_name, tier_name, p as nat))
}

proof fn lemma_due_reached(
    f: Map<Seq<char>, Seq<char>>,
    provider_id: Seq<char>,
    tier: QuotaTier,
    today: Seq<char>,
    m: nat,
)
    ensures
        forall|q: int|
            0 <= q < due_thresholds(f, provider_id, tier, today, m).len() ==> tier.utilization
                >= #[trigger] due_thresholds(f, provider_id, tier, today, m)[q],
    decreases m,
{
    if m > 0 {
        lemma_due_reached(f, provider_id, tier, today, (m - 1) as nat);
        let prev = due_thresholds(f, provider_id, tier, today, (m - 1) as nat);
        let cur = due_thresholds(f, provider_id, tier, today, m);
        assert forall|q: int| 0 <= q < cur.len() implies tier.utilization >= #[trigger] cur[q] by {
            if q < prev.len() {
                assert(cur[q] == prev[q]);
            }
        }
    }
}

proof fn lemma_mark_due_alerts(
    f: Map<Seq<char>, Seq<char>>,
    ns: Seq<(Seq<char>, Seq<char>)>,
    texts: NotificationTexts,
    provider_id: Seq<char>,
    provider_name: Seq<char>,
    tier_name: Seq<char>,
    today: Seq<char>,
    due: Seq<u8>,
    k: nat,
)
    requires
        k <= due.len(),
    ensures
        mark_due(f, ns, texts, provider_id, provider_name, tier_name, today, due, k).1 == ns
            + alerts_for(due.take(k as int), texts, provider_name, tier_name),
        forall|key: Seq<char>|
            #[trigger] fired_on(
                mark_due(f, ns, texts, provider_id, provider_name, tier_name, today, due, k).0,
                key,
                today,
            ) <==> (fired_on(f, key, today) || exists|q: int|
                0 <= q < k && key == threshold_dedup_key_of(
                    provider_id,
                    tier_name,
                    (#[trigger] due[q]) as nat,
                )),
    decreases k,
{
    if k > 0 {
        lemma_mark_due_alerts(
            f,
            ns,
            texts,
            provider_id,
            provider_name,
            tier_name,
            today,
            due,
            (k - 1) as nat,
        );
        let prev = mark_due(
            f,
            ns,
            texts,
            provider_id,
            provider_name,
            tier_name,
            today,
            due,
            (k - 1) as nat,
        );
        assert(alerts_for(due.take(k as int), texts, provider_name, tier_name) =~= alerts_for(
            due.take(k - 1),
            texts,
            provider_name,
            tier_name,
        ).push(threshold_notice(texts, provider_name, tier_name, due[k - 1] as nat)));
        let cur = mark_due(f, ns, texts, provider_id, provider_name, tier_name, today, due, k);
        assert forall|key: Seq<char>|
            #[trigger] fired_on(cur.0, key, today) <==> (fired_on(f, key, today) || exists|q: int|
                0 <= q < k && key == threshold_dedup_key_of(
                    provider_id,
                    tier_name,
                    (#[trigger] due[q]) as nat,
                )) by {
            let kk = threshold_dedup_key_of(provider_id, tier_name, due[k - 1] as nat);
            if key == kk {
                assert(0 <= k - 1 < k && key == threshold_dedup_key_of(
                    provider_id,
                    tier_name,
                    due[k - 1] as nat,
                ));
            } else {
                assert(fired_on(cur.0, key, today) == fired_on(prev.0, key, today));
                if exists|q: int|
                    0 <= q < k && key == threshold_dedup_key_of(
                        provider_id,
                        tier_name,
                        (#[trigger] due[q]) as nat,
                    ) {
                    let q = choose|q: int|
                        0 <= q < k && key == threshold_dedup_key_of(
                            provider_id,
                            tier_name,
                            (#[trigger] due[q]) as nat,
                        );
                    assert(q != k - 1);
                    assert(0 <= q < k - 1 && key == threshold_dedup_key_of(
                        provider_id,
                        tier_name,
                        due[q] as nat,
                    ));
                }
            }
        }
    } else {
        assert(alerts_for(due.take(0), texts, provider_name, tier_name) =~= Seq::<
            (Seq<char>, Seq<char>),
        >::empty());
        assert(ns + Seq::<(Seq<char>, Seq<char>)>::empty() =~= ns);
    }
}

proof fn lemma_due_alerts_owed(
    f: Map<Seq<char>, Seq<char>>,
    fired0: Map<Seq<char>, Seq<char>>,
    texts: NotificationTexts,
    provider_id: Seq<char>,
    provider_name: Seq<char>,
    tiers: Seq<QuotaTier>,
    today: Seq<char>,
    j: int,
    m: nat,
)
    requires
        0 <= j < tiers.len(),
        m <= 3,
        forall|p: int|
            0 <= p < 3 ==> (threshold_due(f, provider_id, tiers[j], today, #[trigger] alert_level(p))
                <==> newly_due(fired0, provider_id, tiers, today, j, p)),
    ensures
        alerts_for(
            due_thresholds(f, provider_id, tiers[j], today, m),
            texts,
            provider_name,
            tiers[j].name@,
        ) == tier_alerts(fired0, texts, provider_id, provider_name, tiers, today, j, m),
    decreases m,
{
    if m > 0 {
        lemma_due_alerts_owed(f, fired0, texts, provider_id, provider_name, tiers, today, j, (m - 1) as nat);
        let p = m - 1;
        assert(threshold_at(p) == alert_level(p));
        let prev = due_thresholds(f, provider_id, tiers[j], today, (m - 1) as nat);
        assert(threshold_due(f, provider_id, tiers[j], today, alert_level(p)) <==> newly_due(
            fired0,
            provider_id,
            tiers,
            today,
            j,
            p,
        ));
        assert(alerts_for(prev.push(alert_level(p)), texts, provider_name, tiers[j].name@) =~= alerts_for(
            prev,
            texts,
            provider_name,
            tiers[j].name@,
        ).push(threshold_notice(texts, provider_name, tiers[j].name@, alert_level(p) as nat)));
    } else {
        assert(alerts_for(Seq::<u8>::empty(), texts, provider_name, tiers[j].name@) =~= Seq::<
            (Seq<char>, Seq<char>),
        >::empty());
    }
}

proof fn lemma_alerts_prefix(
    fired0: Map<Seq<char>, Seq<char>>,
    texts: NotificationTexts,
    provider_id: Seq<char>,
    provider_name: Seq<char>,
    tiers: Seq<QuotaTier>,
    today: Seq<char>,
    n: nat,
)
    requires
        n <= tiers.len(),
    ensures
        thresholds_pass(fired0, texts, provider_id, provider_name, tiers, today, n).1
            == owed_alerts(fired0, texts, provider_id, provider_name, tiers, today, n),
        forall|name: Seq<char>, p: int|
            0 <= p < 3 ==> (fired_on(
                thresholds_pass(fired0, texts, provider_id, provider_name, tiers, today, n).0,
                #[trigger] threshold_dedup_key_of(provider_id, name, alert_level(p) as nat),
                today,
            ) <==> (fired_on(
                fired0,
                threshold_dedup_key_of(provider_id, name, alert_level(p) as nat),
                today,
            ) || reached_by_some_tier(tiers, n as int, name, alert_level(p)))),
    decreases n,
{
    if n > 0 {
        lemma_alerts_prefix(fired0, texts, provider_id, provider_name, tiers, today, (n - 1) as nat);
        let j = n - 1;
        let prev = thresholds_pass(fired0, texts, provider_id, provider_name, tiers, today, (n - 1) as nat);
        let tier = tiers[j];
        let due = due_thresholds(prev.0, provider_id, tier, today, 3);
        let res = thresholds_pass(fired0, texts, provider_id, provider_name, tiers, today, n);
        assert forall|p: int| 0 <= p < 3 implies (threshold_due(
            prev.0,
            provider_id,
            tiers[j],
            today,
            #[trigger] alert_level(p),
        ) <==> newly_due(fired0, provider_id, tiers, today, j, p)) by {
            assert(fired_on(
                prev.0,
                threshold_dedup_key_of(provider_id, tier.name@, alert_level(p) as nat),
                today,
            ) <==> (fired_on(
                fired0,
                threshold_dedup_key_of(provider_id, tier.name@, alert_level(p) as nat),
                today,
            ) || reached_by_some_tier(tiers, j, tier.name@, alert_level(p))));
        }
        lemma_due_alerts_owed(prev.0, fired0, texts, provider_id, provider_name, tiers, today, j, 3);
        lemma_mark_due_alerts(
            prev.0,
            prev.1,
            texts,
            provider_id,
            provider_name,
            tier.name@,
            today,
            due,
            due.len(),
        );
        assert(due.take(due.len() as int) =~= due);
        lemma_due_reached(prev.0, provider_id, tier, today, 3);
        lemma_due_contains(prev.0, provider_id, tier, today, 3);
        assert forall|name: Seq<char>, p: int| 0 <= p < 3 implies (fired_on(
            res.0,
            #[trigger] threshold_dedup_key_of(provider_id, name, alert_level(p) as nat),
            today,
        ) <==> (fired_on(
            fired0,
            threshold_dedup_key_of(provider_id, name, alert_level(p) as nat),
            today,
        ) || reached_by_some_tier(tiers, n as int, name, alert_level(p)))) by {
            let lvl = alert_level(p);
            let key = threshold_dedup_key_of(provider_id, name, lvl as nat);
            assert(threshold_at(p) == lvl);
            assert(fired_on(prev.0, key, today) <==> (fired_on(fired0, key, today)
                || reached_by_some_tier(tiers, j, name, lvl)));
            // Marked by this tier exactly when it is this tier's name and the tier reached it.
            if exists|q: int|
                0 <= q < due.len() && key == threshold_dedup_key_of(
                    provider_id,
                    tier.name@,
                    (#[trigger] due[q]) as nat,
                ) {
                let q = choose|q: int|
                    0 <= q < due.len() && key == threshold_dedup_key_of(
                        provider_id,
                        tier.name@,
                        (#[trigger] due[q]) as nat,
                    );
                lemma_threshold_dedup_key_injective(provider_id, name, lvl, tier.name@, due[q]);
                assert(tiers[j].name@ == name && tiers[j].utilization >= lvl);
                assert(reached_by_some_tier(tiers, n as int, name, lvl));
            }
            if name == tier.name@ && tier.utilization >= lvl && !fired_on(prev.0, key, today) {
                let q = choose|q: int|
                    0 <= q < due.len() && due[q] == threshold_at(p);
                assert(key == threshold_dedup_key_of(provider_id, tier.name@, due[q] as nat));
            }
            if reached_by_some_tier(tiers, n as int, name, lvl) && !reached_by_some_tier(tiers, j, name, lvl) {
                let i = choose|i: int|
                    0 <= i < n && (#[trigger] tiers[i]).name@ == name && tiers[i].utilization >= lvl;
                assert(i == j);
            }
            if reached_by_some_tier(tiers, j, name, lvl) {
                let i = choose|i: int|
                    0 <= i < j && (#[trigger] tiers[i]).name@ == name && tiers[i].utilization >= lvl;
                assert(reached_by_some_tier(tiers, n as int, name, lvl));
            }
        }
    }
}

/// A reading sends exactly the threshold alerts it owes: for every tier in order and
/// every level it reached (80, 95, 100 ascending), one alert unless that level of that
/// tier of this provider was already recorded as sent `today` (or an earlier tier of
/// the same name in the reading already carries it). Afterwards a level of a tier is
/// recorded as sent `today` exactly when it was before or some tier of that name
/// reached it.
pub proof fn lemma_threshold_alerts_owed(
    fired0: Map<Seq<char>, Seq<char>>,
    texts: NotificationTexts,
    provider_id: Seq<char>,
    provider_name: Seq<char>,
    tiers: Seq<QuotaTier>,
    today: Seq<char>,
)
    ensures
        thresholds_pass(fired0, texts, provider_id, provider_name, tiers, today, tiers.len()).1
            == owed_alerts(fired0, texts, provider_id, provider_name, tiers, today, tiers.len()),
        forall|name: Seq<char>, p: int|
            0 <= p < 3 ==> (fired_on(
                thresholds_pass(fired0, texts, provider_id, provider_name, tiers, today, tiers.len()).0,
                #[trigger] threshold_dedup_key_of(provider_id, name, alert_level(p) as nat),
                today,
            ) <==> (fired_on(
                fired0,
                threshold_dedup_key_of(provider_id, name, alert_level(p) as nat),
                today,
            ) || reached_by_some_tier(tiers, tiers.len() as int, name, alert_level(p)))),
{
    lemma_alerts_prefix(fired0, texts, provider_id, provider_name, tiers, today, tiers.len());
}

} // verus!
