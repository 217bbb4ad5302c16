//! The persisted dedup state: which notices were already sent on which day, and the
//! reset reminders that are scheduled.
use vstd::prelude::*;
use crate::store::StrMap;
use crate::strings::str_eq;

verus! {

/// The reset reminders of one tier of one provider.
#[derive(Debug)]
pub struct ScheduledReset {
    pub warn_at_epoch: i64,
    pub reset_at_epoch: i64,
    pub warn_fired: bool,
    pub reset_fired: bool,
    /// Provider name shown in the reminders (kept for rescheduling after a restart).
    pub provider_name: String,
    /// Tier label shown in the reminders.
    pub tier_label: String,
}

/// `ScheduledReset` with its texts taken as character sequences.
pub struct ScheduledResetView {
    pub warn_at_epoch: int,
    pub reset_at_epoch: int,
    pub warn_fired: bool,
    pub reset_fired: bool,
    pub provider_name: Seq<char>,
    pub tier_label: Seq<char>,
}

impl View for ScheduledReset {
    type V = ScheduledResetView;

    open spec fn view(&self) -> ScheduledResetView {
        ScheduledResetView {
            warn_at_epoch: self.warn_at_epoch as int,
            reset_at_epoch: self.reset_at_epoch as int,
            warn_fired: self.warn_fired,
            reset_fired: self.reset_fired,
            provider_name: self.provider_name@,
            tier_label: self.tier_label@,
        }
    }
}

impl Clone for ScheduledReset {
    fn clone(&self) -> (r: Self)
        ensures
            r@ == self@,
    {
        ScheduledReset {
            warn_at_epoch: self.warn_at_epoch,
            reset_at_epoch: self.reset_at_epoch,
            warn_fired: self.warn_fired,
            reset_fired: self.reset_fired,
            provider_name: self.provider_name.clone(),
            tier_label: self.tier_label.clone(),
        }
    }
}

/// A reminder pair that has not fired yet, due at `warn` and `reset`.
pub open spec fn fresh_reset(
    warn: int,
    reset: int,
    provider_name: Seq<char>,
    tier_label: Seq<char>,
) -> ScheduledResetView {
    ScheduledResetView {
        warn_at_epoch: warn,
        reset_at_epoch: reset,
        warn_fired: false,
        reset_fired: false,
        provider_name,
        tier_label,
    }
}

/// Everything that is persisted between runs.
pub struct DedupState {
    /// Key to the UTC date (`YYYY-MM-DD`) on which that notice was last sent.
    pub thresholds_fired: StrMap<String>,
    /// `"<provider_id>:<tier_name>"` to its scheduled reset reminders.
    pub resets_scheduled: StrMap<ScheduledReset>,
}

/// `DedupState` as two maps.
#[verifier::ext_equal]
pub struct DedupView {
    pub fired: Map<Seq<char>, Seq<char>>,
    pub resets: Map<Seq<char>, ScheduledResetView>,
}

impl View for DedupState {
    type V = DedupView;

    open spec fn view(&self) -> DedupView {
        DedupView { fired: self.thresholds_fired@, resets: self.resets_scheduled@ }
    }
}

/// Whether `fired` records the notice `key` as sent on `today`.
pub open spec fn fired_on(fired: Map<Seq<char>, Seq<char>>, key: Seq<char>, today: Seq<char>) -> bool {
    fired.contains_key(key) && fired[key] == today
}

impl Default for DedupState {
    fn default() -> (s: Self)
        ensures
            s@.fired == Map::<Seq<char>, Seq<char>>::empty(),
            s@.resets == Map::<Seq<char>, ScheduledResetView>::empty(),
    {
        DedupState { thresholds_fired: StrMap::new(), resets_scheduled: StrMap::new() }
    }
}

impl DedupState {
    /// An empty state.
    pub fn new() -> (s: Self)
        ensures
            s@.fired == Map::<Seq<char>, Seq<char>>::empty(),
            s@.resets == Map::<Seq<char>, ScheduledResetView>::empty(),
    {
        DedupState { thresholds_fired: StrMap::new(), resets_scheduled: StrMap::new() }
    }

    /// Whether the notice `key` is recorded as sent on `today`.
    pub fn was_fired_on(&self, key: &str, today: &str) -> (r: bool)
        ensures
            r == fired_on(self@.fired, key@, today@),
    {
        match self.thresholds_fired.get(key) {
            Some(day) => str_eq(day.as_str(), today),
            None => false,
        }
    }

    /// Records the notice `key` as sent on `today`.
    pub fn record_fired(&mut self, key: String, today: String)
        ensures
            final(self)@.fired == old(self)@.fired.insert(key@, today@),
            final(self)@.resets == old(self)@.resets,
    {
        self.thresholds_fired.insert(key, today);
    }
}

} // verus!
