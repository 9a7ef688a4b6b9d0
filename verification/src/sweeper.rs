//! One pass of the sweeper over the store.

use vstd::prelude::*;
use crate::memory::store::MemoryStore;
use crate::memory::store_laws::a_sweep_returns_its_bytes;
use crate::memory::store_model;
use crate::memory::store_model::StoreModel;
use crate::retention::{
    cutoff_stamp, report_of, Report, Retention, RetentionModel, StoreConfig, SweepState,
};
use crate::store::lifecycle::{Swept, Usage};
use crate::time;
use crate::time::{Duration, Instant, Timestamp};

verus! {

/// What a pass did, and what it is worth saying.
#[derive(Debug, PartialEq, Eq)]
pub struct Pass {
    /// The oldest stamp that was kept, and what went; nothing where everything
    /// is kept.
    pub swept: Option<(Timestamp, Swept)>,
    pub report: Report,
}

/// The store after a pass.
pub open spec fn swept_state(m: StoreModel, retain: RetentionModel, now: Instant) -> StoreModel {
    match cutoff_stamp(retain, now) {
        Some(cutoff) => store_model::prune_state(m, cutoff),
        None => m,
    }
}

/// The usage that a store reports.
pub open spec fn usage_of(m: StoreModel) -> Usage {
    Usage {
        bytes: m.used() as u64,
        entries: m.entries.len() as u64,
        budget: m.budget,
        evicted: m.evicted as u64,
    }
}

/// Drops what the window does not keep as of `now`, and takes a reading of what
/// is left. A read stamped inside the window, in a year of four digits, stays.
pub fn sweep(
    store: &mut MemoryStore,
    retain: &Retention,
    now: Instant,
    state: &mut SweepState,
) -> (r: Pass)
    requires
        old(store).wf(),
        old(store)@.used() <= u64::MAX,
        now.valid(),
    ensures
        final(store).wf(),
        final(store)@ == swept_state(old(store)@, retain@, now),
        r.swept is Some <==> cutoff_stamp(retain@, now) is Some,
        r.swept is Some ==> ({
            let cutoff = cutoff_stamp(retain@, now)->0;
            let gone = old(store)@.entries.filter(store_model::expired(cutoff));
            &&& (r.swept->0).0@ == cutoff
            &&& (r.swept->0).1.entries == gone.len()
            &&& (r.swept->0).1.bytes == store_model::history_total(gone)
        }),
        retain@ matches RetentionModel::Age(age) ==> forall|i: int, j: Instant|
            #![trigger old(store)@.entries[i], time::rfc3339_text(j)]
            0 <= i < old(store)@.entries.len() && j.valid() && time::plain_year(j)
                && old(store)@.entries[i].at == time::rfc3339_text(j) && (time::earlier_by(
                now,
                age,
            ) is None || !j.millis_before(time::earlier_by(now, age)->0))
                ==> final(store)@.entries.contains(old(store)@.entries[i]),
        r.report == report_of(usage_of(final(store)@), old(state).seen_evicted),
        final(state).seen_evicted == final(store)@.evicted,
{
    let mut swept: Option<(Timestamp, Swept)> = None;
    match retain.cutoff(now) {
        Some(cutoff) => {
            proof {
                a_sweep_returns_its_bytes(store@, cutoff@);
                let keep = store_model::current(cutoff@);
                assert forall|i: int|
                    0 <= i < store@.entries.len() && keep(
                        #[trigger] store@.entries[i],
                    ) implies store@.entries.filter(keep).contains(store@.entries[i]) by {
                    store@.entries.lemma_filter_contains(keep, i);
                }
            }
            match store.prune(&cutoff) {
                Ok(gone) => {
                    swept = Some((cutoff, gone));
                },
                Err(_) => {},
            }
        },
        None => {},
    }
    match store.usage() {
        Ok(usage) => {
            let report: Report = state.take_reading(&usage);
            proof {
                assert(usage == usage_of(store@));
            }
            Pass { swept, report }
        },
        Err(_) => Pass { swept, report: Report::Quiet },
    }
}

/// Keeping forever, and a window that reaches further back than year 0, drop
/// nothing.
pub proof fn an_unbounded_window_drops_nothing(m: StoreModel, age: nat, now: Instant)
    requires
        age > time::STEP_MAX || match time::earlier_by(now, age) {
            Some(i) => !time::plain_year(i),
            None => true,
        },
    ensures
        swept_state(m, RetentionModel::Forever, now) == m,
        swept_state(m, RetentionModel::Age(age), now) == m,
{
}

// ---- from pass to pass -----------------------------------------------------

/// What the sweeper hears of.
#[derive(Debug, PartialEq, Eq)]
pub enum SweepNews {
    /// A policy was published.
    Policy(StoreConfig),
    /// Nobody is left who could publish one.
    NoMorePolicies,
    /// The time between two passes is over.
    Tick,
}

/// What the sweeper does next.
#[derive(Debug, Clone, Copy, PartialEq, Eq, Structural)]
pub enum SweepAction {
    /// Announce the policy, and start counting the time between passes anew.
    Repace,
    /// Make a pass.
    Sweep,
    /// Nothing.
    Wait,
}

/// The sweeper between its passes.
#[derive(Debug, PartialEq, Eq)]
pub struct Sweeper {
    pub policy: StoreConfig,
    /// Whether a policy can still come.
    pub watching: bool,
    pub state: SweepState,
}

/// The policy in force and whether one can still come, after this was heard.
pub open spec fn policy_heard(policy: StoreConfig, watching: bool, news: SweepNews) -> (
    StoreConfig,
    bool,
) {
    match news {
        SweepNews::Policy(next) => (
            if watching {
                next
            } else {
                policy
            },
            watching,
        ),
        SweepNews::NoMorePolicies => (policy, false),
        SweepNews::Tick => (policy, watching),
    }
}

impl Sweeper {
    /// A sweeper under its first policy.
    pub fn start(policy: StoreConfig) -> (r: Self)
        ensures
            r == (Sweeper { policy, watching: true, state: SweepState { seen_evicted: 0 } }),
    {
        Sweeper { policy, watching: true, state: SweepState::new() }
    }

    /// How long to wait between two passes, or nothing to wait for news alone.
    pub fn period(&self) -> (r: Option<Duration>)
        ensures
            r == self.policy.cleanup,
    {
        self.policy.cleanup
    }

    /// Takes in what was heard. A new policy is taken over and paces the sweeper
    /// anew; once nobody can publish one, the last policy stays; and time passes
    /// only under a policy that sweeps. What the last pass saw is kept throughout.
    pub fn hear(&mut self, news: SweepNews) -> (r: SweepAction)
        ensures
            r == SweepAction::Repace <==> news is Policy && old(self).watching,
            r == SweepAction::Sweep <==> news is Tick && old(self).policy.cleanup is Some,
            (final(self).policy, final(self).watching) == policy_heard(
                old(self).policy,
                old(self).watching,
                news,
            ),
            final(self).state == old(self).state,
    {
        match news {
            SweepNews::Policy(policy) => {
                if self.watching {
                    self.policy = policy;
                    SweepAction::Repace
                } else {
                    SweepAction::Wait
                }
            },
            SweepNews::NoMorePolicies => {
                self.watching = false;
                SweepAction::Wait
            },
            SweepNews::Tick => {
                if self.policy.cleanup.is_some() {
                    SweepAction::Sweep
                } else {
                    SweepAction::Wait
                }
            },
        }
    }

    /// Makes a pass under the policy in force.
    pub fn pass(&mut self, store: &mut MemoryStore, now: Instant) -> (r: Pass)
        requires
            old(store).wf(),
            old(store)@.used() <= u64::MAX,
            now.valid(),
        ensures
            final(store).wf(),
            final(store)@ == swept_state(old(store)@, old(self).policy.retain@, now),
            r.swept is Some <==> cutoff_stamp(old(self).policy.retain@, now) is Some,
            r.swept is Some ==> ({
                let cutoff = cutoff_stamp(old(self).policy.retain@, now)->0;
                let gone = old(store)@.entries.filter(store_model::expired(cutoff));
                &&& (r.swept->0).0@ == cutoff
                &&& (r.swept->0).1.entries == gone.len()
                &&& (r.swept->0).1.bytes == store_model::history_total(gone)
            }),
            r.report == report_of(usage_of(final(store)@), old(self).state.seen_evicted),
            final(self).state.seen_evicted == final(store)@.evicted,
            final(self).policy == old(self).policy,
            final(self).watching == old(self).watching,
    {
        let mut state: SweepState = self.state;
        let r: Pass = sweep(store, &self.policy.retain, now, &mut state);
        self.state = state;
        r
    }
}

/// The policy in force and whether one can still come, after all of this was heard.
pub open spec fn policy_after(policy: StoreConfig, watching: bool, news: Seq<SweepNews>) -> (
    StoreConfig,
    bool,
)
    decreases news.len(),
{
    if news.len() == 0 {
        (policy, watching)
    } else {
        let (held, open) = policy_after(policy, watching, news.drop_last());
        policy_heard(held, open, news.last())
    }
}

/// Once nobody can publish a policy, the policy in force stays, whatever is heard.
pub proof fn the_last_policy_stays(policy: StoreConfig, news: Seq<SweepNews>)
    ensures
        policy_after(policy, false, news) == (policy, false),
    decreases news.len(),
{
    if news.len() > 0 {
        the_last_policy_stays(policy, news.drop_last());
    }
}

} // verus!
