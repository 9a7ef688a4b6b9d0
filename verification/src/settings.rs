//! Settings that change while the process runs.

use vstd::prelude::*;
use crate::configuration::{FieldConfig, ServerConfig, SyncConfig};
use crate::memory::outbox::MemoryOutbox;
use crate::memory::outbox_model;
use crate::memory::outbox_model::OutboxModel;
use crate::memory::store::MemoryStore;
use crate::memory::store_model;
use crate::retention::StoreConfig;
use crate::sync::schedule::FieldSchedule;
use crate::text::{join2, join3};
use crate::time::Duration;

verus! {

/// Whether a schedule is that of a list of fields: the same names in the same
/// order, each as often.
pub open spec fn is_schedule_of(schedule: Seq<FieldSchedule>, fields: Seq<FieldConfig>) -> bool {
    schedule.len() == fields.len() && forall|i: int|
        0 <= i < schedule.len() ==> (#[trigger] schedule[i]).name@ == fields[i].name@
            && schedule[i].interval == fields[i].interval
}

/// The polling section as the poll loops take it.
pub fn schedules(sync: &SyncConfig) -> (r: Vec<FieldSchedule>)
    ensures
        is_schedule_of(r@, sync.fields@),
{
    let mut out: Vec<FieldSchedule> = Vec::new();
    let mut i: usize = 0;
    while i < sync.fields.len()
        invariant
            i <= sync.fields.len(),
            out@.len() == i,
            forall|j: int|
                0 <= j < i ==> (#[trigger] out@[j]).name@ == sync.fields@[j].name@
                    && out@[j].interval == sync.fields@[j].interval,
        decreases sync.fields.len() - i,
    {
        out.push(
            FieldSchedule {
                name: sync.fields[i].name.clone(),
                interval: sync.fields[i].interval,
            },
        );
        i = i + 1;
    }
    out
}

/// Why a change of the settings does not resolve.
#[derive(Debug, PartialEq, Eq)]
pub enum PatchError {
    /// A value makes no sense.
    Malformed(String),
    /// A setting cannot change while the process runs.
    Fixed(String),
}

/// What a caller is told of a change that was refused.
#[derive(Debug, PartialEq, Eq)]
pub enum ConfigRefusal {
    Malformed(String),
    Fixed(String),
    /// The config file could not be read.
    Source(String),
}

/// Whether a refusal tells of an error.
pub open spec fn tells(refusal: ConfigRefusal, err: PatchError) -> bool {
    match err {
        PatchError::Malformed(msg) => refusal matches ConfigRefusal::Malformed(m) && m@ == msg@,
        PatchError::Fixed(msg) => refusal matches ConfigRefusal::Fixed(m) && m@ == msg@,
    }
}

/// The refusal that tells of an error.
pub fn refuse(err: PatchError) -> (r: ConfigRefusal)
    ensures
        tells(r, err),
{
    match err {
        PatchError::Malformed(msg) => ConfigRefusal::Malformed(msg),
        PatchError::Fixed(msg) => ConfigRefusal::Fixed(msg),
    }
}

/// The refusal of a reload that could not read its file.
pub fn unreadable(path: &str, err: &str) -> (r: ConfigRefusal)
    ensures
        r matches ConfigRefusal::Source(m) && m@ == "reading "@ + path@ + ": "@ + err@,
{
    let head: String = join3("reading ", path, ": ");
    ConfigRefusal::Source(join2(head.as_str(), err))
}

/// What the running tasks are told of new settings.
#[derive(Debug, PartialEq, Eq)]
pub struct Published {
    pub schedule: Vec<FieldSchedule>,
    /// How far back to keep, and how often to sweep.
    pub policy: StoreConfig,
    /// How often the relay looks.
    pub drain: Duration,
    /// How many reads a lowered budget dropped at once.
    pub evicted: usize,
}

/// The settings the process runs under.
#[derive(Debug, PartialEq, Eq)]
pub struct LiveSettings {
    pub current: ServerConfig,
    pub policy: StoreConfig,
}

impl LiveSettings {
    pub fn new(config: ServerConfig, policy: StoreConfig) -> (r: Self)
        ensures
            r.current == config,
            r.policy == policy,
    {
        LiveSettings { current: config, policy }
    }

    /// Takes over new settings whole, or none of them where they were refused. The
    /// tasks are told what they read; the budget of the store and the tries of the
    /// outbox, which nobody reads, are set where they are enforced.
    pub fn apply(
        &mut self,
        next: Result<(ServerConfig, StoreConfig), PatchError>,
        store: &mut MemoryStore,
        outbox: &mut MemoryOutbox,
    ) -> (r: Result<Published, ConfigRefusal>)
        requires
            old(store).wf(),
            old(store)@.used() <= u64::MAX,
            old(store)@.evicted + old(store)@.entries.len() <= u64::MAX,
            old(outbox).wf(),
            next is Ok ==> forall|n: nat|
                n < (next->Ok_0).0.intent_relay.max_attempts ==> #[trigger] outbox_model::spaced(
                    old(outbox)@.backoff,
                    n,
                ),
        ensures
            final(store).wf(),
            final(outbox).wf(),
            r is Ok <==> next is Ok,
            r is Err ==> *final(self) == *old(self) && *final(store) == *old(store)
                && *final(outbox) == *old(outbox) && tells(r->Err_0, next->Err_0),
            r is Ok ==> {
                let (config, policy) = next->Ok_0;
                &&& final(self).current == config
                &&& final(self).policy == policy
                &&& is_schedule_of(r->Ok_0.schedule@, config.sync.fields@)
                &&& r->Ok_0.policy == policy
                &&& r->Ok_0.drain == config.intent_relay.poll
                &&& final(store)@ == store_model::budget_state(old(store)@, policy.max_memory)
                &&& r->Ok_0.evicted == final(store)@.evicted - old(store)@.evicted
                &&& final(outbox)@ == (OutboxModel {
                    max_attempts: if config.intent_relay.max_attempts == 0 {
                        1
                    } else {
                        config.intent_relay.max_attempts
                    },
                    ..old(outbox)@
                })
            },
    {
        match next {
            Err(e) => Err(refuse(e)),
            Ok((config, policy)) => {
                let evicted: usize = store.set_budget(policy.max_memory);
                outbox.set_max_attempts(config.intent_relay.max_attempts);
                let published: Published = Published {
                    schedule: schedules(&config.sync),
                    policy: policy.clone(),
                    drain: config.intent_relay.poll,
                    evicted,
                };
                self.current = config;
                self.policy = policy;
                Ok(published)
            },
        }
    }
}

} // verus!
