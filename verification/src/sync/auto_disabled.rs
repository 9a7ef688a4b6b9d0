//! The fields that a device was found to refuse.
//!
//! Only a caller that repeats itself can see refusals follow one another, so the
//! poll loops count, and everyone who would ask the device is bound by the count.
//! Time is the caller's: how long its clock has run.

use vstd::prelude::*;
use crate::devices::device::{DeviceError, VetoSource};
use crate::ordered;
use crate::ordered::OrderedMap;
use crate::status::RefusedField;
use crate::sync::poll::Refusal;
use crate::text;
use crate::text::same;
use crate::time::Duration;

verus! {

/// How long a field stays off.
#[derive(Debug, Clone, Copy, PartialEq, Eq, Structural)]
pub enum Off {
    ForGood,
    /// For `wait`, counted from `since`.
    Until { since: Duration, wait: Duration },
}

/// What is known of a field that was refused.
#[derive(Debug, Clone, Copy, PartialEq, Eq, Structural)]
pub struct Watched {
    /// How often it was refused in a row.
    pub refusals: u32,
    pub off: Option<Off>,
}

impl View for Watched {
    type V = Watched;

    open spec fn view(&self) -> Watched {
        *self
    }
}

/// The learned vetoes of one device.
pub struct AutoDisabled {
    fields: OrderedMap<Watched>,
}

impl View for AutoDisabled {
    type V = Map<Seq<char>, Watched>;

    closed spec fn view(&self) -> Map<Seq<char>, Watched> {
        self.fields@
    }
}

/// How a field is switched off at `now`.
pub open spec fn switched_off(self_heal: Option<Duration>, now: Duration) -> Off {
    match self_heal {
        Some(wait) => Off::Until { since: now, wait },
        None => Off::ForGood,
    }
}

/// What is known of a field once it was refused again, where refusals count.
pub open spec fn refused_again(
    known: Option<Watched>,
    threshold: u32,
    self_heal: Option<Duration>,
    now: Duration,
) -> Watched {
    let before = match known {
        Some(w) => w,
        None => Watched { refusals: 0, off: None },
    };
    let refusals = if before.refusals == u32::MAX {
        u32::MAX
    } else {
        (before.refusals + 1) as u32
    };
    Watched {
        refusals,
        off: if before.off is Some || refusals >= threshold {
            Some(switched_off(self_heal, now))
        } else {
            None
        },
    }
}

/// How long what is known of a field forbids to ask for it: not at all, for so
/// many nanoseconds more, or for good.
pub open spec fn veto_of(known: Option<Watched>, now: nat) -> Option<Option<nat>> {
    match known {
        Some(Watched { off: Some(Off::ForGood), .. }) => Some(None),
        Some(Watched { off: Some(Off::Until { since, wait }), .. }) => if now < since@ {
            if wait@ == 0 {
                None
            } else {
                Some(Some(wait@))
            }
        } else if now - since@ < wait@ {
            Some(Some((wait@ - (now - since@)) as nat))
        } else {
            None
        },
        _ => None,
    }
}

pub open spec fn known_of(fields: Map<Seq<char>, Watched>, field: Seq<char>) -> Option<Watched> {
    if fields.contains_key(field) {
        Some(fields[field])
    } else {
        None
    }
}

/// The view of a veto.
pub open spec fn veto_view(veto: Option<Option<Duration>>) -> Option<Option<nat>> {
    match veto {
        None => None,
        Some(None) => Some(None),
        Some(Some(wait)) => Some(Some(wait@)),
    }
}

/// Whether an entry tells at `now` what is known of a field.
pub open spec fn tells_of(
    entry: RefusedField,
    field: Seq<char>,
    known: Watched,
    now: Duration,
) -> bool {
    &&& entry.name@ == field
    &&& entry.refusals == known.refusals
    &&& entry.disabled == (known.off is Some)
    &&& match entry.retry_in {
        Some(wait) => veto_of(Some(known), now@) == Some(Some(wait@)),
        None => !(veto_of(Some(known), now@) matches Some(Some(_))),
    }
}

impl AutoDisabled {
    /// Nothing is off, and nothing was refused.
    pub fn new() -> (r: Self)
        ensures
            r@ == Map::<Seq<char>, Watched>::empty(),
    {
        AutoDisabled { fields: OrderedMap::new() }
    }

    /// Whether the field is off at `now`: for so long, or for good.
    pub fn veto(&self, field: &str, now: Duration) -> (r: Option<Option<Duration>>)
        ensures
            veto_view(r) == veto_of(known_of(self@, field@), now@),
    {
        match self.fields.get(field) {
            None => None,
            Some(known) => match known.off {
                None => None,
                Some(Off::ForGood) => Some(None),
                Some(Off::Until { since, wait }) => {
                    let passed: u128 = if now.as_nanos() < since.as_nanos() {
                        0
                    } else {
                        now.as_nanos() - since.as_nanos()
                    };
                    match wait.less(passed) {
                        Some(left) => Some(Some(left)),
                        None => None,
                    }
                },
            },
        }
    }

    /// Counts a refusal of a field. At `threshold` in a row the field is off, for
    /// `self_heal` or for good; a threshold of zero counts nothing.
    pub fn refused(
        &mut self,
        field: &str,
        threshold: u32,
        self_heal: Option<Duration>,
        now: Duration,
    ) -> (r: Refusal)
        ensures
            threshold == 0 ==> final(self)@ == old(self)@ && r == Refusal::Still,
            threshold > 0 ==> ({
                let known = known_of(old(self)@, field@);
                let next = refused_again(known, threshold, self_heal, now);
                &&& final(self)@ == old(self)@.insert(field@, next)
                &&& r == if known is Some && known->0.off is Some {
                    Refusal::Still
                } else if next.off is Some {
                    Refusal::Disabled { refusals: next.refusals }
                } else {
                    Refusal::Counted { refusals: next.refusals }
                }
            }),
    {
        if threshold == 0 {
            return Refusal::Still;
        }
        let before: Watched = match self.fields.get(field) {
            Some(known) => *known,
            None => Watched { refusals: 0, off: None },
        };
        let refusals: u32 = if before.refusals == u32::MAX {
            u32::MAX
        } else {
            before.refusals + 1
        };
        let off: Option<Off> = if before.off.is_some() || refusals >= threshold {
            match self_heal {
                Some(wait) => Some(Off::Until { since: now, wait }),
                None => Some(Off::ForGood),
            }
        } else {
            None
        };
        self.fields.insert(field.to_owned(), Watched { refusals, off });
        if before.off.is_some() {
            Refusal::Still
        } else if off.is_some() {
            Refusal::Disabled { refusals }
        } else {
            Refusal::Counted { refusals }
        }
    }

    /// Takes an answer for a field: nothing is known against it any more. Says
    /// whether it had been off.
    pub fn answered(&mut self, field: &str) -> (was_off: bool)
        ensures
            final(self)@ == old(self)@.remove(field@),
            was_off == (known_of(old(self)@, field@) is Some && known_of(
                old(self)@,
                field@,
            )->0.off is Some),
    {
        match self.fields.take(field) {
            Some(known) => known.off.is_some(),
            None => false,
        }
    }

    /// The fields that were refused, in order.
    pub closed spec fn names(self) -> Seq<Seq<char>> {
        self.fields.keys()
    }

    /// Every field that was refused and has not answered since, in field order: how
    /// often in a row, whether it is off, and how long until it is tried again.
    pub fn snapshot(&self, now: Duration) -> (r: Vec<RefusedField>)
        ensures
            ordered::in_order(self.names()),
            forall|k: Seq<char>| #[trigger] self.names().contains(k) <==> self@.contains_key(k),
            r@.len() == self.names().len(),
            forall|i: int|
                0 <= i < r@.len() ==> tells_of(
                    #[trigger] r@[i],
                    self.names()[i],
                    self@[self.names()[i]],
                    now,
                ),
    {
        let n: usize = self.fields.len();
        let mut out: Vec<RefusedField> = Vec::new();
        let mut i: usize = 0;
        while i < n
            invariant
                n == self.names().len(),
                self.names() == self.fields.keys(),
                self@ == self.fields@,
                ordered::in_order(self.names()),
                forall|k: Seq<char>| #[trigger]
                    self.names().contains(k) <==> self@.contains_key(k),
                i <= n,
                out@.len() == i,
                forall|j: int|
                    0 <= j < i ==> tells_of(
                        #[trigger] out@[j],
                        self.names()[j],
                        self@[self.names()[j]],
                        now,
                    ),
            decreases n - i,
        {
            let entry: (&String, &Watched) = self.fields.at(i);
            let retry_in: Option<Duration> = match self.veto(entry.0.as_str(), now) {
                Some(wait) => wait,
                None => None,
            };
            out.push(
                RefusedField {
                    name: entry.0.clone(),
                    refusals: entry.1.refusals,
                    disabled: entry.1.off.is_some(),
                    retry_in,
                },
            );
            i = i + 1;
        }
        out
    }

    /// Whether a field may be asked for at `now`. One that the device's own
    /// configuration declines never is, and one that was refused too often is not
    /// until its time is up.
    pub fn admits(&self, declined: &Vec<String>, field: &str, now: Duration) -> (r: Result<
        (),
        DeviceError,
    >)
        ensures
            r is Ok <==> !text::views(declined@).contains(field@) && veto_of(
                known_of(self@, field@),
                now@,
            ) is None,
            r matches Err(e) ==> e matches DeviceError::Disabled { field: f, source, retry_in }
                && f@ == field@ && if text::views(declined@).contains(field@) {
                source == VetoSource::Declared && retry_in is None
            } else {
                source == VetoSource::Inferred && veto_view(Some(retry_in)) == veto_of(
                    known_of(self@, field@),
                    now@,
                )
            },
    {
        let ghost all = text::views(declined@);
        let mut i: usize = 0;
        while i < declined.len()
            invariant
                i <= declined.len(),
                all == text::views(declined@),
                forall|j: int| 0 <= j < i ==> #[trigger] all[j] != field@,
            decreases declined.len() - i,
        {
            if same(declined[i].as_str(), field) {
                proof {
                    assert(all[i as int] == field@);
                }
                return Err(
                    DeviceError::Disabled {
                        field: field.to_owned(),
                        source: VetoSource::Declared,
                        retry_in: None,
                    },
                );
            }
            i = i + 1;
        }
        match self.veto(field, now) {
            None => Ok(()),
            Some(retry_in) => Err(
                DeviceError::Disabled {
                    field: field.to_owned(),
                    source: VetoSource::Inferred,
                    retry_in,
                },
            ),
        }
    }
}

// ---- laws ------------------------------------------------------------------

/// What is known of a field after so many refusals in a row, from nothing.
pub open spec fn refused_times(
    n: nat,
    threshold: u32,
    self_heal: Option<Duration>,
    now: Duration,
) -> Option<Watched>
    decreases n,
{
    if n == 0 {
        None
    } else {
        Some(
            refused_again(
                refused_times((n - 1) as nat, threshold, self_heal, now),
                threshold,
                self_heal,
                now,
            ),
        )
    }
}

/// A field is off from the refusal on that reaches the threshold, and not before;
/// without a time to heal it stays off.
pub proof fn a_field_goes_off_at_the_threshold(
    n: nat,
    threshold: u32,
    self_heal: Option<Duration>,
    now: Duration,
    later: nat,
)
    requires
        0 < threshold,
        n <= u32::MAX,
    ensures
        n < threshold ==> veto_of(refused_times(n, threshold, self_heal, now), later) is None,
        n >= threshold && self_heal is None ==> veto_of(
            refused_times(n, threshold, self_heal, now),
            later,
        ) == Some(None::<nat>),
        n >= threshold && self_heal is Some && now@ <= later ==> (veto_of(
            refused_times(n, threshold, self_heal, now),
            later,
        ) is Some <==> later - now@ < self_heal->0@),
{
    refusals_are_counted(n, threshold, self_heal, now);
}

proof fn refusals_are_counted(
    n: nat,
    threshold: u32,
    self_heal: Option<Duration>,
    now: Duration,
)
    requires
        0 < threshold,
        n <= u32::MAX,
    ensures
        refused_times(n, threshold, self_heal, now) == if n == 0 {
            None
        } else {
            Some(
                Watched {
                    refusals: n as u32,
                    off: if n >= threshold {
                        Some(switched_off(self_heal, now))
                    } else {
                        None
                    },
                },
            )
        },
    decreases n,
{
    if n > 0 {
        refusals_are_counted((n - 1) as nat, threshold, self_heal, now);
    }
}

} // verus!
