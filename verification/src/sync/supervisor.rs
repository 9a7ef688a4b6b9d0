//! Holding the poll loops to the schedule and the fleet as both change.

use vstd::prelude::*;
use crate::ordered::OrderedMap;
use crate::sync::schedule::{
    change_of, declined_by, is_diff, moves_model, schedule_model, wanted_map, Change, FieldModel,
    FieldSchedule, Loops, Move, PolledDevice,
};
use crate::text;

verus! {

/// What happened that the loops may have to follow.
pub enum News {
    /// A schedule was published.
    Schedule(Vec<FieldSchedule>),
    /// The fleet changed.
    Fleet,
    /// No schedule will be published any more.
    NoMoreSchedules,
    /// No change of the fleet will be announced any more.
    NoMoreFleets,
}

/// The loops, and what they are held to.
pub struct Supervisor {
    pub schedule: Vec<FieldSchedule>,
    pub loops: Loops,
    /// Whether there is still anyone who could publish a schedule.
    pub watching_fields: bool,
    /// Whether there is still anyone who could announce a change of the fleet.
    pub watching_fleet: bool,
}

/// The fields of a schedule that have no interval.
pub open spec fn never_polled_in(schedule: Seq<FieldModel>) -> Seq<Seq<char>>
    decreases schedule.len(),
{
    if schedule.len() == 0 {
        Seq::empty()
    } else if schedule.last().interval is None {
        never_polled_in(schedule.drop_last()).push(schedule.last().name)
    } else {
        never_polled_in(schedule.drop_last())
    }
}

/// The fields of a schedule that are listed and never polled, in its order.
pub fn never_polled(schedule: &Vec<FieldSchedule>) -> (r: Vec<String>)
    ensures
        text::views(r@) == never_polled_in(schedule_model(schedule@)),
{
    let mut out: Vec<String> = Vec::new();
    let ghost full = schedule_model(schedule@);
    let mut i: usize = 0;
    proof {
        assert(text::views(out@) =~= never_polled_in(full.take(0)));
    }
    while i < schedule.len()
        invariant
            i <= schedule.len(),
            full == schedule_model(schedule@),
            text::views(out@) == never_polled_in(full.take(i as int)),
        decreases schedule.len() - i,
    {
        let ghost next = full.take(i + 1);
        let ghost before = out@;
        proof {
            assert(next.drop_last() =~= full.take(i as int));
            assert(next.last() == schedule@[i as int]@);
        }
        if schedule[i].interval.is_none() {
            out.push(schedule[i].name.clone());
            proof {
                assert(text::views(out@) =~= text::views(before).push(schedule@[i as int].name@));
            }
        }
        i = i + 1;
    }
    proof {
        assert(full.take(schedule@.len() as int) =~= full);
    }
    out
}

impl Supervisor {
    /// The loops of a first schedule.
    pub fn start(
        schedule: Vec<FieldSchedule>,
        fleet: &OrderedMap<PolledDevice>,
    ) -> (r: (Supervisor, Vec<Move>, Change))
        requires
            schedule@.len() * fleet.keys().len() <= usize::MAX,
        ensures
            r.0.schedule@ == schedule@,
            r.0.loops.running@ == wanted_map(schedule_model(schedule@), fleet@),
            r.0.watching_fields && r.0.watching_fleet,
            is_diff(
                moves_model(r.1@),
                Map::empty(),
                wanted_map(schedule_model(schedule@), fleet@),
            ),
            change_of(
                moves_model(r.1@),
                declined_by(schedule_model(schedule@), fleet.keys(), fleet@),
                r.2,
            ),
    {
        let mut loops: Loops = Loops::new();
        let (moves, change): (Vec<Move>, Change) = loops.reconcile(&schedule, fleet);
        (Supervisor { schedule, loops, watching_fields: true, watching_fleet: true }, moves, change)
    }

    /// Takes in the news, with the fleet as it stands. News that no more will
    /// come stops nothing: the loops run on as they are.
    pub fn hear(&mut self, news: News, fleet: &OrderedMap<PolledDevice>) -> (r: Option<
        (Vec<Move>, Change),
    >)
        requires
            news is Fleet ==> old(self).schedule@.len() * fleet.keys().len() <= usize::MAX,
            news matches News::Schedule(next) ==> next@.len() * fleet.keys().len() <= usize::MAX,
        ensures
            final(self).schedule@ == (match news {
                News::Schedule(next) => next@,
                _ => old(self).schedule@,
            }),
            final(self).watching_fields == (old(self).watching_fields && !(news
                is NoMoreSchedules)),
            final(self).watching_fleet == (old(self).watching_fleet && !(news is NoMoreFleets)),
            r is Some <==> news is Schedule || news is Fleet,
            r is None ==> final(self).loops == old(self).loops,
            r is Some ==> final(self).loops.running@ == wanted_map(
                schedule_model(final(self).schedule@),
                fleet@,
            ) && is_diff(
                moves_model((r->0).0@),
                old(self).loops.running@,
                final(self).loops.running@,
            ) && change_of(
                moves_model((r->0).0@),
                declined_by(schedule_model(final(self).schedule@), fleet.keys(), fleet@),
                (r->0).1,
            ),
    {
        match news {
            News::Schedule(next) => {
                self.schedule = next;
                Some(self.loops.reconcile(&self.schedule, fleet))
            },
            News::Fleet => Some(self.loops.reconcile(&self.schedule, fleet)),
            News::NoMoreSchedules => {
                self.watching_fields = false;
                None
            },
            News::NoMoreFleets => {
                self.watching_fleet = false;
                None
            },
        }
    }
}

} // verus!
