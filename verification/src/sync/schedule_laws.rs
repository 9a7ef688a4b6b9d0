//! What holds of the poll loops as the schedule and the fleet change.

use vstd::prelude::*;
use crate::sync::pairs::{looked_up, pair_irreflexive, pair_lt, Pair, Wanted};
use crate::sync::schedule::{
    action_for, change_of, declined_by, decliners, due, interval_for, is_diff, move_at, tally,
    wanted_map, wanted_of, Action, Change, FieldModel, Fleet, MoveModel, PolledModel,
};

verus! {

proof fn looked_up_wanted(schedule: Seq<FieldModel>, fleet: Fleet, p: Pair)
    ensures
        looked_up(wanted_map(schedule, fleet), p) == wanted_of(schedule, fleet, p),
{
}

/// What runs as it is wanted is left alone: a second pass over the same schedule
/// and fleet does nothing.
pub proof fn a_second_pass_moves_nothing(moves: Seq<MoveModel>, wanted: Map<Pair, Wanted>)
    requires
        is_diff(moves, wanted, wanted),
    ensures
        moves.len() == 0,
{
    if moves.len() > 0 {
        assert(moves[0] == move_at(wanted, wanted, moves[0].pair));
    }
}

/// Adding a device starts loops of that device alone, and does nothing else.
pub proof fn adding_a_device_starts_only_its_loops(
    moves: Seq<MoveModel>,
    schedule: Seq<FieldModel>,
    fleet: Fleet,
    id: Seq<char>,
    device: PolledModel,
    i: int,
)
    requires
        !fleet.contains_key(id),
        is_diff(
            moves,
            wanted_map(schedule, fleet),
            wanted_map(schedule, fleet.insert(id, device)),
        ),
        0 <= i < moves.len(),
    ensures
        moves[i].action == Action::Start,
        moves[i].pair.1 == id,
{
    let p = moves[i].pair;
    assert(moves[i] == move_at(
        wanted_map(schedule, fleet),
        wanted_map(schedule, fleet.insert(id, device)),
        p,
    ));
    looked_up_wanted(schedule, fleet, p);
    looked_up_wanted(schedule, fleet.insert(id, device), p);
}

/// Removing a device stops loops of that device alone, and does nothing else.
pub proof fn removing_a_device_stops_only_its_loops(
    moves: Seq<MoveModel>,
    schedule: Seq<FieldModel>,
    fleet: Fleet,
    id: Seq<char>,
    i: int,
)
    requires
        is_diff(moves, wanted_map(schedule, fleet), wanted_map(schedule, fleet.remove(id))),
        0 <= i < moves.len(),
    ensures
        moves[i].action == Action::Stop,
        moves[i].pair.1 == id,
{
    let p = moves[i].pair;
    assert(moves[i] == move_at(
        wanted_map(schedule, fleet),
        wanted_map(schedule, fleet.remove(id)),
        p,
    ));
    looked_up_wanted(schedule, fleet, p);
    looked_up_wanted(schedule, fleet.remove(id), p);
}

/// Replacing a device leaves no loop on the one that was replaced, even where the
/// interval stays as it was, and touches no other device.
pub proof fn a_replaced_device_is_rebound(
    schedule: Seq<FieldModel>,
    fleet: Fleet,
    id: Seq<char>,
    device: PolledModel,
    p: Pair,
)
    requires
        fleet.contains_key(id),
        fleet[id].uuid != device.uuid,
    ensures
        p.1 != id ==> due(
            wanted_map(schedule, fleet),
            wanted_map(schedule, fleet.insert(id, device)),
            p,
        ) == Action::Leave,
        p.1 == id && wanted_of(schedule, fleet, p) is Some ==> due(
            wanted_map(schedule, fleet),
            wanted_map(schedule, fleet.insert(id, device)),
            p,
        ) == (if device.disabled_fields.contains(p.0) {
            Action::Stop
        } else {
            Action::Rebind
        }),
{
    looked_up_wanted(schedule, fleet, p);
    looked_up_wanted(schedule, fleet.insert(id, device), p);
}

/// A schedule alone never rebinds a loop, and never touches a field whose
/// interval it leaves as it was.
pub proof fn a_new_schedule_only_retimes(
    before: Seq<FieldModel>,
    after: Seq<FieldModel>,
    fleet: Fleet,
    p: Pair,
)
    ensures
        due(wanted_map(before, fleet), wanted_map(after, fleet), p) != Action::Rebind,
        interval_for(before, p.0) == interval_for(after, p.0) ==> due(
            wanted_map(before, fleet),
            wanted_map(after, fleet),
            p,
        ) == Action::Leave,
{
    looked_up_wanted(before, fleet, p);
    looked_up_wanted(after, fleet, p);
}

/// A field that every entry sets to never has no loop anywhere.
pub proof fn a_field_set_to_never_has_no_loops(
    schedule: Seq<FieldModel>,
    fleet: Fleet,
    field: Seq<char>,
    device: Seq<char>,
)
    requires
        forall|i: int|
            0 <= i < schedule.len() && (#[trigger] schedule[i]).name == field ==> schedule[i].interval is None,
    ensures
        !wanted_map(schedule, fleet).contains_key((field, device)),
{
    never_has_no_interval(schedule, field);
}

proof fn never_has_no_interval(schedule: Seq<FieldModel>, field: Seq<char>)
    requires
        forall|i: int|
            0 <= i < schedule.len() && (#[trigger] schedule[i]).name == field ==> schedule[i].interval is None,
    ensures
        interval_for(schedule, field) is None,
    decreases schedule.len(),
{
    if schedule.len() > 0 {
        let shorter = schedule.drop_last();
        assert forall|i: int|
            0 <= i < shorter.len() && (#[trigger] shorter[i]).name == field implies shorter[i].interval is None by {
            assert(shorter[i] == schedule[i]);
        }
        never_has_no_interval(shorter, field);
        assert(schedule.last() == schedule[schedule.len() - 1]);
    }
}

/// A device is polled for no field that it declines, whatever the schedule says.
pub proof fn a_declined_field_is_never_polled(
    schedule: Seq<FieldModel>,
    fleet: Fleet,
    field: Seq<char>,
    device: Seq<char>,
)
    requires
        fleet.contains_key(device),
        fleet[device].disabled_fields.contains(field),
    ensures
        !wanted_map(schedule, fleet).contains_key((field, device)),
{
}

/// The moves of a pass, done to what is running, make it what is wanted: a pair
/// with no move is already as it should be.
pub proof fn the_moves_suffice(
    moves: Seq<MoveModel>,
    running: Map<Pair, Wanted>,
    wanted: Map<Pair, Wanted>,
    p: Pair,
)
    requires
        is_diff(moves, running, wanted),
        forall|i: int| 0 <= i < moves.len() ==> (#[trigger] moves[i]).pair != p,
    ensures
        looked_up(running, p) == looked_up(wanted, p),
{
    if due(running, wanted, p) != Action::Leave {
        let i = choose|i: int| 0 <= i < moves.len() && (#[trigger] moves[i]).pair == p;
        assert(moves[i].pair == p);
    }
    assert(action_for(looked_up(running, p), looked_up(wanted, p)) == Action::Leave);
}

// ---- counts ----------------------------------------------------------------

/// The pairs that moves of one kind are for.
spec fn pairs_of_kind(moves: Seq<MoveModel>, action: Action) -> Set<Pair> {
    Set::new(
        |p: Pair|
            exists|i: int|
                0 <= i < moves.len() && (#[trigger] moves[i]).pair == p && moves[i].action
                    == action,
    )
}

/// Moves of one kind are as many as the pairs that they are for.
proof fn kinds_are_counted(moves: Seq<MoveModel>, action: Action)
    requires
        forall|i: int, j: int|
            0 <= i < j < moves.len() ==> pair_lt(
                (#[trigger] moves[i]).pair,
                (#[trigger] moves[j]).pair,
            ),
    ensures
        pairs_of_kind(moves, action).finite(),
        pairs_of_kind(moves, action).len() == tally(moves, action),
    decreases moves.len(),
{
    let all = pairs_of_kind(moves, action);
    if moves.len() == 0 {
        assert(all =~= Set::<Pair>::empty());
    } else {
        let rest = moves.drop_last();
        let last = moves.last();
        assert forall|i: int, j: int| 0 <= i < j < rest.len() implies pair_lt(
            (#[trigger] rest[i]).pair,
            (#[trigger] rest[j]).pair,
        ) by {
            assert(pair_lt(moves[i].pair, moves[j].pair));
        }
        kinds_are_counted(rest, action);
        let some = pairs_of_kind(rest, action);
        assert forall|p: Pair| some.contains(p) implies all.contains(p) by {
            let i = choose|i: int|
                0 <= i < rest.len() && (#[trigger] rest[i]).pair == p && rest[i].action == action;
            assert(moves[i].pair == p && moves[i].action == action);
        }
        assert forall|p: Pair| all.contains(p) implies some.contains(p) || (p == last.pair
            && last.action == action) by {
            let i = choose|i: int|
                0 <= i < moves.len() && (#[trigger] moves[i]).pair == p && moves[i].action
                    == action;
            if i < rest.len() {
                assert(rest[i].pair == p && rest[i].action == action);
            }
        }
        if last.action == action {
            assert(moves[moves.len() - 1].pair == last.pair);
            assert(!some.contains(last.pair)) by {
                if some.contains(last.pair) {
                    let i = choose|i: int|
                        0 <= i < rest.len() && (#[trigger] rest[i]).pair == last.pair
                            && rest[i].action == action;
                    assert(pair_lt(moves[i].pair, moves[moves.len() - 1].pair));
                    pair_irreflexive(last.pair);
                }
            }
            assert(all =~= some.insert(last.pair));
        } else {
            assert(all =~= some);
        }
    }
}

proof fn due_pairs_are_counted(
    moves: Seq<MoveModel>,
    running: Map<Pair, Wanted>,
    wanted: Map<Pair, Wanted>,
    action: Action,
    pairs: Set<Pair>,
)
    requires
        is_diff(moves, running, wanted),
        action != Action::Leave,
        forall|p: Pair| #[trigger] pairs.contains(p) <==> due(running, wanted, p) == action,
    ensures
        pairs.finite(),
        pairs.len() == tally(moves, action),
{
    assert forall|p: Pair| #[trigger] pairs_of_kind(moves, action).contains(p) <==> pairs.contains(
        p,
    ) by {
        if pairs_of_kind(moves, action).contains(p) {
            let i = choose|i: int|
                0 <= i < moves.len() && (#[trigger] moves[i]).pair == p && moves[i].action
                    == action;
            assert(moves[i] == move_at(running, wanted, p));
        }
        if due(running, wanted, p) == action {
            let i = choose|i: int| 0 <= i < moves.len() && (#[trigger] moves[i]).pair == p;
            assert(moves[i] == move_at(running, wanted, p));
        }
    }
    assert(pairs_of_kind(moves, action) =~= pairs);
    kinds_are_counted(moves, action);
}

/// The pairs that are wanted and not running.
#[verifier::opaque]
pub open spec fn unstarted(running: Map<Pair, Wanted>, wanted: Map<Pair, Wanted>) -> Set<Pair> {
    Set::new(|p: Pair| wanted.contains_key(p) && !running.contains_key(p))
}

/// The pairs that are running and not wanted.
#[verifier::opaque]
pub open spec fn unwanted(running: Map<Pair, Wanted>, wanted: Map<Pair, Wanted>) -> Set<Pair> {
    Set::new(|p: Pair| running.contains_key(p) && !wanted.contains_key(p))
}

/// The pairs that run on another device than the one that is wanted.
#[verifier::opaque]
pub open spec fn on_another_device(running: Map<Pair, Wanted>, wanted: Map<Pair, Wanted>) -> Set<
    Pair,
> {
    Set::new(
        |p: Pair|
            running.contains_key(p) && wanted.contains_key(p) && running[p].device
                != wanted[p].device,
    )
}

/// The pairs that run on the device that is wanted, at another interval.
#[verifier::opaque]
pub open spec fn at_another_interval(running: Map<Pair, Wanted>, wanted: Map<Pair, Wanted>) -> Set<
    Pair,
> {
    Set::new(
        |p: Pair|
            running.contains_key(p) && wanted.contains_key(p) && running[p].device
                == wanted[p].device && running[p].interval != wanted[p].interval,
    )
}

proof fn due_as_stated(running: Map<Pair, Wanted>, wanted: Map<Pair, Wanted>)
    ensures
        forall|p: Pair| #[trigger]
            unstarted(running, wanted).contains(p) <==> due(running, wanted, p) == Action::Start,
        forall|p: Pair| #[trigger]
            unwanted(running, wanted).contains(p) <==> due(running, wanted, p) == Action::Stop,
        forall|p: Pair| #[trigger]
            on_another_device(running, wanted).contains(p) <==> due(running, wanted, p)
                == Action::Rebind,
        forall|p: Pair| #[trigger]
            at_another_interval(running, wanted).contains(p) <==> due(running, wanted, p)
                == Action::Retime,
{
    reveal(unstarted);
    reveal(unwanted);
    reveal(on_another_device);
    reveal(at_another_interval);
}

/// The numbers of a pass are true: it started the pairs that were wanted and not
/// running, stopped those that were running and not wanted, rebound those that ran
/// on another device, retimed those that ran on the same device at another
/// interval, and touched no other pair.
pub proof fn a_pass_reports_what_it_did(
    moves: Seq<MoveModel>,
    running: Map<Pair, Wanted>,
    wanted: Map<Pair, Wanted>,
    declined: nat,
    change: Change,
)
    requires
        is_diff(moves, running, wanted),
        change_of(moves, declined, change),
    ensures
        unstarted(running, wanted).finite(),
        change.started == unstarted(running, wanted).len(),
        unwanted(running, wanted).finite(),
        change.stopped == unwanted(running, wanted).len(),
        on_another_device(running, wanted).finite(),
        change.rebound == on_another_device(running, wanted).len(),
        at_another_interval(running, wanted).finite(),
        change.retimed == at_another_interval(running, wanted).len(),
        change.started + change.stopped + change.rebound + change.retimed == moves.len(),
{
    due_as_stated(running, wanted);
    due_pairs_are_counted(moves, running, wanted, Action::Start, unstarted(running, wanted));
    due_pairs_are_counted(moves, running, wanted, Action::Stop, unwanted(running, wanted));
    due_pairs_are_counted(
        moves,
        running,
        wanted,
        Action::Rebind,
        on_another_device(running, wanted),
    );
    due_pairs_are_counted(
        moves,
        running,
        wanted,
        Action::Retime,
        at_another_interval(running, wanted),
    );
    every_move_is_counted(moves);
}

proof fn every_move_is_counted(moves: Seq<MoveModel>)
    requires
        forall|i: int| 0 <= i < moves.len() ==> (#[trigger] moves[i]).action != Action::Leave,
    ensures
        tally(moves, Action::Start) + tally(moves, Action::Stop) + tally(moves, Action::Rebind)
            + tally(moves, Action::Retime) == moves.len(),
    decreases moves.len(),
{
    if moves.len() > 0 {
        let rest = moves.drop_last();
        assert forall|i: int| 0 <= i < rest.len() implies (#[trigger] rest[i]).action
            != Action::Leave by {
            assert(rest[i] == moves[i]);
        }
        every_move_is_counted(rest);
        assert(moves[moves.len() - 1].action != Action::Leave);
    }
}

/// The pairs that a schedule gives an interval and a device declines.
pub open spec fn declined_pairs(
    schedule: Seq<FieldModel>,
    ids: Seq<Seq<char>>,
    fleet: Fleet,
) -> Set<Pair> {
    Set::new(
        |p: Pair|
            interval_for(schedule, p.0) is Some && ids.contains(p.1)
                && fleet[p.1].disabled_fields.contains(p.0),
    )
}

/// The devices that decline a field, as pairs.
spec fn declining(ids: Seq<Seq<char>>, fleet: Fleet, field: Seq<char>) -> Set<Pair> {
    Set::new(
        |p: Pair| p.0 == field && ids.contains(p.1) && fleet[p.1].disabled_fields.contains(field),
    )
}

proof fn decliners_are_counted(ids: Seq<Seq<char>>, fleet: Fleet, field: Seq<char>)
    requires
        ids.no_duplicates(),
    ensures
        declining(ids, fleet, field).finite(),
        declining(ids, fleet, field).len() == decliners(ids, fleet, field),
    decreases ids.len(),
{
    let all = declining(ids, fleet, field);
    if ids.len() == 0 {
        assert(all =~= Set::<Pair>::empty());
    } else {
        let rest = ids.drop_last();
        let last = ids.last();
        assert forall|i: int, j: int| 0 <= i < rest.len() && 0 <= j < rest.len() && i != j implies rest[i]
            != rest[j] by {
            assert(ids[i] != ids[j]);
        }
        decliners_are_counted(rest, fleet, field);
        let some = declining(rest, fleet, field);
        assert forall|x: Seq<char>| #[trigger] ids.contains(x) <==> rest.contains(x) || x == last by {
            if ids.contains(x) && x != last {
                let i = choose|i: int| 0 <= i < ids.len() && ids[i] == x;
                assert(rest[i] == x);
            }
            if rest.contains(x) {
                let i = choose|i: int| 0 <= i < rest.len() && rest[i] == x;
                assert(ids[i] == x);
            }
            assert(ids[ids.len() - 1] == last);
        }
        assert(!rest.contains(last)) by {
            if rest.contains(last) {
                let i = choose|i: int| 0 <= i < rest.len() && rest[i] == last;
                assert(ids[i] == ids[ids.len() - 1]);
            }
        }
        if fleet[last].disabled_fields.contains(field) {
            assert(all =~= some.insert((field, last)));
        } else {
            assert(all =~= some);
        }
    }
}

/// The number of declined pairs is true: it counts the pairs that have an interval
/// and a device that declines them, and no others.
pub proof fn declined_pairs_are_counted(
    schedule: Seq<FieldModel>,
    ids: Seq<Seq<char>>,
    fleet: Fleet,
)
    requires
        ids.no_duplicates(),
    ensures
        declined_pairs(schedule, ids, fleet).finite(),
        declined_pairs(schedule, ids, fleet).len() == declined_by(schedule, ids, fleet),
    decreases schedule.len(),
{
    let all = declined_pairs(schedule, ids, fleet);
    if schedule.len() == 0 {
        assert(all =~= Set::<Pair>::empty());
    } else {
        let rest = schedule.drop_last();
        let last = schedule.last();
        declined_pairs_are_counted(rest, ids, fleet);
        let some = declined_pairs(rest, ids, fleet);
        if last.interval is Some && interval_for(rest, last.name) is None {
            decliners_are_counted(ids, fleet, last.name);
            let more = declining(ids, fleet, last.name);
            assert(all =~= some.union(more));
            assert(some.disjoint(more));
            vstd::set_lib::lemma_set_disjoint_lens(some, more);
        } else {
            assert(all =~= some);
        }
    }
}

} // verus!
