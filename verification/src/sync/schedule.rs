//! Which poll loops should be running, and what has to change for them to be.

use vstd::prelude::*;
use vstd::string::*;
use crate::ordered::OrderedMap;
use crate::retention::Level;
use crate::sync::pairs::{
    looked_up, pair_less, pair_lt, pair_total, pair_transitive, pairs_in_order, Pair, PairEntry,
    PairTable, Wanted,
};
use crate::text;
use crate::text::same;
use crate::time::Duration;

verus! {

/// One field's polling schedule: what to ask for, and how often.
#[derive(Debug, PartialEq, Eq)]
pub struct FieldSchedule {
    pub name: String,
    /// The time between polls of the field on a device, or nothing for never.
    pub interval: Option<Duration>,
}

pub struct FieldModel {
    pub name: Seq<char>,
    pub interval: Option<Duration>,
}

impl View for FieldSchedule {
    type V = FieldModel;

    open spec fn view(&self) -> FieldModel {
        FieldModel { name: self.name@, interval: self.interval }
    }
}

impl Clone for FieldSchedule {
    fn clone(&self) -> (r: Self)
        ensures
            r == *self,
    {
        FieldSchedule { name: self.name.clone(), interval: self.interval }
    }
}

pub open spec fn schedule_model(schedule: Seq<FieldSchedule>) -> Seq<FieldModel> {
    schedule.map_values(|f: FieldSchedule| f@)
}

/// What the schedule needs to know of a device.
#[derive(Debug, PartialEq, Eq)]
pub struct PolledDevice {
    /// The identity of the device's configuration.
    pub uuid: u128,
    /// The fields the device declines.
    pub disabled_fields: Vec<String>,
}

pub struct PolledModel {
    pub uuid: u128,
    pub disabled_fields: Set<Seq<char>>,
}

impl View for PolledDevice {
    type V = PolledModel;

    open spec fn view(&self) -> PolledModel {
        PolledModel {
            uuid: self.uuid,
            disabled_fields: text::views(self.disabled_fields@).to_set(),
        }
    }
}

impl PolledDevice {
    /// Whether the device declines a field.
    pub fn declines(&self, field: &str) -> (r: bool)
        ensures
            r == self@.disabled_fields.contains(field@),
    {
        let mut i: usize = 0;
        while i < self.disabled_fields.len()
            invariant
                i <= self.disabled_fields.len(),
                forall|j: int| 0 <= j < i ==> #[trigger] text::views(self.disabled_fields@)[j] != field@,
            decreases self.disabled_fields.len() - i,
        {
            if same(self.disabled_fields[i].as_str(), field) {
                proof {
                    assert(text::views(self.disabled_fields@)[i as int] == field@);
                    assert(text::views(self.disabled_fields@).contains(field@));
                }
                return true;
            }
            i = i + 1;
        }
        false
    }
}

/// The fleet as the schedule sees it, by device id.
pub type Fleet = Map<Seq<char>, PolledModel>;

// ---- which loops should run ------------------------------------------------

/// The interval that a schedule sets for a field: that of its last entry with
/// one.
pub open spec fn interval_for(schedule: Seq<FieldModel>, field: Seq<char>) -> Option<Duration>
    decreases schedule.len(),
{
    if schedule.len() == 0 {
        None
    } else if schedule.last().name == field && schedule.last().interval is Some {
        schedule.last().interval
    } else {
        interval_for(schedule.drop_last(), field)
    }
}

/// What a pair should be running: its field is scheduled, its device is in the
/// fleet, and the device does not decline the field.
pub open spec fn wanted_of(schedule: Seq<FieldModel>, fleet: Fleet, pair: Pair) -> Option<Wanted> {
    if fleet.contains_key(pair.1) && !fleet[pair.1].disabled_fields.contains(pair.0) {
        match interval_for(schedule, pair.0) {
            Some(interval) => Some(Wanted { interval, device: fleet[pair.1].uuid }),
            None => None,
        }
    } else {
        None
    }
}

/// Every pair that should have a loop.
pub open spec fn wanted_map(schedule: Seq<FieldModel>, fleet: Fleet) -> Map<Pair, Wanted> {
    Map::new(
        |p: Pair| wanted_of(schedule, fleet, p) is Some,
        |p: Pair| wanted_of(schedule, fleet, p)->0,
    )
}

/// How many of these devices decline a field.
pub open spec fn decliners(ids: Seq<Seq<char>>, fleet: Fleet, field: Seq<char>) -> nat
    decreases ids.len(),
{
    if ids.len() == 0 {
        0
    } else {
        decliners(ids.drop_last(), fleet, field) + (if fleet[ids.last()].disabled_fields.contains(
            field,
        ) {
            1nat
        } else {
            0nat
        })
    }
}

/// How many pairs the schedule gives an interval and a device declines, each pair
/// once however often the schedule names its field.
pub open spec fn declined_by(
    schedule: Seq<FieldModel>,
    ids: Seq<Seq<char>>,
    fleet: Fleet,
) -> nat
    decreases schedule.len(),
{
    if schedule.len() == 0 {
        0
    } else {
        declined_by(schedule.drop_last(), ids, fleet) + (if schedule.last().interval is Some
            && interval_for(schedule.drop_last(), schedule.last().name) is None {
            decliners(ids, fleet, schedule.last().name)
        } else {
            0nat
        })
    }
}

proof fn decliners_bound(ids: Seq<Seq<char>>, fleet: Fleet, field: Seq<char>)
    ensures
        decliners(ids, fleet, field) <= ids.len(),
    decreases ids.len(),
{
    if ids.len() > 0 {
        decliners_bound(ids.drop_last(), fleet, field);
    }
}

/// What part of the wanted pairs of the last entry is there, once the first `n`
/// devices have been gone through.
spec fn partly(
    schedule: Seq<FieldModel>,
    ids: Seq<Seq<char>>,
    fleet: Fleet,
    n: int,
    pair: Pair,
) -> Option<Wanted> {
    if ids.take(n).contains(pair.1) {
        wanted_of(schedule, fleet, pair)
    } else {
        wanted_of(schedule.drop_last(), fleet, pair)
    }
}

/// Whether an earlier entry gives an interval to the field of entry `n`.
fn scheduled_before(schedule: &Vec<FieldSchedule>, n: usize) -> (r: bool)
    requires
        n < schedule.len(),
    ensures
        r == (interval_for(schedule_model(schedule@).take(n as int), schedule@[n as int].name@) is Some),
{
    let ghost full = schedule_model(schedule@);
    let ghost field = schedule@[n as int].name@;
    let mut i: usize = 0;
    let mut found: bool = false;
    while i < n
        invariant
            i <= n,
            n < schedule.len(),
            full == schedule_model(schedule@),
            field == schedule@[n as int].name@,
            found == (interval_for(full.take(i as int), field) is Some),
        decreases n - i,
    {
        proof {
            assert(full.take(i + 1).drop_last() =~= full.take(i as int));
            assert(full.take(i + 1).last() == schedule@[i as int]@);
        }
        if schedule[i].interval.is_some() && same(
            schedule[i].name.as_str(),
            schedule[n].name.as_str(),
        ) {
            found = true;
        }
        i = i + 1;
    }
    found
}

/// Every pair of a field and a device that should have a loop, and how many the
/// devices declined.
pub fn wanted_loops(
    schedule: &Vec<FieldSchedule>,
    fleet: &OrderedMap<PolledDevice>,
) -> (r: (PairTable, usize))
    requires
        schedule@.len() * fleet.keys().len() <= usize::MAX,
    ensures
        r.0@ == wanted_map(schedule_model(schedule@), fleet@),
        r.1 == declined_by(schedule_model(schedule@), fleet.keys(), fleet@),
{
    let mut wanted: PairTable = PairTable::new();
    let mut declined: usize = 0;
    let count: usize = fleet.len();
    let ghost full = schedule_model(schedule@);
    let ghost ids = fleet.keys();
    let mut i: usize = 0;
    proof {
        assert(wanted@ =~= wanted_map(full.take(0), fleet@));
    }
    while i < schedule.len()
        invariant
            i <= schedule.len(),
            full == schedule_model(schedule@),
            ids == fleet.keys(),
            count == ids.len(),
            schedule@.len() * ids.len() <= usize::MAX,
            forall|k: Seq<char>| #[trigger] fleet@.contains_key(k) <==> ids.contains(k),
            wanted@ == wanted_map(full.take(i as int), fleet@),
            declined == declined_by(full.take(i as int), ids, fleet@),
            declined <= i * count,
        decreases schedule.len() - i,
    {
        let ghost now = full.take(i + 1);
        proof {
            assert(now.drop_last() =~= full.take(i as int));
            assert(now.last() == schedule@[i as int]@);
        }
        match schedule[i].interval {
            None => {
                proof {
                    assert(wanted@ =~= wanted_map(now, fleet@));
                }
            },
            Some(interval) => {
                let ghost field = schedule@[i as int].name@;
                let first: bool = !scheduled_before(schedule, i);
                let mut n: usize = 0;
                proof {
                    assert(ids.take(0) =~= Seq::<Seq<char>>::empty());
                    assert forall|p: Pair| looked_up(wanted@, p) == #[trigger] partly(now, ids, fleet@, 0, p) by {}
                }
                while n < count
                    invariant
                        n <= count,
                        i < schedule.len(),
                        schedule[i as int].interval == Some(interval),
                        field == schedule@[i as int].name@,
                        ids == fleet.keys(),
                        count == ids.len(),
                        now.len() == i + 1,
                        now.last() == schedule@[i as int]@,
                        schedule@.len() * ids.len() <= usize::MAX,
                        declined == declined_by(now.drop_last(), ids, fleet@) + (if first {
                            decliners(ids.take(n as int), fleet@, field)
                        } else {
                            0
                        }),
                        declined <= i * count + n,
                        forall|p: Pair|
                            looked_up(wanted@, p) == #[trigger] partly(now, ids, fleet@, n as int, p),
                    decreases count - n,
                {
                    let ghost before = wanted@;
                    let entry: (&String, &PolledDevice) = fleet.at(n);
                    let ghost id = ids[n as int];
                    proof {
                        assert(i * count + count <= schedule@.len() * ids.len()) by (nonlinear_arith)
                            requires
                                i + 1 <= schedule@.len(),
                                count == ids.len(),
                        ;
                        let seen = ids.take(n + 1);
                        assert(seen.drop_last() =~= ids.take(n as int));
                        assert(seen.last() == id);
                        assert forall|d: Seq<char>| #[trigger] seen.contains(d) <==> d == id || ids.take(
                            n as int,
                        ).contains(d) by {
                            if ids.take(n as int).contains(d) {
                                let x = choose|x: int|
                                    0 <= x < ids.take(n as int).len() && ids.take(n as int)[x] == d;
                                assert(seen[x] == d);
                            }
                            if seen.contains(d) {
                                let x = choose|x: int| 0 <= x < seen.len() && seen[x] == d;
                                if x < n {
                                    assert(ids.take(n as int)[x] == d);
                                }
                            }
                            if d == id {
                                assert(seen[n as int] == d);
                            }
                        }
                    }
                    if entry.1.declines(schedule[i].name.as_str()) {
                        if first {
                            declined = declined + 1;
                        }
                        proof {
                            assert forall|p: Pair| looked_up(wanted@, p) == #[trigger] partly(
                                now,
                                ids,
                                fleet@,
                                n + 1,
                                p,
                            ) by {
                                assert(looked_up(before, p) == partly(now, ids, fleet@, n as int, p));
                                assert(ids.take(n + 1).contains(p.1) <==> p.1 == id || ids.take(
                                    n as int,
                                ).contains(p.1));
                            }
                        }
                    } else {
                        wanted.insert(
                            schedule[i].name.clone(),
                            entry.0.clone(),
                            Wanted { interval, device: entry.1.uuid },
                        );
                        proof {
                            assert forall|p: Pair| looked_up(wanted@, p) == #[trigger] partly(
                                now,
                                ids,
                                fleet@,
                                n + 1,
                                p,
                            ) by {
                                assert(looked_up(before, p) == partly(now, ids, fleet@, n as int, p));
                                assert(ids.take(n + 1).contains(p.1) <==> p.1 == id || ids.take(
                                    n as int,
                                ).contains(p.1));
                            }
                        }
                    }
                    n = n + 1;
                }
                proof {
                    assert(ids.take(count as int) =~= ids);
                    assert forall|p: Pair| looked_up(wanted@, p) == #[trigger] wanted_of(now, fleet@, p) by {
                        assert(looked_up(wanted@, p) == partly(now, ids, fleet@, count as int, p));
                        assert(fleet@.contains_key(p.1) <==> ids.contains(p.1));
                    }
                    assert(wanted@ =~= wanted_map(now, fleet@)) by {
                        assert forall|p: Pair| #[trigger] wanted@.contains_key(p) <==> wanted_map(
                            now,
                            fleet@,
                        ).contains_key(p) by {
                            assert(looked_up(wanted@, p) == wanted_of(now, fleet@, p));
                        }
                        assert forall|p: Pair| wanted@.contains_key(p) implies #[trigger] wanted@[p]
                            == wanted_map(now, fleet@)[p] by {
                            assert(looked_up(wanted@, p) == wanted_of(now, fleet@, p));
                        }
                    }
                    assert((i + 1) * count == i * count + count) by (nonlinear_arith);
                }
            },
        }
        proof {
            assert(i * count <= (i + 1) * count) by (nonlinear_arith)
                requires
                    count >= 0,
            ;
        }
        i = i + 1;
    }
    proof {
        assert(full.take(schedule@.len() as int) =~= full);
    }
    (wanted, declined)
}

// ---- what has to change ----------------------------------------------------

/// What the wanted state means for the loop that may be running a pair.
#[derive(Debug, Clone, Copy, PartialEq, Eq, Structural)]
pub enum Action {
    /// Nothing to do.
    Leave,
    /// Not running, and wanted.
    Start,
    /// Running, and no longer wanted.
    Stop,
    /// Running on the right device at the wrong interval.
    Retime,
    /// Running on a device that was replaced.
    Rebind,
}

pub open spec fn action_for(running: Option<Wanted>, wanted: Option<Wanted>) -> Action {
    match (running, wanted) {
        (None, None) => Action::Leave,
        (None, Some(_)) => Action::Start,
        (Some(_), None) => Action::Stop,
        (Some(now), Some(next)) => if now.device != next.device {
            Action::Rebind
        } else if now.interval == next.interval {
            Action::Leave
        } else {
            Action::Retime
        },
    }
}

/// What has to be done for a pair that is running so, and is wanted so.
pub fn act(running: Option<Wanted>, wanted: Option<Wanted>) -> (r: Action)
    ensures
        r == action_for(running, wanted),
{
    broadcast use crate::time::duration_ext;

    match (running, wanted) {
        (None, None) => Action::Leave,
        (None, Some(_)) => Action::Start,
        (Some(_), None) => Action::Stop,
        (Some(now), Some(next)) => {
            if now.device != next.device {
                Action::Rebind
            } else if now.interval.same_as(&next.interval) {
                Action::Leave
            } else {
                Action::Retime
            }
        },
    }
}

/// One thing to do for one pair.
#[derive(Debug, PartialEq, Eq)]
pub struct Move {
    pub field: String,
    pub device: String,
    pub action: Action,
    /// What is wanted of the pair, where anything is.
    pub wanted: Option<Wanted>,
}

pub struct MoveModel {
    pub pair: Pair,
    pub action: Action,
    pub wanted: Option<Wanted>,
}

impl View for Move {
    type V = MoveModel;

    open spec fn view(&self) -> MoveModel {
        MoveModel { pair: (self.field@, self.device@), action: self.action, wanted: self.wanted }
    }
}

pub open spec fn moves_model(moves: Seq<Move>) -> Seq<MoveModel> {
    moves.map_values(|m: Move| m@)
}

/// What has to be done for a pair.
pub open spec fn due(running: Map<Pair, Wanted>, wanted: Map<Pair, Wanted>, pair: Pair) -> Action {
    action_for(looked_up(running, pair), looked_up(wanted, pair))
}

pub open spec fn move_at(
    running: Map<Pair, Wanted>,
    wanted: Map<Pair, Wanted>,
    pair: Pair,
) -> MoveModel {
    MoveModel { pair, action: due(running, wanted, pair), wanted: looked_up(wanted, pair) }
}

/// These moves, and no others, turn what is running into what is wanted: one for
/// each pair with anything to do, in the order of the pairs.
pub open spec fn is_diff(
    moves: Seq<MoveModel>,
    running: Map<Pair, Wanted>,
    wanted: Map<Pair, Wanted>,
) -> bool {
    &&& forall|i: int, j: int|
        0 <= i < j < moves.len() ==> pair_lt((#[trigger] moves[i]).pair, (#[trigger] moves[j]).pair)
    &&& forall|i: int|
        0 <= i < moves.len() ==> #[trigger] moves[i] == move_at(running, wanted, moves[i].pair)
            && moves[i].action != Action::Leave
    &&& forall|p: Pair| #[trigger]
        due(running, wanted, p) != Action::Leave ==> exists|i: int|
            0 <= i < moves.len() && (#[trigger] moves[i]).pair == p
}

/// What a merge has done once it is through the first pairs of either table.
#[verifier::opaque]
spec fn merged(
    moves: Seq<MoveModel>,
    running: Map<Pair, Wanted>,
    wanted: Map<Pair, Wanted>,
    a: Seq<Pair>,
    b: Seq<Pair>,
    i: int,
    j: int,
) -> bool {
    &&& forall|x: int, y: int|
        0 <= x < y < moves.len() ==> pair_lt((#[trigger] moves[x]).pair, (#[trigger] moves[y]).pair)
    &&& forall|x: int|
        0 <= x < moves.len() ==> #[trigger] moves[x] == move_at(running, wanted, moves[x].pair)
            && moves[x].action != Action::Leave
    &&& forall|x: int, y: int|
        0 <= x < moves.len() && i <= y < a.len() ==> pair_lt((#[trigger] moves[x]).pair, #[trigger] a[y])
    &&& forall|x: int, y: int|
        0 <= x < moves.len() && j <= y < b.len() ==> pair_lt((#[trigger] moves[x]).pair, #[trigger] b[y])
    &&& forall|x: int|
        0 <= x < i && due(running, wanted, #[trigger] a[x]) != Action::Leave ==> exists|y: int|
            0 <= y < moves.len() && (#[trigger] moves[y]).pair == a[x]
    &&& forall|x: int|
        0 <= x < j && due(running, wanted, #[trigger] b[x]) != Action::Leave ==> exists|y: int|
            0 <= y < moves.len() && (#[trigger] moves[y]).pair == b[x]
}

/// One more pair, the least of those left on either side.
proof fn merge_step(
    moves: Seq<MoveModel>,
    after: Seq<MoveModel>,
    running: Map<Pair, Wanted>,
    wanted: Map<Pair, Wanted>,
    a: Seq<Pair>,
    b: Seq<Pair>,
    i: int,
    j: int,
    i2: int,
    j2: int,
    p: Pair,
)
    requires
        pairs_in_order(a),
        pairs_in_order(b),
        0 <= i <= i2 <= a.len(),
        0 <= j <= j2 <= b.len(),
        merged(moves, running, wanted, a, b, i, j),
        i2 == i || (i2 == i + 1 && a[i] == p),
        j2 == j || (j2 == j + 1 && b[j] == p),
        i2 == i + 1 || j2 == j + 1,
        i2 < a.len() ==> pair_lt(p, a[i2]),
        j2 < b.len() ==> pair_lt(p, b[j2]),
        due(running, wanted, p) == Action::Leave ==> after == moves,
        due(running, wanted, p) != Action::Leave ==> after == moves.push(
            move_at(running, wanted, p),
        ),
    ensures
        merged(after, running, wanted, a, b, i2, j2),
{
    reveal(merged);
    assert forall|x: int| 0 <= x < moves.len() implies pair_lt((#[trigger] moves[x]).pair, p) by {
        if i2 == i + 1 {
            assert(pair_lt(moves[x].pair, a[i]));
        } else {
            assert(pair_lt(moves[x].pair, b[j]));
        }
    }
    assert forall|y: int| i2 <= y < a.len() implies pair_lt(p, #[trigger] a[y]) by {
        if y > i2 {
            assert(pair_lt(a[i2], a[y]));
            pair_transitive(p, a[i2], a[y]);
        }
    }
    assert forall|y: int| j2 <= y < b.len() implies pair_lt(p, #[trigger] b[y]) by {
        if y > j2 {
            assert(pair_lt(b[j2], b[y]));
            pair_transitive(p, b[j2], b[y]);
        }
    }
    assert forall|x: int|
        0 <= x < i2 && due(running, wanted, #[trigger] a[x]) != Action::Leave implies exists|y: int|
        0 <= y < after.len() && (#[trigger] after[y]).pair == a[x] by {
        if x < i {
            let y = choose|y: int| 0 <= y < moves.len() && (#[trigger] moves[y]).pair == a[x];
            assert(after[y] == moves[y]);
        } else {
            assert(after[after.len() - 1].pair == p);
        }
    }
    assert forall|x: int|
        0 <= x < j2 && due(running, wanted, #[trigger] b[x]) != Action::Leave implies exists|y: int|
        0 <= y < after.len() && (#[trigger] after[y]).pair == b[x] by {
        if x < j {
            let y = choose|y: int| 0 <= y < moves.len() && (#[trigger] moves[y]).pair == b[x];
            assert(after[y] == moves[y]);
        } else {
            assert(after[after.len() - 1].pair == p);
        }
    }
}

proof fn merge_start(
    running: Map<Pair, Wanted>,
    wanted: Map<Pair, Wanted>,
    a: Seq<Pair>,
    b: Seq<Pair>,
)
    ensures
        merged(Seq::empty(), running, wanted, a, b, 0, 0),
{
    reveal(merged);
}

proof fn merge_end(
    moves: Seq<MoveModel>,
    running: Map<Pair, Wanted>,
    wanted: Map<Pair, Wanted>,
    a: Seq<Pair>,
    b: Seq<Pair>,
)
    requires
        merged(moves, running, wanted, a, b, a.len() as int, b.len() as int),
        forall|p: Pair| #[trigger] running.contains_key(p) <==> a.contains(p),
        forall|p: Pair| #[trigger] wanted.contains_key(p) <==> b.contains(p),
    ensures
        is_diff(moves, running, wanted),
{
    reveal(merged);
    assert forall|p: Pair| #[trigger] due(running, wanted, p) != Action::Leave implies exists|x: int|
        0 <= x < moves.len() && (#[trigger] moves[x]).pair == p by {
        if running.contains_key(p) {
            let x = choose|x: int| 0 <= x < a.len() && a[x] == p;
            assert(due(running, wanted, a[x]) != Action::Leave);
        } else {
            assert(wanted.contains_key(p));
            let x = choose|x: int| 0 <= x < b.len() && b[x] == p;
            assert(due(running, wanted, b[x]) != Action::Leave);
        }
    }
}

/// Which of the next pairs of two tables in order comes first: the pair of the
/// first, of the second, or the same pair of both.
#[derive(Debug, Clone, Copy, PartialEq, Eq, Structural)]
enum Head {
    First,
    Second,
    Both,
}

fn head(a: &PairTable, i: usize, b: &PairTable, j: usize) -> (r: Head)
    requires
        i <= a.pairs().len(),
        j <= b.pairs().len(),
        i < a.pairs().len() || j < b.pairs().len(),
    ensures
        r != Head::Second ==> i < a.pairs().len(),
        r != Head::First ==> j < b.pairs().len(),
        r == Head::First && j < b.pairs().len() ==> pair_lt(
            a.pairs()[i as int],
            b.pairs()[j as int],
        ),
        r == Head::Second && i < a.pairs().len() ==> pair_lt(
            b.pairs()[j as int],
            a.pairs()[i as int],
        ),
        r == Head::Both ==> a.pairs()[i as int] == b.pairs()[j as int],
{
    if i == a.len() {
        return Head::Second;
    }
    if j == b.len() {
        return Head::First;
    }
    let x: &PairEntry = a.at(i);
    let y: &PairEntry = b.at(j);
    if pair_less(x.field.as_str(), x.device.as_str(), y.field.as_str(), y.device.as_str()) {
        Head::First
    } else if pair_less(y.field.as_str(), y.device.as_str(), x.field.as_str(), x.device.as_str()) {
        Head::Second
    } else {
        proof {
            if x.pair() != y.pair() {
                pair_total(x.pair(), y.pair());
            }
        }
        Head::Both
    }
}

/// Everything that has to be done to turn what is running into what is wanted.
pub fn diff(running: &PairTable, wanted: &PairTable) -> (r: Vec<Move>)
    ensures
        is_diff(moves_model(r@), running@, wanted@),
{
    let mut moves: Vec<Move> = Vec::new();
    let mut i: usize = 0;
    let mut j: usize = 0;
    let n: usize = running.len();
    let m: usize = wanted.len();
    let ghost a = running.pairs();
    let ghost b = wanted.pairs();
    proof {
        merge_start(running@, wanted@, a, b);
        assert(moves_model(moves@) =~= Seq::<MoveModel>::empty());
    }
    while i < n || j < m
        invariant
            a == running.pairs(),
            b == wanted.pairs(),
            n == a.len(),
            m == b.len(),
            i <= n,
            j <= m,
            pairs_in_order(a),
            pairs_in_order(b),
            forall|p: Pair| #[trigger] running@.contains_key(p) <==> a.contains(p),
            forall|p: Pair| #[trigger] wanted@.contains_key(p) <==> b.contains(p),
            merged(moves_model(moves@), running@, wanted@, a, b, i as int, j as int),
        decreases n - i + m - j,
    {
        let which: Head = head(running, i, wanted, j);
        let entry: &PairEntry = if matches!(which, Head::Second) {
            wanted.at(j)
        } else {
            running.at(i)
        };
        let ghost p = entry.pair();
        let i2: usize = if matches!(which, Head::Second) {
            i
        } else {
            i + 1
        };
        let j2: usize = if matches!(which, Head::First) {
            j
        } else {
            j + 1
        };
        let current: Option<Wanted> = running.get(entry.field.as_str(), entry.device.as_str());
        let want: Option<Wanted> = wanted.get(entry.field.as_str(), entry.device.as_str());
        let action: Action = act(current, want);
        let ghost before = moves_model(moves@);
        proof {
            if i2 < n && i2 == i + 1 {
                assert(pair_lt(a[i as int], a[i2 as int]));
            }
            if j2 < m && j2 == j + 1 {
                assert(pair_lt(b[j as int], b[j2 as int]));
            }
        }
        if !matches!(action, Action::Leave) {
            moves.push(
                Move {
                    field: entry.field.clone(),
                    device: entry.device.clone(),
                    action,
                    wanted: want,
                },
            );
            proof {
                assert(moves_model(moves@) =~= before.push(move_at(running@, wanted@, p)));
            }
        }
        proof {
            merge_step(
                before,
                moves_model(moves@),
                running@,
                wanted@,
                a,
                b,
                i as int,
                j as int,
                i2 as int,
                j2 as int,
                p,
            );
        }
        i = i2;
        j = j2;
    }
    proof {
        merge_end(moves_model(moves@), running@, wanted@, a, b);
    }
    moves
}

/// What one pass did, in numbers.
#[derive(Debug, Clone, Copy, PartialEq, Eq, Structural)]
pub struct Change {
    pub started: usize,
    pub stopped: usize,
    /// The same device, another interval.
    pub retimed: usize,
    /// The same id, another device.
    pub rebound: usize,
    /// The pairs that the schedule gives an interval and a device declines. It is
    /// no change.
    pub declined: usize,
}

impl Change {
    pub open spec fn nothing(self) -> bool {
        self.started == 0 && self.stopped == 0 && self.retimed == 0 && self.rebound == 0
    }

    /// Whether nothing moved.
    pub fn is_nothing(self) -> (r: bool)
        ensures
            r == self.nothing(),
    {
        self.started == 0 && self.stopped == 0 && self.retimed == 0 && self.rebound == 0
    }
}

/// How many of the moves are of one kind.
pub open spec fn tally(moves: Seq<MoveModel>, action: Action) -> nat
    decreases moves.len(),
{
    if moves.len() == 0 {
        0
    } else {
        tally(moves.drop_last(), action) + (if moves.last().action == action {
            1nat
        } else {
            0nat
        })
    }
}

pub open spec fn change_of(moves: Seq<MoveModel>, declined: nat, change: Change) -> bool {
    &&& change.started == tally(moves, Action::Start)
    &&& change.stopped == tally(moves, Action::Stop)
    &&& change.retimed == tally(moves, Action::Retime)
    &&& change.rebound == tally(moves, Action::Rebind)
    &&& change.declined == declined
}

fn summed(moves: &Vec<Move>, declined: usize) -> (r: Change)
    ensures
        change_of(moves_model(moves@), declined as nat, r),
{
    let mut change: Change = Change { started: 0, stopped: 0, retimed: 0, rebound: 0, declined };
    let mut i: usize = 0;
    let ghost all = moves_model(moves@);
    while i < moves.len()
        invariant
            i <= moves.len(),
            all == moves_model(moves@),
            change_of(all.take(i as int), declined as nat, change),
            change.started <= i,
            change.stopped <= i,
            change.retimed <= i,
            change.rebound <= i,
        decreases moves.len() - i,
    {
        proof {
            let next = all.take(i + 1);
            assert(next.drop_last() =~= all.take(i as int));
            assert(next.last() == moves@[i as int]@);
        }
        match moves[i].action {
            Action::Leave => {},
            Action::Start => {
                change.started = change.started + 1;
            },
            Action::Stop => {
                change.stopped = change.stopped + 1;
            },
            Action::Retime => {
                change.retimed = change.retimed + 1;
            },
            Action::Rebind => {
                change.rebound = change.rebound + 1;
            },
        }
        i = i + 1;
    }
    proof {
        assert(all.take(moves@.len() as int) =~= all);
    }
    change
}

/// How loudly a change is reported.
pub fn report(change: Change) -> (r: Level)
    ensures
        r == (if change.nothing() {
            Level::Debug
        } else {
            Level::Info
        }),
{
    if change.is_nothing() {
        Level::Debug
    } else {
        Level::Info
    }
}

/// The poll loops that are running.
#[derive(Debug)]
pub struct Loops {
    pub running: PairTable,
}

impl Loops {
    pub fn new() -> (r: Self)
        ensures
            r.running@ == Map::<Pair, Wanted>::empty(),
    {
        Loops { running: PairTable::new() }
    }

    /// Makes what is running match the schedule and the fleet: what has to be
    /// done for it, and that in numbers.
    pub fn reconcile(
        &mut self,
        schedule: &Vec<FieldSchedule>,
        fleet: &OrderedMap<PolledDevice>,
    ) -> (r: (Vec<Move>, Change))
        requires
            schedule@.len() * fleet.keys().len() <= usize::MAX,
        ensures
            final(self).running@ == wanted_map(schedule_model(schedule@), fleet@),
            is_diff(
                moves_model(r.0@),
                old(self).running@,
                wanted_map(schedule_model(schedule@), fleet@),
            ),
            change_of(
                moves_model(r.0@),
                declined_by(schedule_model(schedule@), fleet.keys(), fleet@),
                r.1,
            ),
    {
        let (wanted, declined): (PairTable, usize) = wanted_loops(schedule, fleet);
        let moves: Vec<Move> = diff(&self.running, &wanted);
        let change: Change = summed(&moves, declined);
        self.running = wanted;
        (moves, change)
    }
}

} // verus!
