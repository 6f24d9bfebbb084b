//! The Rift lifecycle: a spawner announces a Rift, the game rules mark it
//! contestable, a team may capture it, and it resolves (captured or
//! expired) when the cash-in clears. One record per resolved Rift.
use vstd::prelude::*;
use std::collections::HashSet;

verus! {

broadcast use vstd::std_specs::hash::group_hash_axioms;

/// The lifecycle state carried from tick to tick.
#[derive(Clone, Copy, PartialEq, Eq, Structural, Debug)]
pub struct RiftState {
    /// Rifts resolved so far.
    pub completed: i32,
    /// A Rift is contestable now.
    pub live: bool,
    /// Tick a spawner last appeared while no Rift was live, kept for the
    /// next Rift that opens.
    pub pending_announce: Option<i32>,
    /// Announce tick of the current Rift.
    pub announce: Option<i32>,
    /// Tick the current Rift opened.
    pub active_tick: i32,
    /// Tick the current Rift was captured.
    pub capture_tick: Option<i32>,
    /// Team that captured the current Rift.
    pub winning_team: Option<i32>,
    /// The current Rift has been seen contested (scoring team not positive):
    /// the scoring team keeps the previous winner until then.
    pub seen_contested: bool,
}

/// One resolved Rift.
#[derive(Clone, Copy, PartialEq, Eq, Structural, Debug)]
pub struct RiftRecord {
    pub rift_num: i32,
    pub announce_tick: Option<i32>,
    pub active_tick: i32,
    pub capture_tick: Option<i32>,
    /// The tick it resolved, when it resolved without a capture.
    pub expire_tick: Option<i32>,
    pub winning_team: Option<i32>,
}

/// What one tick of the game rules did to the lifecycle.
#[derive(Clone, Copy, PartialEq, Eq, Structural, Debug)]
pub struct RiftStep {
    /// A Rift opened at this tick (its location starts over).
    pub opened: bool,
    /// The cash-in location of this tick belongs to the live Rift.
    pub read_location: bool,
    /// The Rift that resolved at this tick.
    pub completed: Option<RiftRecord>,
}

/// The state after the opening edge (contestable now, not before).
pub open spec fn after_open(s: RiftState, tick: i32, is_live: bool, scoring_team: i32) -> RiftState {
    if is_live && !s.live {
        RiftState {
            live: true,
            announce: s.pending_announce,
            pending_announce: None,
            active_tick: tick,
            capture_tick: None,
            winning_team: None,
            seen_contested: scoring_team <= 0,
            ..s
        }
    } else {
        s
    }
}

/// The state after the scoring team of a live Rift is read: a non-positive
/// team marks it contested; the first positive team after that captures it.
pub open spec fn after_score(s: RiftState, tick: i32, scoring_team: i32) -> RiftState {
    if !s.live {
        s
    } else if scoring_team <= 0 {
        RiftState { seen_contested: true, ..s }
    } else if s.seen_contested && s.capture_tick is None {
        RiftState { capture_tick: Some(tick), winning_team: Some(scoring_team), ..s }
    } else {
        s
    }
}

/// The record of the Rift resolved at `tick` from state `s`.
pub open spec fn resolved_record(s: RiftState, tick: i32) -> RiftRecord {
    RiftRecord {
        rift_num: (s.completed + 1) as i32,
        announce_tick: s.announce,
        active_tick: s.active_tick,
        capture_tick: s.capture_tick,
        expire_tick: if s.capture_tick is None {
            Some(tick)
        } else {
            None
        },
        winning_team: s.winning_team,
    }
}

/// The state and step after one tick of the game rules.
pub open spec fn rift_transition(s: RiftState, tick: i32, is_live: bool, scoring_team: i32) -> (
    RiftState,
    RiftStep,
) {
    let s1 = after_score(after_open(s, tick, is_live, scoring_team), tick, scoring_team);
    let opened = is_live && !s.live;
    let read_location = s1.live && is_live;
    if !is_live && s1.live {
        (
            RiftState { live: false, completed: (s1.completed + 1) as i32, ..s1 },
            RiftStep { opened, read_location, completed: Some(resolved_record(s1, tick)) },
        )
    } else {
        (s1, RiftStep { opened, read_location, completed: None })
    }
}

/// The state before any Rift was seen.
pub open spec fn rift_start() -> RiftState {
    RiftState {
        completed: 0,
        live: false,
        pending_announce: None,
        announce: None,
        active_tick: 0,
        capture_tick: None,
        winning_team: None,
        seen_contested: false,
    }
}

/// The state after a tick at which a spawner did (or did not) appear.
pub open spec fn after_spawner(s: RiftState, tick: i32, appeared: bool) -> RiftState {
    if appeared && !s.live {
        RiftState { pending_announce: Some(tick), ..s }
    } else {
        s
    }
}

impl RiftState {
    /// No Rift seen yet.
    pub fn new() -> (s: RiftState)
        ensures
            s == rift_start(),
    {
        RiftState {
            completed: 0,
            live: false,
            pending_announce: None,
            announce: None,
            active_tick: 0,
            capture_tick: None,
            winning_team: None,
            seen_contested: false,
        }
    }

    /// A spawner that was absent last tick appeared at `tick`: while no
    /// Rift is live this announces the next one.
    pub fn note_spawner(&mut self, tick: i32)
        ensures
            *final(self) == after_spawner(*old(self), tick, true),
    {
        if !self.live {
            self.pending_announce = Some(tick);
        }
    }

    /// Advance the lifecycle by one tick of the game rules, given whether
    /// the cash-in is contestable and the scoring team.
    pub fn step(&mut self, tick: i32, is_live: bool, scoring_team: i32) -> (r: RiftStep)
        requires
            old(self).completed < i32::MAX,
        ensures
            (*final(self), r) == rift_transition(*old(self), tick, is_live, scoring_team),
    {
        let opened = is_live && !self.live;
        if opened {
            self.live = true;
            self.announce = self.pending_announce;
            self.pending_announce = None;
            self.active_tick = tick;
            self.capture_tick = None;
            self.winning_team = None;
            self.seen_contested = scoring_team <= 0;
        }
        if self.live {
            if scoring_team <= 0 {
                self.seen_contested = true;
            } else if self.seen_contested && self.capture_tick.is_none() {
                self.capture_tick = Some(tick);
                self.winning_team = Some(scoring_team);
            }
        }
        let read_location = self.live && is_live;
        if !is_live && self.live {
            let record = RiftRecord {
                rift_num: self.completed + 1,
                announce_tick: self.announce,
                active_tick: self.active_tick,
                capture_tick: self.capture_tick,
                expire_tick: if self.capture_tick.is_none() {
                    Some(tick)
                } else {
                    None
                },
                winning_team: self.winning_team,
            };
            self.live = false;
            self.completed = self.completed + 1;
            RiftStep { opened, read_location, completed: Some(record) }
        } else {
            RiftStep { opened, read_location, completed: None }
        }
    }
}

/// Whether some spawner present now was absent at the previous tick
/// (entity indices are recycled, so presence is the only spawn signal).
pub fn spawner_appeared(previous: &HashSet<i32>, current: &Vec<i32>) -> (r: bool)
    ensures
        r == exists|i: int| 0 <= i < current@.len() && !previous@.contains(#[trigger] current@[i]),
{
    let n = current.len();
    let mut i: usize = 0;
    while i < n
        invariant
            n == current@.len(),
            i <= n,
            forall|j: int| 0 <= j < i ==> previous@.contains(#[trigger] current@[j]),
        decreases n - i,
    {
        if !previous.contains(&current[i]) {
            return true;
        }
        i = i + 1;
    }
    false
}

/// The spawners present now, to compare the next tick against.
pub fn spawner_set(current: &Vec<i32>) -> (r: HashSet<i32>)
    ensures
        r@ == current@.to_set(),
{
    let mut set: HashSet<i32> = HashSet::new();
    let n = current.len();
    let mut i: usize = 0;
    while i < n
        invariant
            n == current@.len(),
            i <= n,
            set@ == current@.subrange(0, i as int).to_set(),
        decreases n - i,
    {
        set.insert(current[i]);
        proof {
            assert(current@.subrange(0, i + 1) =~= current@.subrange(0, i as int).push(current@[i as int]));
            current@.subrange(0, i as int).lemma_push_to_set_commute(current@[i as int]);
        }
        i = i + 1;
    }
    assert(current@.subrange(0, n as int) =~= current@);
    set
}

/// A Rift has a capture tick exactly when it has a winning team.
pub open spec fn capture_consistent(s: RiftState) -> bool {
    (s.capture_tick is Some) == (s.winning_team is Some)
}

/// A resolved Rift is either captured or expired, never both, has a winner
/// exactly when captured, and is numbered after the Rifts resolved before
/// it; the lifecycle keeps capture and winner together.
pub proof fn lemma_resolved_rift_outcome(s: RiftState, tick: i32, is_live: bool, scoring_team: i32)
    requires
        s.completed < i32::MAX,
        capture_consistent(s),
    ensures
        capture_consistent(rift_transition(s, tick, is_live, scoring_team).0),
        ({
            let (next, step) = rift_transition(s, tick, is_live, scoring_team);
            match step.completed {
                Some(rec) => {
                    &&& (rec.capture_tick is Some) != (rec.expire_tick is Some)
                    &&& (rec.capture_tick is Some) == (rec.winning_team is Some)
                    &&& rec.rift_num == s.completed + 1
                    &&& next.completed == s.completed + 1
                    &&& !next.live
                },
                None => next.completed == s.completed,
            }
        }),
{
}

/// The live Rift opened no later than `last`, and no later than its
/// capture.
pub open spec fn rift_ticks_ordered(s: RiftState, last: int) -> bool {
    s.live ==> (s.active_tick <= last && (s.capture_tick matches Some(c) ==> s.active_tick <= c))
}

/// A record's Rift opened no later than it was captured or expired.
pub open spec fn record_ticks_ordered(r: RiftRecord) -> bool {
    &&& (r.capture_tick matches Some(c) ==> r.active_tick <= c)
    &&& (r.expire_tick matches Some(e) ==> r.active_tick <= e)
}

/// The lifecycle run over a sequence of game-rules ticks, each given as
/// (tick, a spawner appeared, the cash-in is contestable, scoring team):
/// the final state and the records of the Rifts resolved, in order.
pub open spec fn rift_run(s: RiftState, ticks: Seq<(i32, bool, bool, i32)>) -> (
    RiftState,
    Seq<RiftRecord>,
)
    decreases ticks.len(),
{
    if ticks.len() == 0 {
        (s, seq![])
    } else {
        let (st, recs) = rift_run(s, ticks.drop_last());
        let (tick, appeared, is_live, scoring_team) = ticks.last();
        let (next, step) = rift_transition(after_spawner(st, tick, appeared), tick, is_live, scoring_team);
        (
            next,
            match step.completed {
                Some(rec) => recs.push(rec),
                None => recs,
            },
        )
    }
}

/// One tick at or after the last keeps the live Rift's ticks in order, and
/// the Rift it resolves, if any, opened no later than it was captured or
/// expired.
pub proof fn lemma_rift_step_ticks_ordered(
    s: RiftState,
    last: i32,
    tick: i32,
    appeared: bool,
    is_live: bool,
    scoring_team: i32,
)
    requires
        rift_ticks_ordered(s, last as int),
        last <= tick,
    ensures
        ({
            let (next, step) = rift_transition(after_spawner(s, tick, appeared), tick, is_live, scoring_team);
            &&& rift_ticks_ordered(next, tick as int)
            &&& step.completed matches Some(rec) ==> record_ticks_ordered(rec)
        }),
{
}

/// When the ticks of the game rules never decrease, every Rift the
/// lifecycle resolves opened no later than it was captured or expired.
pub proof fn lemma_rift_records_in_order(ticks: Seq<(i32, bool, bool, i32)>)
    requires
        forall|i: int, j: int| 0 <= i < j < ticks.len() ==> #[trigger] ticks[i].0 <= #[trigger] ticks[j].0,
    ensures
        forall|k: int|
            0 <= k < rift_run(rift_start(), ticks).1.len() ==> record_ticks_ordered(
                #[trigger] rift_run(rift_start(), ticks).1[k],
            ),
{
    lemma_rift_run_ordered(rift_start(), i32::MIN, ticks);
}

proof fn lemma_rift_run_ordered(s: RiftState, floor: i32, ticks: Seq<(i32, bool, bool, i32)>)
    requires
        rift_ticks_ordered(s, floor as int),
        forall|i: int| 0 <= i < ticks.len() ==> floor <= #[trigger] ticks[i].0,
        forall|i: int, j: int| 0 <= i < j < ticks.len() ==> #[trigger] ticks[i].0 <= #[trigger] ticks[j].0,
    ensures
        forall|k: int|
            0 <= k < rift_run(s, ticks).1.len() ==> record_ticks_ordered(
                #[trigger] rift_run(s, ticks).1[k],
            ),
        rift_ticks_ordered(
            rift_run(s, ticks).0,
            if ticks.len() == 0 {
                floor as int
            } else {
                ticks.last().0 as int
            },
        ),
    decreases ticks.len(),
{
    if ticks.len() > 0 {
        let prefix = ticks.drop_last();
        assert forall|i: int, j: int| 0 <= i < j < prefix.len() implies #[trigger] prefix[i].0
            <= #[trigger] prefix[j].0 by {
            assert(prefix[i] == ticks[i] && prefix[j] == ticks[j]);
        }
        assert forall|i: int| 0 <= i < prefix.len() implies floor <= #[trigger] prefix[i].0 by {
            assert(prefix[i] == ticks[i]);
        }
        lemma_rift_run_ordered(s, floor, prefix);
        let (st, recs) = rift_run(s, prefix);
        let (tick, appeared, is_live, scoring_team) = ticks.last();
        let last: i32 = if prefix.len() == 0 {
            floor
        } else {
            prefix.last().0
        };
        if prefix.len() > 0 {
            assert(ticks[prefix.len() - 1].0 <= ticks[ticks.len() - 1].0);
        } else {
            assert(floor <= ticks[0].0);
        }
        lemma_rift_step_ticks_ordered(st, last, tick, appeared, is_live, scoring_team);
    }
}

/// The number of captured Rifts among `records`.
pub open spec fn captured_count(records: Seq<RiftRecord>) -> nat
    decreases records.len(),
{
    if records.len() == 0 {
        0
    } else {
        captured_count(records.drop_last()) + if records.last().capture_tick is Some {
            1nat
        } else {
            0nat
        }
    }
}

proof fn lemma_captured_count_bound(records: Seq<RiftRecord>)
    ensures
        captured_count(records) <= records.len(),
    decreases records.len(),
{
    if records.len() > 0 {
        lemma_captured_count_bound(records.drop_last());
    }
}

/// How many of the Rifts were captured and how many expired.
pub fn rift_outcomes(records: &Vec<RiftRecord>) -> (r: (usize, usize))
    ensures
        r.0 == captured_count(records@),
        r.0 + r.1 == records@.len(),
{
    let n = records.len();
    let mut captured: usize = 0;
    let mut i: usize = 0;
    while i < n
        invariant
            n == records@.len(),
            i <= n,
            captured == captured_count(records@.take(i as int)),
            captured <= i,
        decreases n - i,
    {
        assert(records@.take(i + 1).drop_last() =~= records@.take(i as int));
        if records[i].capture_tick.is_some() {
            captured = captured + 1;
        }
        i = i + 1;
    }
    assert(records@.take(n as int) =~= records@);
    (captured, n - captured)
}

} // verus!
