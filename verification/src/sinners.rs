//! Sinner's Sacrifice machines: spawns, resets and hits. A drop in health
//! is held until the tick's damage messages are seen; a message that names
//! the machine reports the hit with its attacker, and what no message
//! explains is reported as an unattributed hit once the tick is over.
use vstd::prelude::*;
use crate::entity_table::{EntityKey, EntityTable, as_map, keys_increasing};

verus! {

/// What is known of a machine: health, max health, team and position.
#[derive(Clone, Copy, Debug)]
pub struct MachineState<P> {
    pub health: i64,
    pub max_health: i64,
    pub team_num: i64,
    pub pos: P,
}

#[derive(Clone, Copy, PartialEq, Eq, Structural, Debug)]
pub enum MachineEventKind {
    Spawned,
    Reset,
    Hit,
}

/// A row of the machine dataset.
#[derive(Clone, Copy, Debug)]
pub struct MachineEvent<P> {
    pub tick: i32,
    pub kind: MachineEventKind,
    pub key: EntityKey,
    pub attacker_hero_id: i64,
    pub damage: i32,
    pub state: MachineState<P>,
}

pub open spec fn machine_event<P>(
    tick: i32,
    kind: MachineEventKind,
    key: EntityKey,
    attacker: i64,
    damage: i32,
    state: MachineState<P>,
) -> MachineEvent<P> {
    MachineEvent { tick, kind, key, attacker_hero_id: attacker, damage, state }
}

/// Unattributed hits for the held health drops, in key order.
pub open spec fn hit_events<P>(pending: Seq<(EntityKey, (i32, MachineState<P>))>, tick: i32) -> Seq<
    MachineEvent<P>,
> {
    Seq::new(
        pending.len(),
        |i: int|
            machine_event(tick, MachineEventKind::Hit, pending[i].0, 0, pending[i].1.0, pending[i].1.1),
    )
}

/// A health drop as a damage count: the drop, at most `i32::MAX`.
pub open spec fn health_lost(before: i64, after: i64) -> i32 {
    if before - after > i32::MAX {
        i32::MAX
    } else {
        (before - after) as i32
    }
}

/// `a + b`, held within the range of `i32`.
pub open spec fn saturating_sum(a: i32, b: i32) -> i32 {
    if a + b > i32::MAX {
        i32::MAX
    } else if a + b < i32::MIN {
        i32::MIN
    } else {
        (a + b) as i32
    }
}

/// What the tracker knows: the live machines, the health drops held for
/// the tick in `pending_tick` (in key order), and that tick.
pub struct MachinesView<P> {
    pub live: Map<EntityKey, MachineState<P>>,
    pub pending: Seq<(EntityKey, (i32, MachineState<P>))>,
    pub pending_tick: Option<i32>,
}

pub struct SinnerTracker<P> {
    live: EntityTable<MachineState<P>>,
    pending: EntityTable<(i32, MachineState<P>)>,
    pending_tick: Option<i32>,
}

impl<P: Copy> View for SinnerTracker<P> {
    type V = MachinesView<P>;

    closed spec fn view(&self) -> MachinesView<P> {
        MachinesView { live: self.live@, pending: self.pending.entries(), pending_tick: self.pending_tick }
    }
}

impl<P: Copy> SinnerTracker<P> {
    /// The tables are well formed, the held drops are in key order, and
    /// every live machine has positive health.
    pub closed spec fn wf(&self) -> bool {
        &&& self.live.wf()
        &&& self.pending.wf()
        &&& forall|k: EntityKey| #[trigger] self.live@.contains_key(k) ==> self.live@[k].health > 0
    }

    /// The held drops are listed in increasing key order, once each.
    pub proof fn lemma_pending_sorted(&self)
        requires
            self.wf(),
        ensures
            keys_increasing(self@.pending),
    {
        self.pending.lemma_entries();
    }

    pub fn new() -> (t: Self)
        ensures
            t.wf(),
            t@.live == Map::<EntityKey, MachineState<P>>::empty(),
            t@.pending == Seq::<(EntityKey, (i32, MachineState<P>))>::empty(),
            t@.pending_tick is None,
    {
        let t = SinnerTracker { live: EntityTable::new(), pending: EntityTable::new(), pending_tick: None };
        proof {
            t.pending.lemma_entries();
            assert(t.pending.entries() =~= Seq::<(EntityKey, (i32, MachineState<P>))>::empty()) by {
                if t.pending.entries().len() > 0 {
                    crate::entity_table::lemma_as_map_at(t.pending.entries(), 0);
                }
            }
        }
        t
    }

    /// Report every held drop as an unattributed hit at the tick it was
    /// seen, in key order.
    fn flush(&mut self) -> (events: Vec<MachineEvent<P>>)
        requires
            old(self).wf(),
            old(self).pending_tick is Some,
        ensures
            final(self).wf(),
            final(self)@.live == old(self)@.live,
            final(self)@.pending.len() == 0,
            final(self)@.pending_tick is None,
            events@ == hit_events(old(self)@.pending, old(self).pending_tick->0),
    {
        let tick = match self.pending_tick {
            Some(t) => t,
            None => 0,
        };
        self.pending_tick = None;
        proof {
            self.pending.lemma_entries();
        }
        let ghost before = self.pending.entries();
        let drained = self.pending.drain();
        proof {
            self.pending.lemma_entries();
            assert(self.pending.entries().len() == 0) by {
                if self.pending.entries().len() > 0 {
                    crate::entity_table::lemma_as_map_at(self.pending.entries(), 0);
                }
            }
            lemma_sorted_unique(drained@, before);
        }
        let mut events: Vec<MachineEvent<P>> = Vec::new();
        let n = drained.len();
        let mut i: usize = 0;
        while i < n
            invariant
                n == drained@.len(),
                i <= n,
                drained@ == before,
                events@ == hit_events(before, tick).take(i as int),
            decreases n - i,
        {
            let (key, (damage, state)) = drained[i];
            events.push(
                MachineEvent { tick, kind: MachineEventKind::Hit, key, attacker_hero_id: 0, damage, state },
            );
            assert(events@ =~= hit_events(before, tick).take(i + 1));
            i = i + 1;
        }
        assert(events@ =~= hit_events(before, tick));
        events
    }

    /// A new tick begins: drops held for an earlier tick become
    /// unattributed hits (no damage message named them).
    pub fn begin_tick(&mut self, tick: i32) -> (events: Vec<MachineEvent<P>>)
        requires
            old(self).wf(),
        ensures
            final(self).wf(),
            final(self)@.live == old(self)@.live,
            if old(self)@.pending_tick is Some && old(self)@.pending_tick != Some(tick) {
                &&& events@ == hit_events(old(self)@.pending, old(self)@.pending_tick->0)
                &&& final(self)@.pending.len() == 0
                &&& final(self)@.pending_tick is None
            } else {
                &&& events@.len() == 0
                &&& final(self)@ == old(self)@
            },
    {
        match self.pending_tick {
            Some(t) => if t != tick {
                return self.flush();
            },
            None => {},
        }
        Vec::new()
    }

    /// The demo is over: held drops become unattributed hits.
    pub fn finish(&mut self) -> (events: Vec<MachineEvent<P>>)
        requires
            old(self).wf(),
        ensures
            final(self).wf(),
            final(self)@.live == old(self)@.live,
            if old(self)@.pending_tick is Some {
                &&& events@ == hit_events(old(self)@.pending, old(self)@.pending_tick->0)
                &&& final(self)@.pending.len() == 0
                &&& final(self)@.pending_tick is None
            } else {
                &&& events@.len() == 0
                &&& final(self)@ == old(self)@
            },
    {
        if self.pending_tick.is_some() {
            self.flush()
        } else {
            Vec::new()
        }
    }

    /// Machine `key` was deleted; `current` is the machine now in its slot,
    /// if any. Unless it is the same machine (a full-packet rebuild), it is
    /// forgotten along with any drop held for it.
    pub fn deleted(&mut self, key: EntityKey, current: Option<EntityKey>)
        requires
            old(self).wf(),
        ensures
            final(self).wf(),
            final(self)@.pending_tick == old(self)@.pending_tick,
            if current == Some(key) {
                final(self)@ == old(self)@
            } else {
                &&& final(self)@.live == old(self)@.live.remove(key)
                &&& keys_increasing(final(self)@.pending)
                &&& as_map(final(self)@.pending) == as_map(old(self)@.pending).remove(key)
            },
    {
        let same = match current {
            Some(c) => c == key,
            None => false,
        };
        if !same {
            self.live.remove(key);
            self.pending.remove(key);
            proof {
                self.pending.lemma_entries();
                old(self).pending.lemma_entries();
            }
        }
    }

    /// Machine `key` was updated this tick with `health` of `max_health`.
    /// A machine with no health or no max health is missing state and is
    /// ignored. Otherwise it is live with this state: a new machine is
    /// reported spawned, a rise in health a reset, and a drop is held for
    /// the tick (added to a drop already held for it).
    pub fn observe(
        &mut self,
        key: EntityKey,
        health: i64,
        max_health: i64,
        team_num: i64,
        pos: P,
        tick: i32,
    ) -> (r: Option<MachineEvent<P>>)
        requires
            old(self).wf(),
        ensures
            final(self).wf(),
            ({
                let state = MachineState { health, max_health, team_num, pos };
                let prev = old(self)@.live;
                if health <= 0 || max_health <= 0 {
                    r is None && final(self)@ == old(self)@
                } else {
                    &&& final(self)@.live == prev.insert(key, state)
                    &&& if !prev.contains_key(key) {
                        &&& r == Some(machine_event(tick, MachineEventKind::Spawned, key, 0, 0, state))
                        &&& final(self)@.pending == old(self)@.pending
                        &&& final(self)@.pending_tick == old(self)@.pending_tick
                    } else if health > prev[key].health {
                        &&& r == Some(machine_event(tick, MachineEventKind::Reset, key, 0, 0, state))
                        &&& final(self)@.pending == old(self)@.pending
                        &&& final(self)@.pending_tick == old(self)@.pending_tick
                    } else if health < prev[key].health {
                        let lost = health_lost(prev[key].health, health);
                        let held = as_map(old(self)@.pending);
                        let damage = if held.contains_key(key) {
                            saturating_sum(held[key].0, lost)
                        } else {
                            lost
                        };
                        &&& r is None
                        &&& final(self)@.pending_tick == Some(tick)
                        &&& keys_increasing(final(self)@.pending)
                        &&& as_map(final(self)@.pending) == held.insert(key, (damage, state))
                    } else {
                        &&& r is None
                        &&& final(self)@.pending == old(self)@.pending
                        &&& final(self)@.pending_tick == old(self)@.pending_tick
                    }
                }
            }),
    {
        if health <= 0 || max_health <= 0 {
            return None;
        }
        let state = MachineState { health, max_health, team_num, pos };
        let prev = self.live.insert(key, state);
        match prev {
            None => Some(
                MachineEvent {
                    tick,
                    kind: MachineEventKind::Spawned,
                    key,
                    attacker_hero_id: 0,
                    damage: 0,
                    state,
                },
            ),
            Some(p) => {
                if health > p.health {
                    Some(
                        MachineEvent {
                            tick,
                            kind: MachineEventKind::Reset,
                            key,
                            attacker_hero_id: 0,
                            damage: 0,
                            state,
                        },
                    )
                } else if health < p.health {
                    self.pending_tick = Some(tick);
                    let drop: i64 = p.health - health;
                    let lost: i32 = if drop > i32::MAX as i64 {
                        i32::MAX
                    } else {
                        drop as i32
                    };
                    let damage: i32 = match self.pending.get(key) {
                        Some(held) => {
                            let sum: i64 = held.0 as i64 + lost as i64;
                            if sum > i32::MAX as i64 {
                                i32::MAX
                            } else if sum < i32::MIN as i64 {
                                i32::MIN
                            } else {
                                sum as i32
                            }
                        },
                        None => lost,
                    };
                    self.pending.insert(key, (damage, state));
                    proof {
                        self.pending.lemma_entries();
                        old(self).pending.lemma_entries();
                    }
                    None
                } else {
                    None
                }
            },
        }
    }

    /// A damage message names entity slot `victim_index`, whose machine
    /// (if the slot holds one) is `current`; else the first live machine
    /// of that slot in key order stands for it. When that machine is live,
    /// the hit is reported with its attacker (0 when unknown) and damage
    /// (0 when absent), and a drop held for it at this tick is explained.
    pub fn direct_hit(
        &mut self,
        victim_index: i32,
        current: Option<EntityKey>,
        attacker_hero_id: Option<i64>,
        damage: Option<i32>,
        tick: i32,
    ) -> (r: Option<MachineEvent<P>>)
        requires
            old(self).wf(),
        ensures
            final(self).wf(),
            final(self)@.live == old(self)@.live,
            final(self)@.pending_tick == old(self)@.pending_tick,
            ({
                let live = old(self)@.live;
                let victim = match current {
                    Some(k) => Some(k),
                    None => if exists|k: EntityKey| #[trigger]
                        live.contains_key(k) && k.index == victim_index {
                        Some(
                            choose|k: EntityKey|
                                live.contains_key(k) && k.index == victim_index && forall|k2: EntityKey|
                                    #[trigger] live.contains_key(k2) && k2.index == victim_index ==> k2 == k
                                        || crate::entity_table::key_lt(k, k2),
                        )
                    } else {
                        None
                    },
                };
                match victim {
                    Some(k) => if live.contains_key(k) {
                        &&& r == Some(
                            machine_event(
                                tick,
                                MachineEventKind::Hit,
                                k,
                                match attacker_hero_id {
                                    Some(a) => a,
                                    None => 0,
                                },
                                match damage {
                                    Some(d) => d,
                                    None => 0,
                                },
                                live[k],
                            ),
                        )
                        &&& keys_increasing(final(self)@.pending)
                        &&& as_map(final(self)@.pending) == if old(self)@.pending_tick == Some(tick) {
                            as_map(old(self)@.pending).remove(k)
                        } else {
                            as_map(old(self)@.pending)
                        }
                    } else {
                        r is None && final(self)@ == old(self)@
                    },
                    None => r is None && final(self)@ == old(self)@,
                }
            }),
    {
        let victim = match current {
            Some(k) => Some(k),
            None => self.live.first_with_index(victim_index),
        };
        proof {
            self.pending.lemma_entries();
            if current is None {
                let live = self.live@;
                match victim {
                    Some(k) => {
                        assert(live.contains_key(k) && k.index == victim_index);
                        let c = choose|c: EntityKey|
                            live.contains_key(c) && c.index == victim_index && forall|k2: EntityKey|
                                #[trigger] live.contains_key(k2) && k2.index == victim_index ==> k2 == c
                                    || crate::entity_table::key_lt(c, k2);
                        if c != k {
                            assert(crate::entity_table::key_lt(c, k) || crate::entity_table::key_lt(k, c));
                        }
                    },
                    None => {},
                }
            }
        }
        let k = match victim {
            Some(k) => k,
            None => return None,
        };
        let state = match self.live.get(k) {
            Some(s) => s,
            None => return None,
        };
        if self.pending_tick == Some(tick) {
            self.pending.remove(k);
            proof {
                self.pending.lemma_entries();
            }
        }
        Some(
            MachineEvent {
                tick,
                kind: MachineEventKind::Hit,
                key: k,
                attacker_hero_id: match attacker_hero_id {
                    Some(a) => a,
                    None => 0,
                },
                damage: match damage {
                    Some(d) => d,
                    None => 0,
                },
                state,
            },
        )
    }
}

/// Two key-ordered sequences with the same entries are the same sequence.
pub proof fn lemma_sorted_unique<S>(a: Seq<(EntityKey, S)>, b: Seq<(EntityKey, S)>)
    requires
        keys_increasing(a),
        keys_increasing(b),
        as_map(a) == as_map(b),
    ensures
        a == b,
    decreases a.len() + b.len(),
{
    if a.len() == 0 || b.len() == 0 {
        if a.len() > 0 {
            crate::entity_table::lemma_as_map_at(a, 0);
        }
        if b.len() > 0 {
            crate::entity_table::lemma_as_map_at(b, 0);
        }
        assert(a =~= b);
    } else {
        let la = a.last();
        let lb = b.last();
        crate::entity_table::lemma_as_map_at(a, a.len() - 1);
        crate::entity_table::lemma_as_map_at(b, b.len() - 1);
        // the largest key of each is the largest key of the other
        let ia = choose|i: int| 0 <= i < b.len() && b[i].0 == la.0;
        let ib = choose|i: int| 0 <= i < a.len() && a[i].0 == lb.0;
        if ia < b.len() - 1 {
            assert(crate::entity_table::key_lt(b[ia].0, b[b.len() - 1].0));
            if ib < a.len() - 1 {
                assert(crate::entity_table::key_lt(a[ib].0, a[a.len() - 1].0));
            }
        }
        if ib < a.len() - 1 {
            assert(crate::entity_table::key_lt(a[ib].0, a[a.len() - 1].0));
        }
        assert(la.0 == lb.0);
        assert(la == lb);
        let a2 = a.drop_last();
        let b2 = b.drop_last();
        assert(keys_increasing(a2));
        assert(keys_increasing(b2));
        assert(as_map(a2) =~= as_map(a).remove(la.0)) by {
            assert forall|k: EntityKey| as_map(a2).contains_key(k) == as_map(a).remove(la.0).contains_key(k) by {
                if as_map(a2).contains_key(k) {
                    let j = choose|j: int| 0 <= j < a2.len() && a2[j].0 == k;
                    assert(a[j].0 == k);
                    assert(crate::entity_table::key_lt(a[j].0, a[a.len() - 1].0));
                }
                if as_map(a).remove(la.0).contains_key(k) {
                    let j = choose|j: int| 0 <= j < a.len() && a[j].0 == k;
                    assert(j != a.len() - 1);
                    assert(a2[j].0 == k);
                }
            }
            assert forall|k: EntityKey| #[trigger] as_map(a2).contains_key(k) implies as_map(a2)[k]
                == as_map(a).remove(la.0)[k] by {
                let j = choose|j: int| 0 <= j < a2.len() && a2[j].0 == k;
                crate::entity_table::lemma_as_map_at(a2, j);
                crate::entity_table::lemma_as_map_at(a, j);
            }
        }
        assert(as_map(b2) =~= as_map(b).remove(lb.0)) by {
            assert forall|k: EntityKey| as_map(b2).contains_key(k) == as_map(b).remove(lb.0).contains_key(k) by {
                if as_map(b2).contains_key(k) {
                    let j = choose|j: int| 0 <= j < b2.len() && b2[j].0 == k;
                    assert(b[j].0 == k);
                    assert(crate::entity_table::key_lt(b[j].0, b[b.len() - 1].0));
                }
                if as_map(b).remove(lb.0).contains_key(k) {
                    let j = choose|j: int| 0 <= j < b.len() && b[j].0 == k;
                    assert(j != b.len() - 1);
                    assert(b2[j].0 == k);
                }
            }
            assert forall|k: EntityKey| #[trigger] as_map(b2).contains_key(k) implies as_map(b2)[k]
                == as_map(b).remove(lb.0)[k] by {
                let j = choose|j: int| 0 <= j < b2.len() && b2[j].0 == k;
                crate::entity_table::lemma_as_map_at(b2, j);
                crate::entity_table::lemma_as_map_at(b, j);
            }
        }
        lemma_sorted_unique(a2, b2);
        assert(a =~= a2.push(la));
        assert(b =~= b2.push(lb));
    }
}

} // verus!
