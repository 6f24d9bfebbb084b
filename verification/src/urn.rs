//! Lifecycle of the golden idol (the urn): who picks it up, drops it and
//! returns it, read from the touched entries of the modifier table, and the
//! delivery points that open and close.
use vstd::prelude::*;
use std::collections::{HashMap, HashSet};
use crate::tracking::{SameState, state_changed};

verus! {

broadcast use vstd::std_specs::hash::group_hash_axioms;

/// Ability subclass of the golden idol a hero carries.
pub const GOLDEN_IDOL_ABILITY: u32 = 2_521_299_219;

/// Modifier subclass put on a hero who returns the idol.
pub const IDOL_RETURN_MODIFIER: u32 = 3_388_847_715;

/// A return by a hero within this many ticks of its last reported return is
/// the same return flickering, and is not reported again.
pub const RETURN_REPEAT_TICKS: i64 = 64;

/// The last-return tick of a hero who never returned the idol.
pub const NO_RETURN_TICK: i64 = -999;

/// Entry type of a modifier table entry that removes its modifier.
pub const ENTRY_REMOVED: i32 = 2;

#[derive(Clone, Copy, PartialEq, Eq, Structural, Debug)]
pub enum UrnEventKind {
    PickedUp,
    Dropped,
    Returned,
}

/// A change of the urn's carrier. `pawn` is the entity index of the hero's
/// pawn where the modifier names it (pickups and returns); a drop is located
/// by the hero.
#[derive(Clone, Copy, PartialEq, Eq, Structural, Debug)]
pub struct UrnEvent {
    pub kind: UrnEventKind,
    pub hero_id: i64,
    pub pawn: Option<usize>,
}

/// A touched entry of the modifier table, decoded: its index in the table,
/// its serial, its entry type, its modifier and ability subclasses, and the
/// entity index its parent handle names.
#[derive(Clone, Copy, PartialEq, Eq, Structural, Debug)]
pub struct ModifierDelta {
    pub index: usize,
    pub serial: u32,
    pub entry_type: Option<i32>,
    pub modifier_subclass: Option<u32>,
    pub ability_subclass: Option<u32>,
    pub parent: Option<usize>,
}

/// What the urn tracker knows.
#[verifier::ext_equal]
pub struct UrnState {
    /// Each golden idol serial and the hero carrying it.
    pub holders: Map<u32, i64>,
    /// Each table index and the idol or return serial last seen there.
    pub slots: Map<usize, u32>,
    /// The return serials already seen.
    pub returned: Set<u32>,
    /// Each hero and the tick of its last reported return.
    pub last_return: Map<i64, i32>,
}

/// Some golden idol serial is carried by `hero`.
pub open spec fn hero_holds(holders: Map<u32, i64>, hero: i64) -> bool {
    exists|s: u32| holders.contains_key(s) && holders[s] == hero
}

pub open spec fn urn_event(kind: UrnEventKind, hero: i64, pawn: Option<usize>) -> UrnEvent {
    UrnEvent { kind, hero_id: hero, pawn }
}

/// An idol serial leaves: its hero drops the urn when no other idol serial
/// is left on them.
pub open spec fn release_idol(st: UrnState, serial: u32) -> (UrnState, Seq<UrnEvent>) {
    if st.holders.contains_key(serial) {
        let hero = st.holders[serial];
        let holders = st.holders.remove(serial);
        (
            UrnState {
                holders: holders,
                slots: st.slots,
                returned: st.returned,
                last_return: st.last_return,
            },
            if hero_holds(holders, hero) {
                seq![]
            } else {
                seq![urn_event(UrnEventKind::Dropped, hero, None)]
            },
        )
    } else {
        (st, seq![])
    }
}

/// The serials leave in order.
pub open spec fn release_all(st: UrnState, serials: Seq<u32>) -> (UrnState, Seq<UrnEvent>)
    decreases serials.len(),
{
    if serials.len() == 0 {
        (st, seq![])
    } else {
        let (s1, e1) = release_all(st, serials.drop_last());
        let (s2, e2) = release_idol(s1, serials.last());
        (s2, e1 + e2)
    }
}

/// One touched entry: the new state, the events, and the idol serial whose
/// slot another serial took (released after the tick's other entries).
pub open spec fn urn_delta(st: UrnState, d: ModifierDelta, heroes: Map<usize, i64>, tick: i32) -> (
    UrnState,
    Seq<UrnEvent>,
    Seq<u32>,
) {
    let removed = d.entry_type == Some(ENTRY_REMOVED);
    let reused = st.slots.contains_key(d.index) && st.slots[d.index] != d.serial;
    let slots1 = if st.slots.contains_key(d.index) && (reused || removed) {
        st.slots.remove(d.index)
    } else {
        st.slots
    };
    let returned1 = if reused {
        st.returned.remove(st.slots[d.index])
    } else {
        st.returned
    };
    let gone = if reused {
        seq![st.slots[d.index]]
    } else {
        seq![]
    };
    let st1 = UrnState {
        holders: st.holders,
        slots: slots1,
        returned: returned1,
        last_return: st.last_return,
    };
    let golden = d.ability_subclass == Some(GOLDEN_IDOL_ABILITY);
    let ret = d.modifier_subclass == Some(IDOL_RETURN_MODIFIER);
    if removed {
        let (st2, ev) = release_idol(st1, d.serial);
        (
            UrnState {
                holders: st2.holders,
                slots: st2.slots,
                returned: st2.returned.remove(d.serial),
                last_return: st2.last_return,
            },
            ev,
            gone,
        )
    } else if !golden && !ret {
        (
            UrnState {
                holders: st1.holders,
                slots: st1.slots.remove(d.index),
                returned: st1.returned,
                last_return: st1.last_return,
            },
            seq![],
            gone,
        )
    } else if d.parent is None || !heroes.contains_key(d.parent->0) {
        (st1, seq![], gone)
    } else {
        let pawn = d.parent->0;
        let hero = heroes[pawn];
        let picks = golden && !st1.holders.contains_key(d.serial);
        let fresh = ret && !st1.returned.contains(d.serial);
        let last: int = if st1.last_return.contains_key(hero) {
            st1.last_return[hero] as int
        } else {
            NO_RETURN_TICK as int
        };
        let reports = fresh && tick - last > RETURN_REPEAT_TICKS;
        (
            UrnState {
                holders: if picks {
                    st1.holders.insert(d.serial, hero)
                } else {
                    st1.holders
                },
                slots: st1.slots.insert(d.index, d.serial),
                returned: if fresh {
                    st1.returned.insert(d.serial)
                } else {
                    st1.returned
                },
                last_return: if reports {
                    st1.last_return.insert(hero, tick)
                } else {
                    st1.last_return
                },
            },
            (if picks && !hero_holds(st1.holders, hero) {
                seq![urn_event(UrnEventKind::PickedUp, hero, Some(pawn))]
            } else {
                seq![]
            }) + (if reports {
                seq![urn_event(UrnEventKind::Returned, hero, Some(pawn))]
            } else {
                seq![]
            }),
            gone,
        )
    }
}

/// The touched entries in order.
pub open spec fn urn_deltas(st: UrnState, ds: Seq<ModifierDelta>, heroes: Map<usize, i64>, tick: i32) -> (
    UrnState,
    Seq<UrnEvent>,
    Seq<u32>,
)
    decreases ds.len(),
{
    if ds.len() == 0 {
        (st, seq![], seq![])
    } else {
        let (s1, e1, g1) = urn_deltas(st, ds.drop_last(), heroes, tick);
        let (s2, e2, g2) = urn_delta(s1, ds.last(), heroes, tick);
        (s2, e1 + e2, g1 + g2)
    }
}

/// One tick: the touched entries in order, then the idols whose slot was
/// taken by another serial.
pub open spec fn urn_tick(st: UrnState, ds: Seq<ModifierDelta>, heroes: Map<usize, i64>, tick: i32) -> (
    UrnState,
    Seq<UrnEvent>,
) {
    let (s1, e1, gone) = urn_deltas(st, ds, heroes, tick);
    let (s2, e2) = release_all(s1, gone);
    (s2, e1 + e2)
}

/// Follows the urn across ticks.
pub struct UrnTracker {
    holders: HashMap<u32, i64>,
    hero_idols: HashMap<i64, HashSet<u32>>,
    slots: HashMap<usize, u32>,
    returned: HashSet<u32>,
    last_return: HashMap<i64, i32>,
}

impl View for UrnTracker {
    type V = UrnState;

    closed spec fn view(&self) -> UrnState {
        UrnState {
            holders: self.holders@,
            slots: self.slots@,
            returned: self.returned@,
            last_return: self.last_return@,
        }
    }
}

impl UrnTracker {
    /// Each hero's idol serials are exactly the serials carried by that
    /// hero, and a hero with none has no entry.
    pub closed spec fn wf(&self) -> bool {
        let holders = self.holders@;
        let idols = self.hero_idols@;
        &&& forall|s: u32| #[trigger]
            holders.contains_key(s) ==> idols.contains_key(holders[s]) && idols[holders[s]]@.contains(s)
        &&& forall|h: i64| #[trigger]
            idols.contains_key(h) ==> !idols[h]@.is_empty()
        &&& forall|h: i64, s: u32|
            idols.contains_key(h) && #[trigger] idols[h]@.contains(s) ==> holders.contains_key(s)
                && holders[s] == h
    }

    proof fn lemma_holds(&self, hero: i64)
        requires
            self.wf(),
        ensures
            hero_holds(self.holders@, hero) == self.hero_idols@.contains_key(hero),
    {
        if self.hero_idols@.contains_key(hero) {
            let set = self.hero_idols@[hero]@;
            assert(!(set =~= Set::<u32>::empty()));
            let s = choose|s: u32| set.contains(s) != Set::<u32>::empty().contains(s);
            assert(set.contains(s));
            assert(self.holders@.contains_key(s) && self.holders@[s] == hero);
        }
    }

    /// Nothing seen yet.
    pub fn new() -> (t: Self)
        ensures
            t.wf(),
            t@ == (UrnState {
                holders: Map::empty(),
                slots: Map::empty(),
                returned: Set::empty(),
                last_return: Map::empty(),
            }),
    {
        let t = UrnTracker {
            holders: HashMap::new(),
            hero_idols: HashMap::new(),
            slots: HashMap::new(),
            returned: HashSet::new(),
            last_return: HashMap::new(),
        };
        assert(t@ =~= (UrnState {
            holders: Map::empty(),
            slots: Map::empty(),
            returned: Set::empty(),
            last_return: Map::empty(),
        }));
        t
    }

    /// An idol serial leaves (see `release_idol`).
    fn release(&mut self, serial: u32, events: &mut Vec<UrnEvent>)
        requires
            old(self).wf(),
        ensures
            final(self).wf(),
            final(self)@ == release_idol(old(self)@, serial).0,
            final(events)@ == old(events)@ + release_idol(old(self)@, serial).1,
    {
        let ghost before = self@;
        match self.holders.remove(&serial) {
            None => {
                assert(events@ =~= old(events)@ + seq![]);
            },
            Some(hero) => {
                proof {
                    assert(old(self).hero_idols@.contains_key(hero));
                }
                let taken = self.hero_idols.remove(&hero);
                match taken {
                    None => {},
                    Some(idols_before) => {
                        let mut idols = idols_before;
                        idols.remove(&serial);
                        let ghost after_holders = self.holders@;
                        assert(after_holders == before.holders.remove(serial));
                        if idols.is_empty() {
                            proof {
                                assert forall|s: u32|
                                    after_holders.contains_key(s) implies after_holders[s] != hero by {
                                    if after_holders[s] == hero {
                                        assert(idols_before@.contains(s));
                                        assert(idols@.contains(s));
                                    }
                                }
                            }
                            events.push(urn_event_dropped(hero));
                        } else {
                            proof {
                                assert(!(idols@ =~= Set::<u32>::empty()));
                                let s = choose|s: u32|
                                    idols@.contains(s) != Set::<u32>::empty().contains(s);
                                assert(idols@.contains(s));
                                assert(after_holders.contains_key(s) && after_holders[s] == hero);
                            }
                            self.hero_idols.insert(hero, idols);
                            assert(events@ =~= old(events)@ + seq![]);
                        }
                    },
                }
                assert(self@ =~= release_idol(before, serial).0);
            },
        }
    }
}

impl UrnTracker {
    /// One touched entry (see `urn_delta`).
    fn apply_delta(
        &mut self,
        d: &ModifierDelta,
        heroes: &HashMap<usize, i64>,
        tick: i32,
        events: &mut Vec<UrnEvent>,
        gone: &mut Vec<u32>,
    )
        requires
            old(self).wf(),
        ensures
            final(self).wf(),
            final(self)@ == urn_delta(old(self)@, *d, heroes@, tick).0,
            final(events)@ == old(events)@ + urn_delta(old(self)@, *d, heroes@, tick).1,
            final(gone)@ == old(gone)@ + urn_delta(old(self)@, *d, heroes@, tick).2,
    {
        let ghost st = self@;
        let ghost ev0 = events@;
        let removed = match d.entry_type {
            Some(t) => t == ENTRY_REMOVED,
            None => false,
        };
        let prev = match self.slots.get(&d.index) {
            Some(s) => Some(*s),
            None => None,
        };
        match prev {
            Some(old_serial) => {
                if old_serial != d.serial {
                    self.slots.remove(&d.index);
                    gone.push(old_serial);
                    self.returned.remove(&old_serial);
                } else if removed {
                    self.slots.remove(&d.index);
                }
            },
            None => {},
        }
        let ghost st1 = self@;
        if removed {
            self.release(d.serial, events);
            self.returned.remove(&d.serial);
            proof {
                assert(self@ =~= urn_delta(st, *d, heroes@, tick).0);
                assert(gone@ =~= old(gone)@ + urn_delta(st, *d, heroes@, tick).2);
            }
            return;
        }
        let golden = match d.ability_subclass {
            Some(a) => a == GOLDEN_IDOL_ABILITY,
            None => false,
        };
        let ret = match d.modifier_subclass {
            Some(m) => m == IDOL_RETURN_MODIFIER,
            None => false,
        };
        if !golden && !ret {
            self.slots.remove(&d.index);
            proof {
                assert(self@ =~= urn_delta(st, *d, heroes@, tick).0);
                assert(events@ =~= ev0 + urn_delta(st, *d, heroes@, tick).1);
                assert(gone@ =~= old(gone)@ + urn_delta(st, *d, heroes@, tick).2);
            }
            return;
        }
        let pawn = match d.parent {
            Some(p) => p,
            None => {
                proof {
                    assert(self@ =~= urn_delta(st, *d, heroes@, tick).0);
                    assert(events@ =~= ev0 + urn_delta(st, *d, heroes@, tick).1);
                    assert(gone@ =~= old(gone)@ + urn_delta(st, *d, heroes@, tick).2);
                }
                return;
            },
        };
        let hero = match heroes.get(&pawn) {
            Some(h) => *h,
            None => {
                proof {
                    assert(self@ =~= urn_delta(st, *d, heroes@, tick).0);
                    assert(events@ =~= ev0 + urn_delta(st, *d, heroes@, tick).1);
                    assert(gone@ =~= old(gone)@ + urn_delta(st, *d, heroes@, tick).2);
                }
                return;
            },
        };
        self.slots.insert(d.index, d.serial);
        let ghost ev1 = events@;
        if golden && !self.holders.contains_key(&d.serial) {
            proof {
                self.lemma_holds(hero);
            }
            let held = self.hero_idols.contains_key(&hero);
            if !held {
                events.push(UrnEvent { kind: UrnEventKind::PickedUp, hero_id: hero, pawn: Some(pawn) });
            }
            let mut idols = match self.hero_idols.remove(&hero) {
                Some(s) => s,
                None => HashSet::new(),
            };
            idols.insert(d.serial);
            self.hero_idols.insert(hero, idols);
            self.holders.insert(d.serial, hero);
        }
        let ghost ev2 = events@;
        if ret {
            let fresh = self.returned.insert(d.serial);
            if fresh {
                let last: i64 = match self.last_return.get(&hero) {
                    Some(t) => *t as i64,
                    None => NO_RETURN_TICK,
                };
                if tick as i64 - last > RETURN_REPEAT_TICKS {
                    events.push(UrnEvent { kind: UrnEventKind::Returned, hero_id: hero, pawn: Some(pawn) });
                    self.last_return.insert(hero, tick);
                }
            }
        }
        proof {
            assert(self@ =~= urn_delta(st, *d, heroes@, tick).0);
            assert(events@ =~= ev0 + urn_delta(st, *d, heroes@, tick).1);
            assert(gone@ =~= old(gone)@ + urn_delta(st, *d, heroes@, tick).2);
        }
    }
}

impl UrnTracker {
    /// One tick of the modifier table: its touched entries in the order
    /// given, then the idols whose slot another serial took. Returns what
    /// happened to the urn, in order (see `urn_tick`).
    pub fn observe_tick(&mut self, deltas: &Vec<ModifierDelta>, heroes: &HashMap<usize, i64>, tick: i32) -> (events: Vec<UrnEvent>)
        requires
            old(self).wf(),
        ensures
            final(self).wf(),
            final(self)@ == urn_tick(old(self)@, deltas@, heroes@, tick).0,
            events@ == urn_tick(old(self)@, deltas@, heroes@, tick).1,
    {
        let ghost st = self@;
        let mut events: Vec<UrnEvent> = Vec::new();
        let mut gone: Vec<u32> = Vec::new();
        let n = deltas.len();
        let mut i: usize = 0;
        while i < n
            invariant
                n == deltas@.len(),
                i <= n,
                self.wf(),
                self@ == urn_deltas(st, deltas@.take(i as int), heroes@, tick).0,
                events@ == urn_deltas(st, deltas@.take(i as int), heroes@, tick).1,
                gone@ == urn_deltas(st, deltas@.take(i as int), heroes@, tick).2,
            decreases n - i,
        {
            assert(deltas@.take(i + 1).drop_last() =~= deltas@.take(i as int));
            self.apply_delta(&deltas[i], heroes, tick, &mut events, &mut gone);
            i = i + 1;
        }
        assert(deltas@.take(n as int) =~= deltas@);
        let ghost mid = self@;
        let ghost ev_mid = events@;
        let m = gone.len();
        let mut j: usize = 0;
        while j < m
            invariant
                m == gone@.len(),
                j <= m,
                self.wf(),
                self@ == release_all(mid, gone@.take(j as int)).0,
                events@ == ev_mid + release_all(mid, gone@.take(j as int)).1,
            decreases m - j,
        {
            assert(gone@.take(j + 1).drop_last() =~= gone@.take(j as int));
            self.release(gone[j], &mut events);
            proof {
                let prev = release_all(mid, gone@.take(j as int)).1;
                let step = release_idol(release_all(mid, gone@.take(j as int)).0, gone@[j as int]).1;
                assert(ev_mid + prev + step =~= ev_mid + (prev + step));
            }
            j = j + 1;
        }
        assert(gone@.take(m as int) =~= gone@);
        events
    }
}

/// Strictly increasing.
pub open spec fn increasing_usize(s: Seq<usize>) -> bool {
    forall|i: int, j: int| 0 <= i < j < s.len() ==> s[i] < s[j]
}

/// Insert `x` into the strictly increasing `xs`, unless present.
fn insert_index(xs: &mut Vec<usize>, x: usize)
    requires
        increasing_usize(old(xs)@),
    ensures
        increasing_usize(final(xs)@),
        final(xs)@.to_set() == old(xs)@.to_set().insert(x),
{
    let n = xs.len();
    let mut i: usize = 0;
    while i < n && xs[i] < x
        invariant
            n == xs@.len(),
            i <= n,
            forall|j: int| 0 <= j < i ==> xs@[j] < x,
        decreases n - i,
    {
        i = i + 1;
    }
    if i < n && xs[i] == x {
        assert(xs@.to_set().insert(x) =~= xs@.to_set()) by {
            assert(xs@.contains(x));
        }
        return;
    }
    let ghost before = xs@;
    xs.insert(i, x);
    assert(xs@ =~= before.subrange(0, i as int).push(x) + before.subrange(i as int, n as int));
    assert(xs@.to_set() =~= before.to_set().insert(x)) by {
        assert forall|y: usize| xs@.to_set().contains(y) implies before.to_set().insert(x).contains(y) by {
            let k = choose|k: int| 0 <= k < xs@.len() && xs@[k] == y;
            if k < i {
                assert(before[k] == y);
            } else if k > i {
                assert(before[k - 1] == y);
            }
        }
        assert forall|y: usize| before.to_set().insert(x).contains(y) implies xs@.to_set().contains(y) by {
            if y == x {
                assert(xs@[i as int] == x);
            } else {
                let k = choose|k: int| 0 <= k < before.len() && before[k] == y;
                if k < i {
                    assert(xs@[k] == y);
                } else {
                    assert(xs@[k + 1] == y);
                }
            }
        }
    }
}

/// The distinct table indices a tick touched, in increasing order (the
/// order in which their entries are read).
pub fn sorted_distinct_indices(indices: &Vec<usize>) -> (r: Vec<usize>)
    ensures
        increasing_usize(r@),
        r@.to_set() == indices@.to_set(),
{
    let mut r: Vec<usize> = Vec::new();
    let n = indices.len();
    let mut i: usize = 0;
    while i < n
        invariant
            n == indices@.len(),
            i <= n,
            increasing_usize(r@),
            r@.to_set() == indices@.subrange(0, i as int).to_set(),
        decreases n - i,
    {
        insert_index(&mut r, indices[i]);
        assert(indices@.subrange(0, i + 1).to_set() =~= indices@.subrange(0, i as int).to_set().insert(
            indices@[i as int],
        )) by {
            assert(indices@.subrange(0, i + 1) =~= indices@.subrange(0, i as int).push(indices@[i as int]));
            indices@.subrange(0, i as int).lemma_push_to_set_commute(indices@[i as int]);
        }
        i = i + 1;
    }
    assert(indices@.subrange(0, n as int) =~= indices@);
    r
}

/// State of an idol delivery point: disabled, and the team it is open for.
#[derive(Clone, Copy, PartialEq, Eq, Structural, Debug)]
pub struct TriggerState {
    pub disabled: bool,
    pub team_num: i64,
}

impl SameState for TriggerState {
    fn same(&self, other: &Self) -> (r: bool) {
        *self == *other
    }
}

#[derive(Clone, Copy, PartialEq, Eq, Structural, Debug)]
pub enum DeliveryEvent {
    Active,
    Inactive,
}

/// What a delivery point's new state reports: nothing unless it changed;
/// open when enabled for a team; closed when disabled right after being
/// seen enabled.
pub open spec fn delivery_outcome(seen: Map<i32, TriggerState>, idx: i32, cur: TriggerState) -> Option<
    DeliveryEvent,
> {
    if !state_changed(seen, idx, cur) {
        None
    } else if !cur.disabled && cur.team_num != 0 {
        Some(DeliveryEvent::Active)
    } else if cur.disabled && seen.contains_key(idx) && !seen[idx].disabled {
        Some(DeliveryEvent::Inactive)
    } else {
        None
    }
}

/// A delivery point reports, over its last seen (disabled, team) state:
/// open whenever that state changes (or is first seen) to enabled for a
/// team, whichever of the two changed; closed whenever it turns disabled
/// after being seen enabled; nothing when the state is what was last seen;
/// and open or closed only in those cases.
pub proof fn lemma_delivery_reports(seen: Map<i32, TriggerState>, idx: i32, cur: TriggerState)
    ensures
        ({
            let same = seen.contains_key(idx) && seen[idx].disabled == cur.disabled
                && seen[idx].team_num == cur.team_num;
            let r = delivery_outcome(seen, idx, cur);
            &&& !same && !cur.disabled && cur.team_num != 0 ==> r == Some(DeliveryEvent::Active)
            &&& cur.disabled && seen.contains_key(idx) && !seen[idx].disabled ==> r == Some(
                DeliveryEvent::Inactive,
            )
            &&& same ==> r is None
            &&& r == Some(DeliveryEvent::Active) ==> !same && !cur.disabled && cur.team_num != 0
            &&& r == Some(DeliveryEvent::Inactive) ==> cur.disabled && seen.contains_key(idx)
                && !seen[idx].disabled
        }),
{
}

/// The last state seen of each delivery point.
pub struct DeliveryTracker {
    prev: HashMap<i32, TriggerState>,
}

impl View for DeliveryTracker {
    type V = Map<i32, TriggerState>;

    closed spec fn view(&self) -> Map<i32, TriggerState> {
        self.prev@
    }
}

impl DeliveryTracker {
    pub fn new() -> (t: Self)
        ensures
            t@ == Map::<i32, TriggerState>::empty(),
    {
        DeliveryTracker { prev: HashMap::new() }
    }

    /// Record delivery point `idx` at this tick (see `delivery_outcome`).
    pub fn observe(&mut self, idx: i32, cur: TriggerState) -> (r: Option<DeliveryEvent>)
        ensures
            r == delivery_outcome(old(self)@, idx, cur),
            final(self)@ == if state_changed(old(self)@, idx, cur) {
                old(self)@.insert(idx, cur)
            } else {
                old(self)@
            },
    {
        let prev = match self.prev.get(&idx) {
            Some(p) => Some(*p),
            None => None,
        };
        let changed = match prev {
            None => true,
            Some(p) => !p.same(&cur),
        };
        if !changed {
            return None;
        }
        self.prev.insert(idx, cur);
        if !cur.disabled && cur.team_num != 0 {
            Some(DeliveryEvent::Active)
        } else if cur.disabled {
            match prev {
                Some(p) => if !p.disabled {
                    Some(DeliveryEvent::Inactive)
                } else {
                    None
                },
                None => None,
            }
        } else {
            None
        }
    }
}

/// Whether `hero` carries the urn after `evs`, having carried it (`held`)
/// before them.
pub open spec fn carries_after(evs: Seq<UrnEvent>, hero: i64, held: bool) -> bool
    decreases evs.len(),
{
    if evs.len() == 0 {
        held
    } else {
        let e = evs.last();
        if e.hero_id == hero && e.kind == UrnEventKind::PickedUp {
            true
        } else if e.hero_id == hero && e.kind == UrnEventKind::Dropped {
            false
        } else {
            carries_after(evs.drop_last(), hero, held)
        }
    }
}

/// In `evs`, `hero` picks the urn up only while not carrying it and drops
/// it only while carrying it.
pub open spec fn pickups_alternate(evs: Seq<UrnEvent>, hero: i64, held: bool) -> bool
    decreases evs.len(),
{
    if evs.len() == 0 {
        true
    } else {
        let e = evs.last();
        let before = carries_after(evs.drop_last(), hero, held);
        &&& pickups_alternate(evs.drop_last(), hero, held)
        &&& (e.hero_id == hero && e.kind == UrnEventKind::PickedUp ==> !before)
        &&& (e.hero_id == hero && e.kind == UrnEventKind::Dropped ==> before)
    }
}

proof fn lemma_events_concat(e1: Seq<UrnEvent>, e2: Seq<UrnEvent>, hero: i64, held: bool)
    ensures
        carries_after(e1 + e2, hero, held) == carries_after(e2, hero, carries_after(e1, hero, held)),
        pickups_alternate(e1 + e2, hero, held) == (pickups_alternate(e1, hero, held)
            && pickups_alternate(e2, hero, carries_after(e1, hero, held))),
    decreases e2.len(),
{
    if e2.len() == 0 {
        assert(e1 + e2 =~= e1);
    } else {
        assert((e1 + e2).drop_last() =~= e1 + e2.drop_last());
        lemma_events_concat(e1, e2.drop_last(), hero, held);
    }
}

proof fn lemma_event_single(e: UrnEvent, hero: i64, held: bool)
    ensures
        carries_after(seq![e], hero, held) == (if e.hero_id == hero && e.kind == UrnEventKind::PickedUp {
            true
        } else if e.hero_id == hero && e.kind == UrnEventKind::Dropped {
            false
        } else {
            held
        }),
        pickups_alternate(seq![e], hero, held) == ((e.hero_id == hero && e.kind
            == UrnEventKind::PickedUp ==> !held) && (e.hero_id == hero && e.kind
            == UrnEventKind::Dropped ==> held)),
{
    assert(seq![e].drop_last() =~= Seq::<UrnEvent>::empty());
    assert(carries_after(Seq::<UrnEvent>::empty(), hero, held) == held);
    assert(pickups_alternate(Seq::<UrnEvent>::empty(), hero, held));
}

proof fn lemma_holds_remove(m: Map<u32, i64>, s: u32, hero: i64)
    requires
        m.contains_key(s),
        m[s] != hero,
    ensures
        hero_holds(m.remove(s), hero) == hero_holds(m, hero),
{
    if hero_holds(m, hero) {
        let t = choose|t: u32| m.contains_key(t) && m[t] == hero;
        assert(m.remove(s).contains_key(t) && m.remove(s)[t] == hero);
    }
    if hero_holds(m.remove(s), hero) {
        let t = choose|t: u32| m.remove(s).contains_key(t) && m.remove(s)[t] == hero;
        assert(m.contains_key(t) && m[t] == hero);
    }
}

proof fn lemma_holds_insert(m: Map<u32, i64>, s: u32, owner: i64, hero: i64)
    requires
        !m.contains_key(s),
    ensures
        hero_holds(m.insert(s, owner), hero) == (hero == owner || hero_holds(m, hero)),
{
    if hero == owner {
        assert(m.insert(s, owner).contains_key(s) && m.insert(s, owner)[s] == hero);
    }
    if hero_holds(m, hero) {
        let t = choose|t: u32| m.contains_key(t) && m[t] == hero;
        assert(m.insert(s, owner).contains_key(t) && m.insert(s, owner)[t] == hero);
    }
    if hero_holds(m.insert(s, owner), hero) && hero != owner {
        let t = choose|t: u32| m.insert(s, owner).contains_key(t) && m.insert(s, owner)[t] == hero;
        assert(m.contains_key(t) && m[t] == hero);
    }
}

proof fn lemma_release_alternates(st: UrnState, serial: u32, hero: i64)
    ensures
        ({
            let (st2, evs) = release_idol(st, serial);
            &&& pickups_alternate(evs, hero, hero_holds(st.holders, hero))
            &&& carries_after(evs, hero, hero_holds(st.holders, hero)) == hero_holds(st2.holders, hero)
        }),
{
    if st.holders.contains_key(serial) {
        let owner = st.holders[serial];
        let rest = st.holders.remove(serial);
        assert(hero_holds(st.holders, owner)) by {
            assert(st.holders.contains_key(serial) && st.holders[serial] == owner);
        }
        if hero != owner {
            lemma_holds_remove(st.holders, serial, hero);
        }
        let held = hero_holds(st.holders, hero);
        if !hero_holds(rest, owner) {
            lemma_event_single(urn_event(UrnEventKind::Dropped, owner, None), hero, held);
        }
    }
}

proof fn lemma_release_all_alternates(st: UrnState, serials: Seq<u32>, hero: i64)
    ensures
        ({
            let (st2, evs) = release_all(st, serials);
            &&& pickups_alternate(evs, hero, hero_holds(st.holders, hero))
            &&& carries_after(evs, hero, hero_holds(st.holders, hero)) == hero_holds(st2.holders, hero)
        }),
    decreases serials.len(),
{
    if serials.len() > 0 {
        let (s1, e1) = release_all(st, serials.drop_last());
        lemma_release_all_alternates(st, serials.drop_last(), hero);
        lemma_release_alternates(s1, serials.last(), hero);
        lemma_events_concat(e1, release_idol(s1, serials.last()).1, hero, hero_holds(st.holders, hero));
    }
}

proof fn lemma_delta_alternates(st: UrnState, d: ModifierDelta, heroes: Map<usize, i64>, tick: i32, hero: i64)
    ensures
        ({
            let (st2, evs, _g) = urn_delta(st, d, heroes, tick);
            &&& pickups_alternate(evs, hero, hero_holds(st.holders, hero))
            &&& carries_after(evs, hero, hero_holds(st.holders, hero)) == hero_holds(st2.holders, hero)
        }),
{
    let removed = d.entry_type == Some(ENTRY_REMOVED);
    let reused = st.slots.contains_key(d.index) && st.slots[d.index] != d.serial;
    let slots1 = if st.slots.contains_key(d.index) && (reused || removed) {
        st.slots.remove(d.index)
    } else {
        st.slots
    };
    let returned1 = if reused {
        st.returned.remove(st.slots[d.index])
    } else {
        st.returned
    };
    let st1 = UrnState {
        holders: st.holders,
        slots: slots1,
        returned: returned1,
        last_return: st.last_return,
    };
    let golden = d.ability_subclass == Some(GOLDEN_IDOL_ABILITY);
    let ret = d.modifier_subclass == Some(IDOL_RETURN_MODIFIER);
    if removed {
        lemma_release_alternates(st1, d.serial, hero);
    } else if !golden && !ret {
    } else if d.parent is None || !heroes.contains_key(d.parent->0) {
    } else {
        let pawn = d.parent->0;
        let owner = heroes[pawn];
        let picks = golden && !st1.holders.contains_key(d.serial);
        let evs = urn_delta(st, d, heroes, tick).1;
        let held = hero_holds(st.holders, hero);
        let e1 = if picks && !hero_holds(st1.holders, owner) {
            seq![urn_event(UrnEventKind::PickedUp, owner, Some(pawn))]
        } else {
            seq![]
        };
        let fresh = ret && !st1.returned.contains(d.serial);
        let last: int = if st1.last_return.contains_key(owner) {
            st1.last_return[owner] as int
        } else {
            NO_RETURN_TICK as int
        };
        let reports = fresh && tick - last > RETURN_REPEAT_TICKS;
        let e2 = if reports {
            seq![urn_event(UrnEventKind::Returned, owner, Some(pawn))]
        } else {
            seq![]
        };
        assert(evs == e1 + e2);
        if picks {
            lemma_holds_insert(st.holders, d.serial, owner, hero);
        }
        if picks && !hero_holds(st1.holders, owner) {
            lemma_event_single(urn_event(UrnEventKind::PickedUp, owner, Some(pawn)), hero, held);
        }
        if reports {
            lemma_event_single(
                urn_event(UrnEventKind::Returned, owner, Some(pawn)),
                hero,
                carries_after(e1, hero, held),
            );
        }
        lemma_events_concat(e1, e2, hero, held);
    }
}

proof fn lemma_deltas_alternate(st: UrnState, ds: Seq<ModifierDelta>, heroes: Map<usize, i64>, tick: i32, hero: i64)
    ensures
        ({
            let (st2, evs, _g) = urn_deltas(st, ds, heroes, tick);
            &&& pickups_alternate(evs, hero, hero_holds(st.holders, hero))
            &&& carries_after(evs, hero, hero_holds(st.holders, hero)) == hero_holds(st2.holders, hero)
        }),
    decreases ds.len(),
{
    if ds.len() > 0 {
        let (s1, e1, _g1) = urn_deltas(st, ds.drop_last(), heroes, tick);
        lemma_deltas_alternate(st, ds.drop_last(), heroes, tick, hero);
        lemma_delta_alternates(s1, ds.last(), heroes, tick, hero);
        lemma_events_concat(e1, urn_delta(s1, ds.last(), heroes, tick).1, hero, hero_holds(st.holders, hero));
    }
}

/// Within a tick, each hero's reported pickups and drops of the urn
/// alternate (a pickup only while the hero carries no idol, a drop only
/// while it carries one), and after them the hero is reported carrying the
/// urn exactly when some idol serial is on it.
pub proof fn lemma_urn_pickups_alternate(
    st: UrnState,
    ds: Seq<ModifierDelta>,
    heroes: Map<usize, i64>,
    tick: i32,
    hero: i64,
)
    ensures
        ({
            let (st2, evs) = urn_tick(st, ds, heroes, tick);
            &&& pickups_alternate(evs, hero, hero_holds(st.holders, hero))
            &&& carries_after(evs, hero, hero_holds(st.holders, hero)) == hero_holds(st2.holders, hero)
        }),
{
    let (s1, e1, gone) = urn_deltas(st, ds, heroes, tick);
    lemma_deltas_alternate(st, ds, heroes, tick, hero);
    lemma_release_all_alternates(s1, gone, hero);
    lemma_events_concat(e1, release_all(s1, gone).1, hero, hero_holds(st.holders, hero));
}

fn urn_event_dropped(hero: i64) -> (e: UrnEvent)
    ensures
        e == urn_event(UrnEventKind::Dropped, hero, None),
{
    UrnEvent { kind: UrnEventKind::Dropped, hero_id: hero, pawn: None }
}

} // verus!
