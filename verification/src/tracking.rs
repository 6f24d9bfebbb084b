//! Per-entity change detection across ticks: a row is emitted only when an
//! entity's tracked state changes, and the live barrier of each pawn is kept
//! from the modifier entries that carry it.
use vstd::prelude::*;
use std::collections::BTreeMap;
use std::collections::HashMap;

verus! {

broadcast use vstd::std_specs::hash::group_hash_axioms;

/// A tracked state, compared field by field.
pub trait SameState: Sized {
    fn same(&self, other: &Self) -> (r: bool)
        ensures
            r == (*self == *other),
    ;
}

/// Health state of an objective: health, max health and (for the patron)
/// the phase.
#[derive(Clone, Copy, PartialEq, Eq, Structural, Debug)]
pub struct ObjectiveHealth {
    pub health: i64,
    pub max_health: i64,
    pub phase: i64,
}

impl SameState for ObjectiveHealth {
    fn same(&self, other: &Self) -> (r: bool) {
        *self == *other
    }
}

/// State of an objective NPC: health, max health, team and lane.
#[derive(Clone, Copy, PartialEq, Eq, Structural, Debug)]
pub struct ObjectiveState {
    pub health: i64,
    pub max_health: i64,
    pub team_num: i64,
    pub lane: i64,
}

impl SameState for ObjectiveState {
    fn same(&self, other: &Self) -> (r: bool) {
        *self == *other
    }
}

/// State of a neutral creep while alive: health, max health and the bit
/// patterns of its position.
#[derive(Clone, Copy, PartialEq, Eq, Structural, Debug)]
pub struct NeutralState {
    pub health: i64,
    pub max_health: i64,
    pub x_bits: u32,
    pub y_bits: u32,
    pub z_bits: u32,
}

impl SameState for NeutralState {
    fn same(&self, other: &Self) -> (r: bool) {
        *self == *other
    }
}

/// State of a lane trooper while alive: health, max health, team, lane and
/// the bit patterns of its position.
#[derive(Clone, Copy, PartialEq, Eq, Structural, Debug)]
pub struct TrooperState {
    pub health: i64,
    pub max_health: i64,
    pub team_num: i64,
    pub lane: i64,
    pub x_bits: u32,
    pub y_bits: u32,
    pub z_bits: u32,
}

impl SameState for TrooperState {
    fn same(&self, other: &Self) -> (r: bool) {
        *self == *other
    }
}

/// Cooldown and charge state of an ability: the bit patterns of its
/// cooldown and recharge times, and its remaining charges.
#[derive(Clone, Copy, PartialEq, Eq, Structural, Debug)]
pub struct AbilityTickState {
    pub cooldown_start_bits: u32,
    pub cooldown_end_bits: u32,
    pub remaining_charges: i32,
    pub recharge_start_bits: u32,
    pub recharge_end_bits: u32,
}

impl SameState for AbilityTickState {
    fn same(&self, other: &Self) -> (r: bool) {
        *self == *other
    }
}

/// Entity classes of abilities are the classes whose name contains
/// "Ability".
pub fn is_ability_class(class_name: &str) -> (r: bool)
    ensures
        r == crate::text::occurs_in(class_name@, "Ability"@),
{
    crate::text::contains_text(class_name, "Ability")
}

/// The hero an ability's row belongs to: only abilities whose class has
/// cooldown and charge fields, owned by a pawn of a known hero, have rows.
pub fn ability_tick_hero(has_cooldown_end: bool, has_remaining_charges: bool, owner_hero: Option<i64>) -> (r:
    Option<i64>)
    ensures
        r == (if has_cooldown_end && has_remaining_charges && owner_hero is Some && owner_hero->0 != 0 {
            owner_hero
        } else {
            None
        }),
{
    if !has_cooldown_end || !has_remaining_charges {
        return None;
    }
    match owner_hero {
        Some(h) => if h != 0 {
            Some(h)
        } else {
            None
        },
        None => None,
    }
}

/// The last state seen of each entity index.
pub struct ChangeTracker<S> {
    prev: HashMap<i32, S>,
}

impl<S> View for ChangeTracker<S> {
    type V = Map<i32, S>;

    closed spec fn view(&self) -> Map<i32, S> {
        self.prev@
    }
}

/// A state differs from the last one seen of an entity (or none was seen).
pub open spec fn state_changed<S>(seen: Map<i32, S>, idx: i32, state: S) -> bool {
    !(seen.contains_key(idx) && seen[idx] == state)
}

impl<S: Copy + SameState> ChangeTracker<S> {
    /// A tracker that has seen nothing.
    pub fn new() -> (t: Self)
        ensures
            t@ == Map::<i32, S>::empty(),
    {
        ChangeTracker { prev: HashMap::new() }
    }

    /// Record the state of entity `idx` at this tick; true (emit a row) when
    /// it differs from the last state seen of it, or none was seen.
    pub fn observe(&mut self, idx: i32, state: S) -> (changed: bool)
        ensures
            changed == state_changed(old(self)@, idx, state),
            final(self)@ == if changed {
                old(self)@.insert(idx, state)
            } else {
                old(self)@
            },
    {
        let changed = match self.prev.get(&idx) {
            None => true,
            Some(p) => !p.same(&state),
        };
        if changed {
            self.prev.insert(idx, state);
        }
        changed
    }
}

/// The last (alive, state) seen of each entity index, for entities whose
/// rows are emitted only while alive.
pub struct LifeTracker<S> {
    prev: HashMap<i32, (bool, S)>,
}

impl<S> View for LifeTracker<S> {
    type V = Map<i32, (bool, S)>;

    closed spec fn view(&self) -> Map<i32, (bool, S)> {
        self.prev@
    }
}

/// An entity's life changed, or it is alive and its state changed (a dead
/// entity's state is not compared), or it was never seen.
pub open spec fn life_changed<S>(seen: Map<i32, (bool, S)>, idx: i32, alive: bool, state: S) -> bool {
    !seen.contains_key(idx) || alive != seen[idx].0 || (alive && state != seen[idx].1)
}

impl<S: Copy + SameState> LifeTracker<S> {
    /// A tracker that has seen nothing.
    pub fn new() -> (t: Self)
        ensures
            t@ == Map::<i32, (bool, S)>::empty(),
    {
        LifeTracker { prev: HashMap::new() }
    }

    /// Record entity `idx` at this tick; true (emit a row) when it changed
    /// (see `life_changed`) and is alive.
    pub fn observe(&mut self, idx: i32, alive: bool, state: S) -> (emit: bool)
        ensures
            emit == (life_changed(old(self)@, idx, alive, state) && alive),
            final(self)@ == if life_changed(old(self)@, idx, alive, state) {
                old(self)@.insert(idx, (alive, state))
            } else {
                old(self)@
            },
    {
        let changed = match self.prev.get(&idx) {
            None => true,
            Some(p) => alive != p.0 || (alive && !state.same(&p.1)),
        };
        if changed {
            self.prev.insert(idx, (alive, state));
        }
        changed && alive
    }
}

/// Change-only rows: after a state of an entity is recorded, seeing the
/// same state again reports nothing.
pub proof fn lemma_state_reported_once<S>(seen: Map<i32, S>, idx: i32, state: S)
    ensures
        ({
            let after = if state_changed(seen, idx, state) {
                seen.insert(idx, state)
            } else {
                seen
            };
            !state_changed(after, idx, state)
        }),
{
}

/// Change-only rows of living entities: after an entity's life and state
/// are recorded, seeing them again reports nothing.
pub proof fn lemma_life_reported_once<S>(seen: Map<i32, (bool, S)>, idx: i32, alive: bool, state: S)
    ensures
        ({
            let after = if life_changed(seen, idx, alive, state) {
                seen.insert(idx, (alive, state))
            } else {
                seen
            };
            !life_changed(after, idx, alive, state)
        }),
{
}

/// Number of set bits.
pub open spec fn popcount(x: u32) -> nat
    decreases x,
{
    if x == 0 {
        0
    } else {
        (x % 2) as nat + popcount(x / 2)
    }
}

proof fn lemma_popcount_bound(x: u32, k: nat)
    requires
        x < pow2_u(k),
    ensures
        popcount(x) <= k,
    decreases k,
{
    if x != 0 && k > 0 {
        lemma_popcount_bound(x / 2, (k - 1) as nat);
    }
}

/// 2 to the `k`.
pub open spec fn pow2_u(k: nat) -> int
    decreases k,
{
    if k == 0 {
        1
    } else {
        2 * pow2_u((k - 1) as nat)
    }
}

/// The number of set bits of `x`.
pub fn count_ones(x: u32) -> (r: u32)
    ensures
        r == popcount(x),
        r <= 32,
{
    proof {
        reveal_with_fuel(pow2_u, 33);
        assert(pow2_u(32) == 0x1_0000_0000);
        lemma_popcount_bound(x, 32);
    }
    let mut v = x;
    let mut c: u32 = 0;
    while v != 0
        invariant
            c + popcount(v) == popcount(x),
            popcount(x) <= 32,
        decreases v,
    {
        c = c + v % 2;
        v = v / 2;
    }
    c
}

/// Upgrade tier of a set of upgrade bits: one less than the number of bits
/// set, over the bits' 32-bit pattern.
pub open spec fn upgrade_tier(bits: i32) -> int {
    popcount(bits as u32) - 1
}

/// The last upgrade bits seen of each (controller index, ability slot).
pub struct UpgradeTracker {
    prev: BTreeMap<(i32, usize), i32>,
}

/// The bits last seen of a slot, 0 when none were.
pub open spec fn seen_bits(seen: Map<(i32, usize), i32>, key: (i32, usize)) -> i32 {
    if seen.contains_key(key) {
        seen[key]
    } else {
        0
    }
}

impl View for UpgradeTracker {
    type V = Map<(i32, usize), i32>;

    closed spec fn view(&self) -> Map<(i32, usize), i32> {
        self.prev@
    }
}

/// The bits last seen of a slot, 0 when none were.
fn last_bits(seen: &BTreeMap<(i32, usize), i32>, key: (i32, usize)) -> (r: i32)
    ensures
        r == seen_bits(seen@, key),
{
    broadcast use vstd::std_specs::btree::group_btree_axioms, vstd::laws_cmp::group_laws_cmp;

    match seen.get(&key) {
        Some(b) => *b,
        None => 0,
    }
}

/// Remember the bits of a slot.
fn remember_bits(seen: &mut BTreeMap<(i32, usize), i32>, key: (i32, usize), bits: i32)
    ensures
        final(seen)@ == old(seen)@.insert(key, bits),
{
    broadcast use vstd::std_specs::btree::group_btree_axioms, vstd::laws_cmp::group_laws_cmp;

    seen.insert(key, bits);
}

impl UpgradeTracker {
    /// A tracker that has seen nothing.
    pub fn new() -> (t: Self)
        ensures
            t@ == Map::<(i32, usize), i32>::empty(),
    {
        UpgradeTracker { prev: BTreeMap::new() }
    }

    /// Record the upgrade bits of an ability slot of a controller. When they
    /// differ from the bits last seen there (0 when none were) they are
    /// remembered, and when they also grew (an upgrade, not a reset) the
    /// upgrade's tier is returned.
    pub fn observe(&mut self, idx: i32, slot: usize, bits: i32) -> (tier: Option<i32>)
        ensures
            ({
                let prev = seen_bits(old(self)@, (idx, slot));
                &&& final(self)@ == if bits != prev {
                    old(self)@.insert((idx, slot), bits)
                } else {
                    old(self)@
                }
                &&& tier == if bits != prev && bits > prev {
                    Some(upgrade_tier(bits) as i32)
                } else {
                    None
                }
            }),
    {
        let prev = last_bits(&self.prev, (idx, slot));
        if bits == prev {
            return None;
        }
        remember_bits(&mut self.prev, (idx, slot), bits);
        if bits > prev {
            let ones = count_ones(#[verifier::truncate] (bits as u32));
            Some(ones as i32 - 1)
        } else {
            None
        }
    }
}

/// Subclass id of the persistent `modifier_barrier_tracker` modifier, whose
/// entries carry each pawn's live barrier.
pub const BARRIER_TRACKER_MODIFIER_ID: u32 = 4_267_845_006;

/// Live barrier remaining of each pawn, keyed by the modifier entry serial
/// that last reported it. Each pawn is held by one serial and each serial
/// holds at most one pawn.
pub struct BarrierState<V> {
    remaining_by_pawn: HashMap<i32, V>,
    serial_to_pawn: HashMap<u32, i32>,
    pawn_to_serial: HashMap<i32, u32>,
}

/// The pawn that `serial` holds, if any.
pub open spec fn holder<V>(m: Map<i32, (u32, V)>, serial: u32) -> Option<i32> {
    if exists|p: i32| m.contains_key(p) && m[p].0 == serial {
        Some(choose|p: i32| m.contains_key(p) && m[p].0 == serial)
    } else {
        None
    }
}

/// No two pawns are held by the same serial.
pub open spec fn unique_serials<V>(m: Map<i32, (u32, V)>) -> bool {
    forall|p: i32, q: i32|
        m.contains_key(p) && m.contains_key(q) && #[trigger] m[p].0 == #[trigger] m[q].0 ==> p == q
}

impl<V> View for BarrierState<V> {
    type V = Map<i32, (u32, V)>;

    /// Each pawn with a barrier, with its serial and remaining barrier.
    closed spec fn view(&self) -> Map<i32, (u32, V)> {
        Map::new(
            |p: i32| self.pawn_to_serial@.contains_key(p),
            |p: i32| (self.pawn_to_serial@[p], self.remaining_by_pawn@[p]),
        )
    }
}

impl<V: Copy> BarrierState<V> {
    /// The three maps agree: serial and pawn maps are inverse, and exactly
    /// the held pawns have a remaining barrier.
    pub closed spec fn wf(&self) -> bool {
        let s2p = self.serial_to_pawn@;
        let p2s = self.pawn_to_serial@;
        let r = self.remaining_by_pawn@;
        &&& forall|s: u32|
            #[trigger] s2p.contains_key(s) ==> p2s.contains_key(s2p[s]) && p2s[s2p[s]] == s
        &&& forall|p: i32|
            #[trigger] p2s.contains_key(p) ==> s2p.contains_key(p2s[p]) && s2p[p2s[p]] == p
        &&& forall|p: i32| #[trigger] r.contains_key(p) == p2s.contains_key(p)
    }

    /// A well-formed state holds each serial at most once.
    pub proof fn lemma_unique_serials(&self)
        requires
            self.wf(),
        ensures
            unique_serials(self@),
    {
    }

    /// No barriers yet.
    pub fn new() -> (b: Self)
        ensures
            b.wf(),
            b@ == Map::<i32, (u32, V)>::empty(),
    {
        let b = BarrierState {
            remaining_by_pawn: HashMap::new(),
            serial_to_pawn: HashMap::new(),
            pawn_to_serial: HashMap::new(),
        };
        assert(b@ =~= Map::<i32, (u32, V)>::empty());
        b
    }

    /// Forget every barrier (before a rebuild from a full modifier table).
    pub fn clear(&mut self)
        ensures
            final(self).wf(),
            final(self)@ == Map::<i32, (u32, V)>::empty(),
    {
        self.remaining_by_pawn.clear();
        self.serial_to_pawn.clear();
        self.pawn_to_serial.clear();
        assert(self@ =~= Map::<i32, (u32, V)>::empty());
    }

    /// The serial's modifier entry is gone: its pawn, if it still holds
    /// one, has no barrier any more.
    pub fn remove_serial(&mut self, serial: u32)
        requires
            old(self).wf(),
        ensures
            final(self).wf(),
            final(self)@ == match holder(old(self)@, serial) {
                Some(p) => old(self)@.remove(p),
                None => old(self)@,
            },
    {
        let ghost old_view = self@;
        match self.serial_to_pawn.remove(&serial) {
            None => {
                proof {
                    assert(holder(old_view, serial) is None) by {
                        if exists|p: i32| old_view.contains_key(p) && old_view[p].0 == serial {
                            let p = choose|p: i32| old_view.contains_key(p) && old_view[p].0 == serial;
                        }
                    }
                }
            },
            Some(pawn) => {
                let matches = match self.pawn_to_serial.get(&pawn) {
                    Some(s) => *s == serial,
                    None => false,
                };
                if matches {
                    self.pawn_to_serial.remove(&pawn);
                    self.remaining_by_pawn.remove(&pawn);
                }
                proof {
                    assert(old_view.contains_key(pawn) && old_view[pawn].0 == serial);
                    assert(holder(old_view, serial) == Some(pawn));
                    assert(self@ =~= old_view.remove(pawn));
                }
            },
        }
    }

    /// The serial's entry reports `remaining` barrier for `pawn`: the pawn
    /// is now held by this serial with that barrier, the serial's earlier
    /// pawn (if another) loses its barrier, and the pawn's earlier serial
    /// (if another) is forgotten.
    pub fn apply_barrier(&mut self, serial: u32, pawn: i32, remaining: V)
        requires
            old(self).wf(),
        ensures
            final(self).wf(),
            final(self)@ == (match holder(old(self)@, serial) {
                Some(q) => if q != pawn {
                    old(self)@.remove(q)
                } else {
                    old(self)@
                },
                None => old(self)@,
            }).insert(pawn, (serial, remaining)),
    {
        let ghost old_view = self@;
        let ghost held = holder(old_view, serial);
        if let Some(old_pawn) = self.serial_to_pawn.insert(serial, pawn) {
            proof {
                assert(old_view.contains_key(old_pawn) && old_view[old_pawn].0 == serial);
                assert(held == Some(old_pawn));
            }
            if old_pawn != pawn {
                let matches = match self.pawn_to_serial.get(&old_pawn) {
                    Some(s) => *s == serial,
                    None => false,
                };
                if matches {
                    self.pawn_to_serial.remove(&old_pawn);
                    self.remaining_by_pawn.remove(&old_pawn);
                }
            }
        } else {
            proof {
                assert(held is None) by {
                    if exists|p: i32| old_view.contains_key(p) && old_view[p].0 == serial {
                        let p = choose|p: i32| old_view.contains_key(p) && old_view[p].0 == serial;
                    }
                }
            }
        }
        if let Some(old_serial) = self.pawn_to_serial.insert(pawn, serial) {
            if old_serial != serial {
                self.serial_to_pawn.remove(&old_serial);
            }
        }
        self.remaining_by_pawn.insert(pawn, remaining);
        proof {
            let expected = (match held {
                Some(q) => if q != pawn {
                    old_view.remove(q)
                } else {
                    old_view
                },
                None => old_view,
            }).insert(pawn, (serial, remaining));
            assert(self@ =~= expected);
        }
    }

    /// Apply a live modifier entry: an entry that is not the barrier tracker
    /// removes whatever its serial held; a tracker entry whose parent handle
    /// names no pawn changes nothing; otherwise its pawn's barrier is set.
    pub fn apply_live_entry(
        &mut self,
        serial: u32,
        modifier_subclass: Option<u32>,
        pawn: Option<i32>,
        remaining: V,
    )
        requires
            old(self).wf(),
        ensures
            final(self).wf(),
            final(self)@ == if modifier_subclass != Some(BARRIER_TRACKER_MODIFIER_ID) {
                match holder(old(self)@, serial) {
                    Some(p) => old(self)@.remove(p),
                    None => old(self)@,
                }
            } else {
                match pawn {
                    None => old(self)@,
                    Some(p) => (match holder(old(self)@, serial) {
                        Some(q) => if q != p {
                            old(self)@.remove(q)
                        } else {
                            old(self)@
                        },
                        None => old(self)@,
                    }).insert(p, (serial, remaining)),
                }
            },
    {
        if modifier_subclass != Some(BARRIER_TRACKER_MODIFIER_ID) {
            self.remove_serial(serial);
            return;
        }
        match pawn {
            None => {},
            Some(p) => self.apply_barrier(serial, p, remaining),
        }
    }

    /// The barrier remaining on a pawn, none when no entry reports one.
    pub fn remaining(&self, pawn: i32) -> (r: Option<V>)
        requires
            self.wf(),
        ensures
            r == if self@.contains_key(pawn) {
                Some(self@[pawn].1)
            } else {
                None
            },
    {
        match self.remaining_by_pawn.get(&pawn) {
            Some(v) => Some(*v),
            None => None,
        }
    }
}

/// What a barrier entry reports is what is read back for its pawn, until
/// the entry is removed.
pub proof fn lemma_barrier_apply_then_read<V>(m: Map<i32, (u32, V)>, serial: u32, pawn: i32, remaining: V)
    ensures
        ({
            let after = (match holder(m, serial) {
                Some(q) => if q != pawn {
                    m.remove(q)
                } else {
                    m
                },
                None => m,
            }).insert(pawn, (serial, remaining));
            &&& after.contains_key(pawn) && after[pawn] == (serial, remaining)
            &&& holder(after, serial) is Some
        }),
{
    let after = (match holder(m, serial) {
        Some(q) => if q != pawn {
            m.remove(q)
        } else {
            m
        },
        None => m,
    }).insert(pawn, (serial, remaining));
    assert(after.contains_key(pawn) && after[pawn].0 == serial);
}

} // verus!
