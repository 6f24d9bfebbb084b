//! Modifiers on heroes as the modifier table reports them: each modifier
//! serial is reported applied once, changed whenever what it carries
//! changes, and removed once.
use vstd::prelude::*;
use std::collections::HashMap;

verus! {

broadcast use vstd::std_specs::hash::group_hash_axioms;

/// Bit pattern of the duration (and last-applied time) an entry reports
/// when it carries none: -1.0.
pub const NO_TIME_BITS: u32 = 0xBF80_0000;

/// What a live modifier entry carries, each field as the table has it.
/// Times are the bit patterns of the entry's floats.
#[derive(Clone, Copy, PartialEq, Eq, Structural, Debug)]
pub struct ModifierFields {
    pub modifier_subclass: Option<u32>,
    pub ability_subclass: Option<u32>,
    pub duration_bits: Option<u32>,
    pub last_applied_bits: Option<u32>,
    pub stack_count: Option<i32>,
}

/// A modifier as last reported.
#[derive(Clone, Copy, PartialEq, Eq, Structural, Debug)]
pub struct ModifierRecord {
    pub hero_id: i64,
    pub modifier_id: u32,
    pub ability_id: u32,
    pub duration_bits: u32,
    pub last_applied_bits: u32,
    pub caster_hero_id: i64,
    pub stacks: i32,
}

#[derive(Clone, Copy, PartialEq, Eq, Structural, Debug)]
pub enum ModifierEventKind {
    Applied,
    Changed,
    Removed,
}

pub open spec fn or_default<T>(o: Option<T>, d: T) -> T {
    match o {
        Some(v) => v,
        None => d,
    }
}

/// The record of a live entry on `hero`, cast by `caster`.
pub open spec fn record_of(hero: i64, f: ModifierFields, caster: i64) -> ModifierRecord {
    ModifierRecord {
        hero_id: hero,
        modifier_id: or_default(f.modifier_subclass, 0),
        ability_id: or_default(f.ability_subclass, 0),
        duration_bits: or_default(f.duration_bits, NO_TIME_BITS),
        last_applied_bits: or_default(f.last_applied_bits, NO_TIME_BITS),
        caster_hero_id: caster,
        stacks: or_default(f.stack_count, 0),
    }
}

/// Two records differ in what a change reports (the hero is not compared).
pub open spec fn record_changed(a: ModifierRecord, b: ModifierRecord) -> bool {
    a.modifier_id != b.modifier_id || a.ability_id != b.ability_id || a.stacks != b.stacks
        || a.caster_hero_id != b.caster_hero_id || a.duration_bits != b.duration_bits
        || a.last_applied_bits != b.last_applied_bits
}

/// A live entry for `serial`: `parent_hero` is the hero of the pawn its
/// parent handle names, if any. The hero is that one, else the one the
/// serial was last reported on; an entry on no hero is ignored. A serial
/// not seen before is applied; a seen one is changed when what it carries
/// differs (an unknown caster keeps the one reported before).
pub open spec fn live_outcome(
    prev: Map<u32, ModifierRecord>,
    serial: u32,
    parent_hero: Option<i64>,
    f: ModifierFields,
    caster: Option<i64>,
) -> (Map<u32, ModifierRecord>, Option<(ModifierEventKind, ModifierRecord)>) {
    let hero = match parent_hero {
        Some(h) => h,
        None => if prev.contains_key(serial) {
            prev[serial].hero_id
        } else {
            0
        },
    };
    let caster_id = or_default(caster, 0);
    if hero == 0 {
        (prev, None)
    } else if !prev.contains_key(serial) {
        let rec = record_of(hero, f, caster_id);
        (prev.insert(serial, rec), Some((ModifierEventKind::Applied, rec)))
    } else {
        let cached = prev[serial];
        let rec = record_of(
            hero,
            f,
            if caster_id == 0 {
                cached.caster_hero_id
            } else {
                caster_id
            },
        );
        if record_changed(rec, cached) {
            (prev.insert(serial, rec), Some((ModifierEventKind::Changed, rec)))
        } else {
            (prev, None)
        }
    }
}

/// The last record reported of each live modifier serial.
pub struct ActiveModifierTracker {
    prev: HashMap<u32, ModifierRecord>,
}

impl View for ActiveModifierTracker {
    type V = Map<u32, ModifierRecord>;

    closed spec fn view(&self) -> Map<u32, ModifierRecord> {
        self.prev@
    }
}

impl ActiveModifierTracker {
    pub fn new() -> (t: Self)
        ensures
            t@ == Map::<u32, ModifierRecord>::empty(),
    {
        ActiveModifierTracker { prev: HashMap::new() }
    }

    /// The modifier `serial` is gone: reported removed, with what it last
    /// carried, when it was live.
    pub fn removed(&mut self, serial: u32) -> (r: Option<ModifierRecord>)
        ensures
            r == (if old(self)@.contains_key(serial) {
                Some(old(self)@[serial])
            } else {
                None
            }),
            final(self)@ == old(self)@.remove(serial),
    {
        self.prev.remove(&serial)
    }

    /// A live entry for `serial` (see `live_outcome`).
    pub fn live(&mut self, serial: u32, parent_hero: Option<i64>, f: ModifierFields, caster: Option<i64>) -> (r:
        Option<(ModifierEventKind, ModifierRecord)>)
        ensures
            (final(self)@, r) == live_outcome(old(self)@, serial, parent_hero, f, caster),
    {
        let cached = match self.prev.get(&serial) {
            Some(c) => Some(*c),
            None => None,
        };
        let hero = match parent_hero {
            Some(h) => h,
            None => match cached {
                Some(c) => c.hero_id,
                None => 0,
            },
        };
        if hero == 0 {
            return None;
        }
        let caster_id = match caster {
            Some(c) => c,
            None => 0,
        };
        let record = |caster_hero_id: i64| -> (rec: ModifierRecord)
            ensures
                rec == record_of(hero, f, caster_hero_id),
            {
                ModifierRecord {
                    hero_id: hero,
                    modifier_id: match f.modifier_subclass {
                        Some(v) => v,
                        None => 0,
                    },
                    ability_id: match f.ability_subclass {
                        Some(v) => v,
                        None => 0,
                    },
                    duration_bits: match f.duration_bits {
                        Some(v) => v,
                        None => NO_TIME_BITS,
                    },
                    last_applied_bits: match f.last_applied_bits {
                        Some(v) => v,
                        None => NO_TIME_BITS,
                    },
                    caster_hero_id,
                    stacks: match f.stack_count {
                        Some(v) => v,
                        None => 0,
                    },
                }
            };
        match cached {
            None => {
                let rec = record(caster_id);
                self.prev.insert(serial, rec);
                Some((ModifierEventKind::Applied, rec))
            },
            Some(c) => {
                let rec = record(
                    if caster_id == 0 {
                        c.caster_hero_id
                    } else {
                        caster_id
                    },
                );
                let changed = rec.modifier_id != c.modifier_id || rec.ability_id != c.ability_id
                    || rec.stacks != c.stacks || rec.caster_hero_id != c.caster_hero_id
                    || rec.duration_bits != c.duration_bits || rec.last_applied_bits
                    != c.last_applied_bits;
                if changed {
                    self.prev.insert(serial, rec);
                    Some((ModifierEventKind::Changed, rec))
                } else {
                    None
                }
            },
        }
    }
}

/// A live entry seen again unchanged reports nothing and changes nothing:
/// each state of a modifier is reported once.
pub proof fn lemma_live_report_once(
    prev: Map<u32, ModifierRecord>,
    serial: u32,
    parent_hero: Option<i64>,
    f: ModifierFields,
    caster: Option<i64>,
)
    ensures
        ({
            let (m1, _r1) = live_outcome(prev, serial, parent_hero, f, caster);
            let (m2, r2) = live_outcome(m1, serial, parent_hero, f, caster);
            &&& r2 is None
            &&& m2 == m1
        }),
{
}

/// A live entry on a hero for a serial not yet recorded is reported applied,
/// and recorded, with what the entry carries: the modifier, ability and
/// stacks (0 when absent), the duration and last-applied bits (those of -1.0
/// when absent) and the caster (0 when unknown).
pub proof fn lemma_live_new_serial_applied(
    prev: Map<u32, ModifierRecord>,
    serial: u32,
    hero: i64,
    f: ModifierFields,
    caster: Option<i64>,
)
    requires
        !prev.contains_key(serial),
        hero != 0,
    ensures
        ({
            let rec = ModifierRecord {
                hero_id: hero,
                modifier_id: match f.modifier_subclass {
                    Some(v) => v,
                    None => 0,
                },
                ability_id: match f.ability_subclass {
                    Some(v) => v,
                    None => 0,
                },
                duration_bits: match f.duration_bits {
                    Some(v) => v,
                    None => 0xBF80_0000u32,
                },
                last_applied_bits: match f.last_applied_bits {
                    Some(v) => v,
                    None => 0xBF80_0000u32,
                },
                caster_hero_id: match caster {
                    Some(c) => c,
                    None => 0,
                },
                stacks: match f.stack_count {
                    Some(v) => v,
                    None => 0,
                },
            };
            let (next, r) = live_outcome(prev, serial, Some(hero), f, caster);
            &&& r == Some((ModifierEventKind::Applied, rec))
            &&& next == prev.insert(serial, rec)
        }),
{
}

/// A live entry for a serial already recorded, resolved to a hero (its
/// parent's, else the one recorded), reports a change exactly when the
/// modifier id, ability id, stacks, caster (an unknown or zero caster keeps
/// the recorded one), duration bits or last-applied bits differ from the
/// record; the change carries the new record, which replaces the old one.
/// Otherwise nothing is reported and nothing changes.
pub proof fn lemma_live_changed_exactly_when_fields_differ(
    prev: Map<u32, ModifierRecord>,
    serial: u32,
    parent_hero: Option<i64>,
    f: ModifierFields,
    caster: Option<i64>,
)
    requires
        prev.contains_key(serial),
        match parent_hero {
            Some(h) => h,
            None => prev[serial].hero_id,
        } != 0,
    ensures
        ({
            let old_rec = prev[serial];
            let hero = match parent_hero {
                Some(h) => h,
                None => old_rec.hero_id,
            };
            let new_caster = match caster {
                Some(c) => if c != 0 {
                    c
                } else {
                    old_rec.caster_hero_id
                },
                None => old_rec.caster_hero_id,
            };
            let modifier_id: u32 = match f.modifier_subclass {
                Some(v) => v,
                None => 0,
            };
            let ability_id: u32 = match f.ability_subclass {
                Some(v) => v,
                None => 0,
            };
            let duration_bits: u32 = match f.duration_bits {
                Some(v) => v,
                None => 0xBF80_0000u32,
            };
            let last_applied_bits: u32 = match f.last_applied_bits {
                Some(v) => v,
                None => 0xBF80_0000u32,
            };
            let stacks: i32 = match f.stack_count {
                Some(v) => v,
                None => 0,
            };
            let rec = ModifierRecord {
                hero_id: hero,
                modifier_id,
                ability_id,
                duration_bits,
                last_applied_bits,
                caster_hero_id: new_caster,
                stacks,
            };
            let differs = modifier_id != old_rec.modifier_id || ability_id != old_rec.ability_id
                || stacks != old_rec.stacks || new_caster != old_rec.caster_hero_id
                || duration_bits != old_rec.duration_bits || last_applied_bits
                != old_rec.last_applied_bits;
            let (next, r) = live_outcome(prev, serial, parent_hero, f, caster);
            &&& differs ==> r == Some((ModifierEventKind::Changed, rec)) && next == prev.insert(
                serial,
                rec,
            )
            &&& !differs ==> r is None && next == prev
        }),
{
}

/// An entry on no hero (no parent hero and none recorded) reports nothing
/// and changes nothing.
pub proof fn lemma_live_without_hero_ignored(
    prev: Map<u32, ModifierRecord>,
    serial: u32,
    f: ModifierFields,
    caster: Option<i64>,
)
    requires
        !prev.contains_key(serial) || prev[serial].hero_id == 0,
    ensures
        live_outcome(prev, serial, None, f, caster) == (prev, None::<(ModifierEventKind, ModifierRecord)>),
{
}

/// A removed modifier seen live again on a hero is reported applied.
pub proof fn lemma_reapplied_after_removal(
    prev: Map<u32, ModifierRecord>,
    serial: u32,
    hero: i64,
    f: ModifierFields,
    caster: Option<i64>,
)
    requires
        hero != 0,
    ensures
        ({
            let (_m, r) = live_outcome(prev.remove(serial), serial, Some(hero), f, caster);
            r == Some((ModifierEventKind::Applied, record_of(hero, f, or_default(caster, 0))))
        }),
{
}

/// Entry type of a modifier table entry that removes its modifier.
pub const REMOVAL_ENTRY: i32 = 2;

/// One report of the modifier log: the modifier in the table slot `index`
/// was replaced by another serial, or removed (either way it is reported
/// removed, with what it carried, if it was applied); a serial first seen
/// on a hero is reported applied.
pub open spec fn log_outcome(
    prev: Map<u32, ModifierRecord>,
    slots: Map<usize, u32>,
    index: usize,
    serial: u32,
    entry_type: Option<i32>,
    parent_hero: Option<i64>,
    f: ModifierFields,
    caster: Option<i64>,
) -> (Map<u32, ModifierRecord>, Map<usize, u32>, Seq<(ModifierEventKind, ModifierRecord)>) {
    let reused = slots.contains_key(index) && slots[index] != serial && prev.contains_key(slots[index]);
    let prev1 = if reused {
        prev.remove(slots[index])
    } else {
        prev
    };
    let ev1 = if reused {
        seq![(ModifierEventKind::Removed, prev[slots[index]])]
    } else {
        seq![]
    };
    if entry_type == Some(REMOVAL_ENTRY) {
        if prev1.contains_key(serial) {
            (prev1.remove(serial), slots.remove(index), ev1.push((ModifierEventKind::Removed, prev1[serial])))
        } else {
            (prev1, slots.remove(index), ev1)
        }
    } else {
        let slots2 = slots.insert(index, serial);
        match parent_hero {
            None => (prev1, slots2, ev1),
            Some(h) => if prev1.contains_key(serial) {
                (prev1, slots2, ev1)
            } else {
                let rec = record_of(h, f, or_default(caster, 0));
                (prev1.insert(serial, rec), slots2, ev1.push((ModifierEventKind::Applied, rec)))
            },
        }
    }
}

/// The modifiers applied to heroes and the serial last seen in each table
/// slot: each modifier is reported applied once and removed once.
pub struct ModifierLog {
    prev: HashMap<u32, ModifierRecord>,
    slots: HashMap<usize, u32>,
}

impl View for ModifierLog {
    type V = (Map<u32, ModifierRecord>, Map<usize, u32>);

    closed spec fn view(&self) -> (Map<u32, ModifierRecord>, Map<usize, u32>) {
        (self.prev@, self.slots@)
    }
}

impl ModifierLog {
    pub fn new() -> (t: Self)
        ensures
            t@.0 == Map::<u32, ModifierRecord>::empty(),
            t@.1 == Map::<usize, u32>::empty(),
    {
        ModifierLog { prev: HashMap::new(), slots: HashMap::new() }
    }

    /// A touched entry of the modifier table (see `log_outcome`);
    /// `parent_hero` is the hero of the pawn its parent names, if any.
    pub fn observe(
        &mut self,
        index: usize,
        serial: u32,
        entry_type: Option<i32>,
        parent_hero: Option<i64>,
        f: ModifierFields,
        caster: Option<i64>,
    ) -> (events: Vec<(ModifierEventKind, ModifierRecord)>)
        ensures
            (final(self)@.0, final(self)@.1, events@) == log_outcome(
                old(self)@.0,
                old(self)@.1,
                index,
                serial,
                entry_type,
                parent_hero,
                f,
                caster,
            ),
    {
        let mut events: Vec<(ModifierEventKind, ModifierRecord)> = Vec::new();
        let in_slot = match self.slots.get(&index) {
            Some(s) => Some(*s),
            None => None,
        };
        match in_slot {
            Some(old_serial) => if old_serial != serial {
                match self.prev.remove(&old_serial) {
                    Some(cached) => events.push((ModifierEventKind::Removed, cached)),
                    None => {},
                }
            },
            None => {},
        }
        let removal = match entry_type {
            Some(t) => t == REMOVAL_ENTRY,
            None => false,
        };
        if removal {
            self.slots.remove(&index);
            match self.prev.remove(&serial) {
                Some(cached) => events.push((ModifierEventKind::Removed, cached)),
                None => {},
            }
            return events;
        }
        self.slots.insert(index, serial);
        let hero = match parent_hero {
            Some(h) => h,
            None => return events,
        };
        if !self.prev.contains_key(&serial) {
            let rec = ModifierRecord {
                hero_id: hero,
                modifier_id: match f.modifier_subclass {
                    Some(v) => v,
                    None => 0,
                },
                ability_id: match f.ability_subclass {
                    Some(v) => v,
                    None => 0,
                },
                duration_bits: match f.duration_bits {
                    Some(v) => v,
                    None => NO_TIME_BITS,
                },
                last_applied_bits: match f.last_applied_bits {
                    Some(v) => v,
                    None => NO_TIME_BITS,
                },
                caster_hero_id: match caster {
                    Some(c) => c,
                    None => 0,
                },
                stacks: match f.stack_count {
                    Some(v) => v,
                    None => 0,
                },
            };
            self.prev.insert(serial, rec);
            events.push((ModifierEventKind::Applied, rec));
        }
        events
    }
}

} // verus!
