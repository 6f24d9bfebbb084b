use boon_data::tracking::{
    ability_tick_hero, count_ones, is_ability_class, AbilityTickState, BarrierState, ChangeTracker,
    LifeTracker, NeutralState, ObjectiveHealth, ObjectiveState, TrooperState, UpgradeTracker,
    BARRIER_TRACKER_MODIFIER_ID,
};

/// The modifier table entry fields the barrier pass reads: serial, entry
/// type, modifier subclass, parent pawn and the current barrier amount.
#[derive(Clone, Copy)]
struct Entry {
    entry_type: Option<i32>,
    parent: Option<i32>,
    serial_number: Option<u32>,
    modifier_subclass: Option<u32>,
    float2: Option<f32>,
}

fn entry(float2: Option<f32>) -> Entry {
    Entry {
        entry_type: Some(1),
        parent: Some(42),
        serial_number: Some(7),
        modifier_subclass: Some(BARRIER_TRACKER_MODIFIER_ID),
        float2,
    }
}

/// The live modifier entries by table index; a delta merges its set fields
/// into the entry at its index, and an entry type of 2 removes it.
struct Table {
    live: Vec<(usize, Entry)>,
}

fn clamp_barrier(v: f32) -> f32 {
    if v.is_finite() {
        v.max(0.0)
    } else {
        0.0
    }
}

fn apply(state: &mut BarrierState<f32>, table: &mut Table, index: usize, delta: Entry) {
    let pos = table.live.iter().position(|(i, _)| *i == index);
    if delta.entry_type == Some(2) {
        if let Some(p) = pos {
            let (_, old) = table.live.remove(p);
            state.remove_serial(old.serial_number.unwrap_or(0));
        }
        return;
    }
    let merged = match pos {
        Some(p) => {
            let old = table.live[p].1;
            let m = Entry {
                entry_type: delta.entry_type.or(old.entry_type),
                parent: delta.parent.or(old.parent),
                serial_number: delta.serial_number.or(old.serial_number),
                modifier_subclass: delta.modifier_subclass.or(old.modifier_subclass),
                float2: delta.float2.or(old.float2),
            };
            table.live[p].1 = m;
            m
        }
        None => {
            table.live.push((index, delta));
            delta
        }
    };
    state.apply_live_entry(
        merged.serial_number.unwrap_or(0),
        merged.modifier_subclass,
        merged.parent,
        clamp_barrier(merged.float2.unwrap_or(0.0)),
    );
}

fn remaining(state: &BarrierState<f32>, pawn: i32) -> f32 {
    state.remaining(pawn).unwrap_or(0.0)
}

#[test]
fn barrier_defaults_clamps_preserves_and_removes() {
    let mut state: BarrierState<f32> = BarrierState::new();
    let mut table = Table { live: Vec::new() };
    assert_eq!(remaining(&state, 42), 0.0);

    apply(&mut state, &mut table, 3, entry(Some(-1.0)));
    assert_eq!(remaining(&state, 42), 0.0);

    apply(&mut state, &mut table, 3, entry(Some(123.5)));
    assert_eq!(remaining(&state, 42), 123.5);

    apply(&mut state, &mut table, 3, entry(None));
    assert_eq!(remaining(&state, 42), 123.5);

    apply(
        &mut state,
        &mut table,
        3,
        Entry {
            entry_type: Some(2),
            parent: None,
            serial_number: Some(7),
            modifier_subclass: None,
            float2: None,
        },
    );
    assert_eq!(remaining(&state, 42), 0.0);
}

#[test]
fn barrier_moves_with_its_serial_and_other_modifiers_remove_it() {
    let mut state: BarrierState<u32> = BarrierState::new();
    state.apply_live_entry(7, Some(BARRIER_TRACKER_MODIFIER_ID), Some(42), 100);
    assert_eq!(state.remaining(42), Some(100));
    // the same serial now reports another pawn: the first loses its barrier
    state.apply_live_entry(7, Some(BARRIER_TRACKER_MODIFIER_ID), Some(43), 80);
    assert_eq!(state.remaining(42), None);
    assert_eq!(state.remaining(43), Some(80));
    // a tracker entry naming no pawn changes nothing
    state.apply_live_entry(9, Some(BARRIER_TRACKER_MODIFIER_ID), None, 5);
    assert_eq!(state.remaining(43), Some(80));
    // the serial's entry becomes another modifier: the barrier is gone
    state.apply_live_entry(7, Some(12345), Some(43), 0);
    assert_eq!(state.remaining(43), None);
}

#[test]
fn barrier_pawn_taken_by_new_serial_ignores_old_removal() {
    let mut state: BarrierState<u32> = BarrierState::new();
    state.apply_live_entry(1, Some(BARRIER_TRACKER_MODIFIER_ID), Some(5), 10);
    state.apply_live_entry(2, Some(BARRIER_TRACKER_MODIFIER_ID), Some(5), 20);
    assert_eq!(state.remaining(5), Some(20));
    state.remove_serial(1);
    assert_eq!(state.remaining(5), Some(20));
    state.remove_serial(2);
    assert_eq!(state.remaining(5), None);
    state.apply_live_entry(3, Some(BARRIER_TRACKER_MODIFIER_ID), Some(6), 30);
    state.clear();
    assert_eq!(state.remaining(6), None);
}

#[test]
fn change_tracker_reports_first_and_changed_states() {
    let mut t: ChangeTracker<ObjectiveState> = ChangeTracker::new();
    let s = ObjectiveState { health: 100, max_health: 100, team_num: 2, lane: 1 };
    assert!(t.observe(4, s));
    assert!(!t.observe(4, s));
    let hit = ObjectiveState { health: 90, ..s };
    assert!(t.observe(4, hit));
    assert!(t.observe(5, hit));
    assert!(!t.observe(4, hit));

    let mut h: ChangeTracker<ObjectiveHealth> = ChangeTracker::new();
    let phase = ObjectiveHealth { health: 10, max_health: 20, phase: 1 };
    assert!(h.observe(1, phase));
    assert!(h.observe(1, ObjectiveHealth { phase: 2, ..phase }));
}

#[test]
fn life_tracker_emits_only_alive_changes() {
    let mut t: LifeTracker<NeutralState> = LifeTracker::new();
    let s = NeutralState { health: 50, max_health: 50, x_bits: 1, y_bits: 2, z_bits: 3 };
    assert!(t.observe(9, true, s));
    assert!(!t.observe(9, true, s));
    // death is a change, but dead entities emit no row
    assert!(!t.observe(9, false, s));
    // a dead entity's state is not compared
    assert!(!t.observe(9, false, NeutralState { health: 0, ..s }));
    assert!(t.observe(9, true, s));

    let mut tr: LifeTracker<TrooperState> = LifeTracker::new();
    let trooper = TrooperState {
        health: 1,
        max_health: 2,
        team_num: 2,
        lane: 4,
        x_bits: 0,
        y_bits: 0,
        z_bits: 0,
    };
    assert!(!tr.observe(3, false, trooper));
    assert!(tr.observe(3, true, trooper));
    assert!(tr.observe(3, true, TrooperState { x_bits: 7, ..trooper }));
}

#[test]
fn upgrade_tracker_reports_tiers_of_growing_bits() {
    let mut t = UpgradeTracker::new();
    assert_eq!(t.observe(1, 0, 0), None);
    assert_eq!(t.observe(1, 0, 0b1), Some(0));
    assert_eq!(t.observe(1, 0, 0b1), None);
    assert_eq!(t.observe(1, 0, 0b11), Some(1));
    assert_eq!(t.observe(1, 0, 0b111), Some(2));
    // another slot and another controller are tracked apart
    assert_eq!(t.observe(1, 1, 0b1), Some(0));
    assert_eq!(t.observe(2, 0, 0b1), Some(0));
    // a reset is remembered but not reported
    assert_eq!(t.observe(1, 0, 0), None);
    assert_eq!(t.observe(1, 0, 0b1), Some(0));
}

#[test]
fn count_ones_counts_set_bits() {
    assert_eq!(count_ones(0), 0);
    assert_eq!(count_ones(0b1011), 3);
    assert_eq!(count_ones(u32::MAX), 32);
}

#[test]
fn ability_rows_need_cooldown_charges_and_a_hero() {
    assert_eq!(ability_tick_hero(true, true, Some(7)), Some(7));
    assert_eq!(ability_tick_hero(true, true, Some(0)), None);
    assert_eq!(ability_tick_hero(true, true, None), None);
    assert_eq!(ability_tick_hero(false, true, Some(7)), None);
    assert_eq!(ability_tick_hero(true, false, Some(7)), None);
    assert!(is_ability_class("CCitadel_Ability_Bebop_HyperBeam"));
    assert!(!is_ability_class("CCitadelPlayerPawn"));
}

#[test]
fn ability_states_compare_all_fields() {
    let mut t: ChangeTracker<AbilityTickState> = ChangeTracker::new();
    let s = AbilityTickState {
        cooldown_start_bits: 0,
        cooldown_end_bits: 0,
        remaining_charges: 1,
        recharge_start_bits: 0,
        recharge_end_bits: 0,
    };
    assert!(t.observe(100, s));
    assert!(!t.observe(100, s));
    assert!(t.observe(100, AbilityTickState { remaining_charges: 0, ..s }));
}
