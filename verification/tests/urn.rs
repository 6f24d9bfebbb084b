use std::collections::HashMap;

use boon_data::urn::{
    sorted_distinct_indices, DeliveryEvent, DeliveryTracker, ModifierDelta, TriggerState,
    UrnEvent, UrnEventKind, UrnTracker, GOLDEN_IDOL_ABILITY, IDOL_RETURN_MODIFIER,
};

fn heroes() -> HashMap<usize, i64> {
    let mut m = HashMap::new();
    m.insert(10, 7);
    m.insert(11, 8);
    m
}

fn idol(index: usize, serial: u32, parent: usize) -> ModifierDelta {
    ModifierDelta {
        index,
        serial,
        entry_type: Some(1),
        modifier_subclass: Some(1),
        ability_subclass: Some(GOLDEN_IDOL_ABILITY),
        parent: Some(parent),
    }
}

fn returned(index: usize, serial: u32, parent: usize) -> ModifierDelta {
    ModifierDelta {
        index,
        serial,
        entry_type: None,
        modifier_subclass: Some(IDOL_RETURN_MODIFIER),
        ability_subclass: None,
        parent: Some(parent),
    }
}

fn removal(index: usize, serial: u32) -> ModifierDelta {
    ModifierDelta {
        index,
        serial,
        entry_type: Some(2),
        modifier_subclass: None,
        ability_subclass: None,
        parent: None,
    }
}

fn ev(kind: UrnEventKind, hero_id: i64, pawn: Option<usize>) -> UrnEvent {
    UrnEvent { kind, hero_id, pawn }
}

#[test]
fn pickup_then_drop_on_removal() {
    let h = heroes();
    let mut t = UrnTracker::new();
    assert_eq!(
        t.observe_tick(&vec![idol(3, 100, 10)], &h, 50),
        vec![ev(UrnEventKind::PickedUp, 7, Some(10))]
    );
    // the same entry again reports nothing
    assert!(t.observe_tick(&vec![idol(3, 100, 10)], &h, 51).is_empty());
    assert_eq!(
        t.observe_tick(&vec![removal(3, 100)], &h, 60),
        vec![ev(UrnEventKind::Dropped, 7, None)]
    );
}

#[test]
fn a_second_idol_serial_is_no_new_pickup() {
    let h = heroes();
    let mut t = UrnTracker::new();
    t.observe_tick(&vec![idol(3, 100, 10)], &h, 50);
    assert!(t.observe_tick(&vec![idol(4, 101, 10)], &h, 52).is_empty());
    // one of two idols leaving is no drop
    assert!(t.observe_tick(&vec![removal(3, 100)], &h, 53).is_empty());
    assert_eq!(
        t.observe_tick(&vec![removal(4, 101)], &h, 54),
        vec![ev(UrnEventKind::Dropped, 7, None)]
    );
}

#[test]
fn slot_reuse_drops_after_the_tick() {
    let h = heroes();
    let mut t = UrnTracker::new();
    t.observe_tick(&vec![idol(3, 100, 10)], &h, 50);
    // another hero's idol takes the slot: the pickup is reported first, the
    // replaced idol's drop after the tick's entries
    assert_eq!(
        t.observe_tick(&vec![idol(3, 200, 11)], &h, 60),
        vec![
            ev(UrnEventKind::PickedUp, 8, Some(11)),
            ev(UrnEventKind::Dropped, 7, None),
        ]
    );
}

#[test]
fn returns_are_reported_once_and_not_within_64_ticks() {
    let h = heroes();
    let mut t = UrnTracker::new();
    assert_eq!(
        t.observe_tick(&vec![returned(5, 300, 10)], &h, 1000),
        vec![ev(UrnEventKind::Returned, 7, Some(10))]
    );
    // the same return serial is not reported again
    assert!(t.observe_tick(&vec![returned(5, 300, 10)], &h, 2000).is_empty());
    // a new return serial 30 ticks later is the same return flickering
    assert!(t.observe_tick(&vec![returned(6, 301, 10)], &h, 1030).is_empty());
    assert_eq!(
        t.observe_tick(&vec![returned(7, 302, 10)], &h, 1100),
        vec![ev(UrnEventKind::Returned, 7, Some(10))]
    );
}

#[test]
fn entries_without_a_known_hero_or_idol_are_ignored() {
    let h = heroes();
    let mut t = UrnTracker::new();
    assert!(t.observe_tick(&vec![idol(3, 100, 99)], &h, 50).is_empty());
    let mut other = idol(4, 101, 10);
    other.ability_subclass = Some(5);
    assert!(t.observe_tick(&vec![other], &h, 50).is_empty());
    assert!(t.observe_tick(&vec![removal(9, 555)], &h, 50).is_empty());
}

#[test]
fn touched_indices_are_read_in_order_once() {
    assert_eq!(sorted_distinct_indices(&vec![9, 2, 9, 4, 2]), vec![2, 4, 9]);
    assert!(sorted_distinct_indices(&Vec::new()).is_empty());
}

#[test]
fn delivery_points_open_and_close() {
    let mut d = DeliveryTracker::new();
    let open = TriggerState { disabled: false, team_num: 2 };
    let closed = TriggerState { disabled: true, team_num: 2 };
    // first seen disabled: nothing to report
    assert_eq!(d.observe(1, closed), None);
    assert_eq!(d.observe(1, open), Some(DeliveryEvent::Active));
    assert_eq!(d.observe(1, open), None);
    assert_eq!(d.observe(1, closed), Some(DeliveryEvent::Inactive));
    // enabled for no team is not open
    assert_eq!(d.observe(2, TriggerState { disabled: false, team_num: 0 }), None);
    assert_eq!(d.observe(2, closed), Some(DeliveryEvent::Inactive));
}
