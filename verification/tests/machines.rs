use boon_data::breakables::{BreakableTracker, PropState};
use boon_data::entity_table::{key_less, EntityKey, EntityTable};
use boon_data::sinners::{MachineEventKind, SinnerTracker};

fn key(index: i32, serial: u32) -> EntityKey {
    EntityKey { index, serial }
}

#[test]
fn entity_table_holds_values_in_key_order() {
    let mut t: EntityTable<u8> = EntityTable::new();
    assert_eq!(t.insert(key(5, 1), 50), None);
    assert_eq!(t.insert(key(2, 9), 20), None);
    assert_eq!(t.insert(key(5, 0), 49), None);
    assert_eq!(t.insert(key(2, 9), 21), Some(20));
    assert_eq!(t.get(key(2, 9)), Some(21));
    assert!(t.contains(key(5, 0)));
    assert_eq!(t.first_with_index(5), Some(key(5, 0)));
    assert_eq!(t.first_with_index(3), None);
    assert_eq!(t.remove(key(5, 0)), Some(49));
    assert_eq!(t.remove(key(5, 0)), None);
    assert_eq!(t.drain(), vec![(key(2, 9), 21), (key(5, 1), 50)]);
    assert_eq!(t.get(key(2, 9)), None);
    assert!(key_less(key(1, 9), key(2, 0)));
    assert!(key_less(key(2, 0), key(2, 1)));
    assert!(!key_less(key(2, 1), key(2, 1)));
}

#[test]
fn machines_spawn_reset_and_take_unattributed_hits() {
    let mut t: SinnerTracker<u8> = SinnerTracker::new();
    let m = key(40, 3);
    let spawn = t.observe(m, 1000, 1000, 2, 0, 10).expect("spawned");
    assert_eq!(spawn.kind, MachineEventKind::Spawned);
    assert_eq!((spawn.tick, spawn.damage, spawn.attacker_hero_id), (10, 0, 0));
    // missing state is ignored
    assert!(t.observe(m, 0, 1000, 2, 0, 11).is_none());
    // two drops in one tick add up and wait for the tick's damage messages
    assert!(t.begin_tick(20).is_empty());
    assert!(t.observe(m, 900, 1000, 2, 1, 20).is_none());
    assert!(t.observe(m, 850, 1000, 2, 2, 20).is_none());
    let hits = t.begin_tick(21);
    assert_eq!(hits.len(), 1);
    assert_eq!(hits[0].kind, MachineEventKind::Hit);
    assert_eq!((hits[0].tick, hits[0].damage, hits[0].attacker_hero_id), (20, 150, 0));
    assert_eq!((hits[0].state.health, hits[0].state.pos), (850, 2));
    // a rise in health is a reset
    let reset = t.observe(m, 1000, 1000, 2, 0, 30).expect("reset");
    assert_eq!(reset.kind, MachineEventKind::Reset);
    assert!(t.finish().is_empty());
}

#[test]
fn damage_messages_explain_drops() {
    let mut t: SinnerTracker<u8> = SinnerTracker::new();
    let m = key(40, 3);
    t.observe(m, 1000, 1000, 2, 0, 10);
    t.begin_tick(20);
    t.observe(m, 900, 1000, 2, 0, 20);
    let hit = t.direct_hit(40, None, Some(12), Some(100), 20).expect("hit");
    assert_eq!(hit.kind, MachineEventKind::Hit);
    assert_eq!((hit.attacker_hero_id, hit.damage, hit.key), (12, 100, m));
    assert_eq!(hit.state.health, 900);
    // the drop was explained: nothing left over
    assert!(t.begin_tick(21).is_empty());
    // a message for a slot with no machine reports nothing
    assert!(t.direct_hit(41, None, Some(12), Some(5), 21).is_none());
    // a message naming the slot's current machine that is not live: nothing
    assert!(t.direct_hit(40, Some(key(40, 4)), None, None, 21).is_none());
}

#[test]
fn left_over_hits_come_out_in_key_order() {
    let mut t: SinnerTracker<u8> = SinnerTracker::new();
    let a = key(50, 1);
    let b = key(12, 7);
    t.observe(a, 100, 100, 2, 0, 1);
    t.observe(b, 100, 100, 3, 0, 1);
    t.begin_tick(2);
    t.observe(a, 90, 100, 2, 0, 2);
    t.observe(b, 80, 100, 3, 0, 2);
    let hits = t.finish();
    let got: Vec<(EntityKey, i32)> = hits.iter().map(|h| (h.key, h.damage)).collect();
    assert_eq!(got, vec![(b, 20), (a, 10)]);
}

#[test]
fn deleted_machines_are_forgotten_unless_rebuilt() {
    let mut t: SinnerTracker<u8> = SinnerTracker::new();
    let m = key(40, 3);
    t.observe(m, 100, 100, 2, 0, 1);
    t.deleted(m, Some(m));
    assert!(t.observe(m, 100, 100, 2, 0, 2).is_none());
    t.deleted(m, None);
    let again = t.observe(m, 100, 100, 2, 0, 3).expect("spawned again");
    assert_eq!(again.kind, MachineEventKind::Spawned);
}

fn prop(subclass_id: u32) -> PropState<u8> {
    PropState { subclass_id, team_num: 0, pos: 0 }
}

#[test]
fn props_that_leave_for_good_are_broken() {
    let mut t: BreakableTracker<u8> = BreakableTracker::new();
    let a = key(300, 1);
    let b = key(200, 1);
    let c = key(100, 1);
    t.updated(a, prop(1));
    t.updated(b, prop(2));
    t.updated(c, prop(3));
    t.left(a, 500);
    t.deleted(b, None, 400);
    t.left(c, 500);
    // c comes back: not broken
    t.reactivated(c);
    // a leaves again later: the first leave tick is kept
    t.left(a, 900);
    let rows = t.finish();
    let got: Vec<(i32, EntityKey, u32)> = rows.iter().map(|r| (r.0, r.1, r.2.subclass_id)).collect();
    assert_eq!(got, vec![(400, b, 2), (500, a, 1)]);
}

#[test]
fn replaced_or_rebuilt_props_are_not_broken() {
    let mut t: BreakableTracker<u8> = BreakableTracker::new();
    let a = key(300, 1);
    t.updated(a, prop(1));
    // a full-packet rebuild deletes and recreates the same prop
    t.deleted(a, Some(a), 10);
    // the slot now holds another prop: the old one is forgotten
    t.deleted(a, Some(key(300, 2)), 20);
    t.left(a, 30);
    assert!(t.finish().is_empty());
}

#[test]
fn a_left_prop_keeps_its_state() {
    let mut t: BreakableTracker<u8> = BreakableTracker::new();
    let a = key(7, 7);
    t.updated(a, prop(1));
    t.left(a, 50);
    t.updated(a, prop(9));
    let rows = t.finish();
    assert_eq!(rows.len(), 1);
    assert_eq!((rows[0].0, rows[0].2.subclass_id), (50, 1));
}
