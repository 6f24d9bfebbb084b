use boon_data::modifiers::{
    ActiveModifierTracker, ModifierEventKind, ModifierFields, ModifierLog, ModifierRecord,
    NO_TIME_BITS,
};

fn fields(stacks: i32) -> ModifierFields {
    ModifierFields {
        modifier_subclass: Some(11),
        ability_subclass: Some(22),
        duration_bits: Some(5.0f32.to_bits()),
        last_applied_bits: Some(1.5f32.to_bits()),
        stack_count: Some(stacks),
    }
}

#[test]
fn applied_changed_removed() {
    let mut t = ActiveModifierTracker::new();
    let first = t.live(40, Some(7), fields(1), Some(9));
    let rec = ModifierRecord {
        hero_id: 7,
        modifier_id: 11,
        ability_id: 22,
        duration_bits: 5.0f32.to_bits(),
        last_applied_bits: 1.5f32.to_bits(),
        caster_hero_id: 9,
        stacks: 1,
    };
    assert_eq!(first, Some((ModifierEventKind::Applied, rec)));
    // unchanged: nothing
    assert_eq!(t.live(40, Some(7), fields(1), Some(9)), None);
    // an unknown caster keeps the one reported before
    assert_eq!(t.live(40, None, fields(1), None), None);
    let changed = t.live(40, None, fields(2), None);
    assert_eq!(changed, Some((ModifierEventKind::Changed, ModifierRecord { stacks: 2, ..rec })));
    assert_eq!(t.removed(40), Some(ModifierRecord { stacks: 2, ..rec }));
    assert_eq!(t.removed(40), None);
}

#[test]
fn modifiers_on_no_hero_are_ignored_and_defaults_apply() {
    let mut t = ActiveModifierTracker::new();
    assert_eq!(t.live(1, None, fields(1), None), None);
    assert_eq!(t.live(1, Some(0), fields(1), None), None);
    let empty = ModifierFields {
        modifier_subclass: None,
        ability_subclass: None,
        duration_bits: None,
        last_applied_bits: None,
        stack_count: None,
    };
    match t.live(2, Some(3), empty, None) {
        Some((ModifierEventKind::Applied, r)) => {
            assert_eq!((r.modifier_id, r.ability_id, r.stacks, r.caster_hero_id), (0, 0, 0, 0));
            assert_eq!(r.duration_bits, NO_TIME_BITS);
            assert_eq!(f32::from_bits(r.duration_bits), -1.0);
        }
        other => panic!("unexpected {other:?}"),
    }
}

#[test]
fn log_reports_each_modifier_applied_and_removed_once() {
    let mut log = ModifierLog::new();
    let applied = log.observe(3, 40, Some(1), Some(7), fields(1), None);
    assert_eq!(applied.len(), 1);
    assert_eq!(applied[0].0, ModifierEventKind::Applied);
    assert_eq!(applied[0].1.hero_id, 7);
    // seen again: nothing
    assert!(log.observe(3, 40, Some(1), Some(7), fields(3), None).is_empty());
    // removed explicitly
    let removed = log.observe(3, 40, Some(2), None, fields(1), None);
    assert_eq!(removed.len(), 1);
    assert_eq!(removed[0].0, ModifierEventKind::Removed);
    assert!(log.observe(3, 40, Some(2), None, fields(1), None).is_empty());
}

#[test]
fn log_reports_removal_when_a_slot_is_reused() {
    let mut log = ModifierLog::new();
    log.observe(3, 40, None, Some(7), fields(1), None);
    let events = log.observe(3, 41, None, Some(8), fields(1), Some(7));
    let kinds: Vec<(ModifierEventKind, i64)> = events.iter().map(|(k, r)| (*k, r.hero_id)).collect();
    assert_eq!(
        kinds,
        vec![(ModifierEventKind::Removed, 7), (ModifierEventKind::Applied, 8)]
    );
    assert_eq!(events[1].1.caster_hero_id, 7);
    // an entry on no hero is not applied
    assert!(log.observe(4, 42, None, None, fields(1), None).is_empty());
}
