use boon_data::events::{
    chat_type, damage_event_rows, entity_hero_map, handle_entity_index, heal_amount, healing_rows, hero_of, is_mid_boss_kill, kill_row,
    match_outcome_name, rejuv_event_name, scan_always_events, slot_hero_map, DamageEventRow, DamageMessage, HealRow, ScannedEvent,
    MID_BOSS_CLASS,
};

#[test]
fn pawns_map_to_heroes_and_later_pairs_win() {
    let m = entity_hero_map(&vec![(5, 12), (6, 0), (7, 3), (5, 14)]);
    assert_eq!(m.len(), 2);
    assert_eq!(m.get(&5), Some(&14));
    assert_eq!(m.get(&7), Some(&3));
    assert_eq!(m.get(&6), None);
}

#[test]
fn controller_slots_are_one_below_their_index() {
    let m = slot_hero_map(&vec![(1, 12), (2, 0), (3, 7)]);
    assert_eq!(m.get(&0), Some(&12));
    assert_eq!(m.get(&2), Some(&7));
    assert_eq!(m.get(&1), None);
}

#[test]
fn heroes_resolve_or_are_zero() {
    let m = entity_hero_map(&vec![(5, 12), (9, 4)]);
    assert_eq!(hero_of(&m, Some(5)), 12);
    assert_eq!(hero_of(&m, Some(6)), 0);
    assert_eq!(hero_of(&m, None), 0);
}

#[test]
fn kill_rows_resolve_all_parties() {
    let m = entity_hero_map(&vec![(5, 12), (9, 4), (11, 8)]);
    let row = kill_row(&m, 777, Some(5), Some(9), &vec![11, 40, 9]);
    assert_eq!(row.tick, 777);
    assert_eq!(row.victim_hero_id, 12);
    assert_eq!(row.attacker_hero_id, 4);
    assert_eq!(row.assister_hero_ids, vec![8, 4]);
    let unknown = kill_row(&m, 1, None, Some(3), &Vec::new());
    assert_eq!((unknown.victim_hero_id, unknown.attacker_hero_id), (0, 0));
    assert!(unknown.assister_hero_ids.is_empty());
}

#[test]
fn heals_are_negative_health_losses() {
    assert_eq!(heal_amount(-25), Some(25));
    assert_eq!(heal_amount(0), None);
    assert_eq!(heal_amount(40), None);
    assert_eq!(heal_amount(i32::MIN + 1), Some(i32::MAX));
}

#[test]
fn event_labels() {
    assert_eq!(chat_type(true), "all");
    assert_eq!(chat_type(false), "team");
    assert_eq!(rejuv_event_name(6), "picked_up");
    assert_eq!(rejuv_event_name(7), "used");
    assert_eq!(rejuv_event_name(8), "expired");
    assert_eq!(rejuv_event_name(1), "unknown");
    assert_eq!(match_outcome_name(0), "TeamWin");
    assert_eq!(match_outcome_name(1), "Error");
    assert_eq!(match_outcome_name(2), "MatchDraw");
    assert_eq!(match_outcome_name(9), "Unknown");
}

#[test]
fn mid_boss_kills() {
    assert!(is_mid_boss_kill(Some(MID_BOSS_CLASS)));
    assert!(!is_mid_boss_kill(Some(3)));
    assert!(!is_mid_boss_kill(None));
}

#[test]
fn handles_name_entities_by_their_low_bits() {
    assert_eq!(handle_entity_index(Some(0x0060_4005)), 5);
    assert_eq!(handle_entity_index(Some(0x3FFF)), 0x3FFF);
    assert_eq!(handle_entity_index(None), 0);
}

#[test]
fn scan_keeps_last_game_over_and_all_bans() {
    let events = vec![
        ScannedEvent::BannedHeroes { hero_ids: vec![3, 7] },
        ScannedEvent::GameOver { winning_team: Some(2), tick: 100 },
        ScannedEvent::BannedHeroes { hero_ids: vec![] },
        ScannedEvent::GameOver { winning_team: None, tick: 200 },
        ScannedEvent::BannedHeroes { hero_ids: vec![9] },
    ];
    assert_eq!(scan_always_events(&events), (Some((0, 200)), vec![3, 7, 9]));
    assert_eq!(scan_always_events(&Vec::new()), (None, Vec::new()));
}

fn bare_damage(tick: i32) -> DamageMessage {
    DamageMessage {
        tick,
        victim: None,
        attacker: None,
        damage: None,
        health_lost: None,
        victim_health_new: None,
        hitgroup_id: None,
        attacker_class: None,
        victim_class: None,
        ability_id: None,
        damage_type: None,
        citadel_type: None,
        flags: None,
    }
}

fn damage(tick: i32, victim: i32, attacker: i32, health_lost: Option<i32>) -> DamageMessage {
    DamageMessage {
        victim: Some(victim),
        attacker: Some(attacker),
        health_lost,
        ability_id: Some(4242),
        citadel_type: Some(3),
        ..bare_damage(tick)
    }
}

#[test]
fn healing_keeps_negative_health_loss_as_positive_amounts() {
    let m = entity_hero_map(&vec![(5, 12), (9, 4)]);
    let msgs = vec![
        damage(100, 5, 9, Some(40)),
        damage(101, 5, 9, Some(-25)),
        damage(102, 9, 9, Some(0)),
        damage(103, 9, 77, None),
        DamageMessage { victim: Some(9), health_lost: Some(-7), ..bare_damage(104) },
    ];
    let rows = healing_rows(&m, &msgs);
    assert_eq!(
        rows,
        vec![
            HealRow {
                tick: 101,
                target_hero_id: 12,
                source_hero_id: 4,
                amount: 25,
                ability_id: 4242,
                citadel_type: 3,
            },
            HealRow {
                tick: 104,
                target_hero_id: 4,
                source_hero_id: 0,
                amount: 7,
                ability_id: 0,
                citadel_type: 0,
            },
        ]
    );
    assert!(rows.iter().all(|r| r.amount > 0));
}

#[test]
fn healing_of_only_damage_is_empty() {
    let m = entity_hero_map(&vec![(5, 12)]);
    let rows = healing_rows(&m, &vec![damage(1, 5, 5, Some(10)), damage(2, 5, 5, Some(0))]);
    assert!(rows.is_empty());
}

#[test]
fn damage_rows_default_resolve_and_classify() {
    let m = entity_hero_map(&vec![(5, 12), (9, 4)]);
    let light = DamageMessage {
        victim: Some(5),
        attacker: Some(9),
        damage: Some(60),
        health_lost: Some(60),
        victim_health_new: Some(440),
        hitgroup_id: Some(1),
        attacker_class: Some(21),
        victim_class: Some(22),
        ability_id: Some(77),
        damage_type: Some(2),
        citadel_type: Some(3),
        flags: Some(0x2_0000_0000),
        ..bare_damage(300)
    };
    let rows = damage_event_rows(&m, &vec![light, bare_damage(301)]);
    assert_eq!(
        rows,
        vec![
            DamageEventRow {
                tick: 300,
                damage: 60,
                victim_hero_id: 12,
                attacker_hero_id: 4,
                victim_health_new: 440,
                hitgroup_id: 1,
                attacker_class: 21,
                victim_class: 22,
                victim_entity_id: 5,
                ability_id: 77,
                damage_type: 2,
                citadel_type: 3,
                damage_flags: 0x2_0000_0000,
                is_melee: true,
                melee_type: Some("light"),
            },
            DamageEventRow {
                tick: 301,
                damage: 0,
                victim_hero_id: 0,
                attacker_hero_id: 0,
                victim_health_new: 0,
                hitgroup_id: 0,
                attacker_class: 0,
                victim_class: 0,
                victim_entity_id: -1,
                ability_id: 0,
                damage_type: 0,
                citadel_type: 0,
                damage_flags: 0,
                is_melee: false,
                melee_type: None,
            },
        ]
    );
}

#[test]
fn damage_rows_mark_heavy_and_other_melee() {
    let m = entity_hero_map(&vec![]);
    let heavy = DamageMessage { citadel_type: Some(3), flags: Some(0x4_0000_0000), ..bare_damage(1) };
    let both = DamageMessage { citadel_type: Some(3), flags: Some(0x6_0000_0000), ..bare_damage(2) };
    let bullet = DamageMessage { citadel_type: Some(1), flags: Some(0x2_0000_0000), ..bare_damage(3) };
    let rows = damage_event_rows(&m, &vec![heavy, both, bullet]);
    assert_eq!(rows[0].melee_type, Some("heavy"));
    assert_eq!(rows[1].melee_type, Some("other"));
    assert!(rows[1].is_melee);
    assert_eq!(rows[2].melee_type, None);
    assert!(!rows[2].is_melee);
}
