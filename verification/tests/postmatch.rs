use boon_data::postmatch::{
    build_damage_rows, build_last_hits_rows, build_objective_rows, build_snapshot_rows,
    gold_source_totals, hero_of_slot, sorted_snapshot_times, DamageDealer, DamageMatrix,
    DamageSource, DamageToPlayer, GoldEntry, GoldSourceCodes, MatchInfo, MatchObjective,
    MatchPlayer, PlayerStats, SourceDetails,
};

fn codes() -> GoldSourceCodes {
    GoldSourceCodes {
        players: 1,
        lane_creeps: 2,
        neutrals: 3,
        bosses: 4,
        treasure: 5,
        denies: 6,
        team_bonus: 7,
        breakable: 8,
        ability_assassinate: 9,
        item_trophy_collector: 10,
        item_cultist_sacrifice: 11,
        item_goose_egg: 12,
        assists: 13,
    }
}

fn stats(time: u32, kills: u32, gold_sources: Vec<GoldEntry>) -> PlayerStats {
    PlayerStats {
        time_stamp_s: time,
        kills,
        deaths: 1,
        assists: 2,
        net_worth: 1000 + time,
        denies: 3,
        level: 4,
        creep_kills: 5,
        neutral_kills: 6,
        player_damage: 7,
        gold_sources,
    }
}

fn gold(source: i32, g: u32, orbs: u32) -> GoldEntry {
    GoldEntry { source: Some(source), gold: g, gold_orbs: orbs }
}

fn info() -> MatchInfo {
    MatchInfo {
        players: vec![
            MatchPlayer {
                player_slot: Some(1),
                hero_id: 10,
                assigned_lane: 1,
                last_hits: 50,
                stats: vec![
                    stats(60, 2, vec![gold(1, 300, 3), gold(12, 9, 1)]),
                    stats(0, 0, vec![]),
                ],
            },
            MatchPlayer {
                player_slot: Some(2),
                hero_id: 20,
                assigned_lane: 4,
                last_hits: 70,
                stats: vec![stats(60, 1, vec![gold(2, 150, 0), gold(2, 999, 9)])],
            },
            MatchPlayer {
                player_slot: None,
                hero_id: 30,
                assigned_lane: 0,
                last_hits: 0,
                stats: vec![],
            },
        ],
        objectives: vec![MatchObjective {
            team_objective_id: 3,
            team: 1,
            destroyed_time_s: Some(900),
            first_damage_time_s: None,
            creep_damage: 10,
            player_damage: 20,
            player_spirit_damage: 30,
        }],
        damage_matrix: Some(DamageMatrix {
            sample_time_s: vec![10, 20, 30],
            source_details: Some(SourceDetails {
                source_name: vec!["Bullet".to_string(), "ability_x".to_string()],
                stat_type: vec![0, 1],
            }),
            damage_dealers: vec![DamageDealer {
                dealer_player_slot: 1,
                damage_sources: vec![
                    DamageSource {
                        source_details_index: 0,
                        damage_to_players: vec![DamageToPlayer {
                            target_player_slot: 2,
                            damage: vec![5, 12],
                        }],
                    },
                    DamageSource {
                        source_details_index: 7,
                        damage_to_players: vec![DamageToPlayer {
                            target_player_slot: 0,
                            damage: vec![4, 3, 8],
                        }],
                    },
                ],
            }],
        }),
    }
}

#[test]
fn gold_totals_take_first_entry_of_source() {
    let m = info();
    assert_eq!(gold_source_totals(&m.players[0].stats[0], 1), (300, 3));
    assert_eq!(gold_source_totals(&m.players[1].stats[0], 2), (150, 0));
    assert_eq!(gold_source_totals(&m.players[1].stats[0], 5), (0, 0));
}

#[test]
fn snapshot_times_are_the_union_in_order() {
    assert_eq!(sorted_snapshot_times(&info().players), vec![0, 60]);
}

#[test]
fn snapshot_rows_per_time_then_player() {
    let rows = build_snapshot_rows(&info(), codes());
    assert_eq!(rows.len(), 3);
    assert_eq!((rows[0].snapshot_time_s, rows[0].hero_id), (0, 10));
    assert_eq!((rows[1].snapshot_time_s, rows[1].hero_id), (60, 10));
    assert_eq!((rows[2].snapshot_time_s, rows[2].hero_id), (60, 20));
    assert_eq!(rows[1].kills, 2);
    assert_eq!(rows[1].net_worth, 1060);
    assert_eq!(rows[1].lane, 1);
    assert_eq!((rows[1].player_gold, rows[1].player_orbs), (300, 3));
    assert_eq!((rows[1].unknown_gold, rows[1].unknown_orbs), (9, 1));
    assert_eq!((rows[2].lane_creep_gold, rows[2].lane_creep_orbs), (150, 0));
    assert_eq!(rows[2].lane, 4);
    assert_eq!(rows[0].player_gold, 0);
}

#[test]
fn last_hits_and_objectives() {
    let m = info();
    let lh = build_last_hits_rows(&m);
    assert_eq!(lh.len(), 3);
    assert_eq!((lh[1].hero_id, lh[1].last_hits), (20, 70));
    let obj = build_objective_rows(&m);
    assert_eq!(obj.len(), 1);
    assert_eq!(obj[0].team_objective_id, 3);
    assert_eq!(obj[0].destroyed_time_s, Some(900));
    assert_eq!(obj[0].first_damage_time_s, None);
    assert_eq!(obj[0].player_spirit_damage, 30);
}

#[test]
fn slots_resolve_to_heroes() {
    let m = info();
    assert_eq!(hero_of_slot(&m.players, 2), Some(20));
    assert_eq!(hero_of_slot(&m.players, 0), None);
}

#[test]
fn damage_rows_are_per_interval_deltas() {
    let rows = build_damage_rows(&info());
    assert_eq!(rows.len(), 5);
    // the first series covers the last two samples
    assert_eq!(rows[0].sample_time_s, 20);
    assert_eq!(rows[0].damage, 5);
    assert_eq!(rows[1].sample_time_s, 30);
    assert_eq!(rows[1].damage, 7);
    assert_eq!(rows[0].dealer_hero_id, Some(10));
    assert_eq!(rows[0].target_hero_id, Some(20));
    assert_eq!(rows[0].source_name, "Bullet");
    assert!(rows[0].is_category);
    assert_eq!(rows[0].stat_type, "damage");
    // an unknown source index has an empty name and stat type 0; a falling
    // cumulative value gives a zero delta
    assert_eq!(rows[2].source_name, "");
    assert!(!rows[2].is_category);
    assert_eq!(rows[2].stat_type, "damage");
    assert_eq!(rows[2].target_hero_id, None);
    assert_eq!(
        rows[2..].iter().map(|r| r.damage).collect::<Vec<_>>(),
        vec![4, 0, 5]
    );
    assert_eq!(
        rows[2..].iter().map(|r| r.sample_time_s).collect::<Vec<_>>(),
        vec![10, 20, 30]
    );
}

#[test]
fn damage_deltas_sum_to_the_cumulative_total() {
    let mut m = info();
    if let Some(matrix) = m.damage_matrix.as_mut() {
        matrix.damage_dealers[0].damage_sources[1].damage_to_players[0].damage = vec![4, 9, 15];
    }
    let rows = build_damage_rows(&m);
    let total: u32 = rows[2..].iter().map(|r| r.damage).sum();
    assert_eq!(total, 15);
}

#[test]
fn no_matrix_no_damage_rows() {
    let mut m = info();
    m.damage_matrix = None;
    assert!(build_damage_rows(&m).is_empty());
}
