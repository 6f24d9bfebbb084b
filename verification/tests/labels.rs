use boon_data::labels::{
    change_name, classify_melee_damage, entity_class_name, is_category_source,
    is_sinners_sacrifice, objective_type, stat_index, stat_type_label, team_name, trooper_type,
    DAMAGE_FLAG_HEAVY_MELEE, DAMAGE_FLAG_LIGHT_MELEE, MELEE_CITADEL_TYPE,
};

#[test]
fn separates_light_heavy_other_and_non_melee() {
    assert_eq!(
        classify_melee_damage(MELEE_CITADEL_TYPE, DAMAGE_FLAG_LIGHT_MELEE),
        (true, Some("light"))
    );
    assert_eq!(
        classify_melee_damage(MELEE_CITADEL_TYPE, DAMAGE_FLAG_HEAVY_MELEE),
        (true, Some("heavy"))
    );
    assert_eq!(
        classify_melee_damage(
            MELEE_CITADEL_TYPE,
            DAMAGE_FLAG_LIGHT_MELEE | DAMAGE_FLAG_HEAVY_MELEE
        ),
        (true, Some("other"))
    );
    assert_eq!(
        classify_melee_damage(MELEE_CITADEL_TYPE, 0),
        (true, Some("other"))
    );
    assert_eq!(
        classify_melee_damage(1, DAMAGE_FLAG_LIGHT_MELEE),
        (false, None)
    );
}

#[test]
fn melee_flags_are_bits_33_and_34() {
    assert_eq!(DAMAGE_FLAG_LIGHT_MELEE, 1u64 << 33);
    assert_eq!(DAMAGE_FLAG_HEAVY_MELEE, 1u64 << 34);
    // Unrelated flag bits do not change the subtype.
    assert_eq!(
        classify_melee_damage(3, DAMAGE_FLAG_HEAVY_MELEE | 1),
        (true, Some("heavy"))
    );
}

#[test]
fn entity_class_names_of_boss_kills() {
    assert_eq!(entity_class_name(5), "walker");
    assert_eq!(entity_class_name(8), "mid_boss");
    assert_eq!(entity_class_name(28), "titan_shield_generator");
    assert_eq!(entity_class_name(29), "barracks");
    assert_eq!(entity_class_name(30), "titan");
    assert_eq!(entity_class_name(31), "core");
    assert_eq!(entity_class_name(0), "unknown");
    assert_eq!(entity_class_name(-7), "unknown");
}

#[test]
fn objective_and_trooper_kinds() {
    assert_eq!(objective_type("CNPC_Boss_Tier2"), "walker");
    assert_eq!(objective_type("CNPC_Boss_Tier3"), "titan");
    assert_eq!(objective_type("CNPC_BarrackBoss"), "barracks");
    assert_eq!(objective_type("CNPC_MidBoss"), "mid_boss");
    assert_eq!(objective_type("CNPC_Trooper"), "unknown");
    assert_eq!(objective_type(""), "unknown");
    assert_eq!(trooper_type("CNPC_Trooper"), "trooper");
    assert_eq!(trooper_type("CNPC_TrooperBoss"), "trooper_boss");
    assert_eq!(trooper_type("CNPC_TrooperNeutral"), "unknown");
}

#[test]
fn shop_changes_and_teams() {
    assert_eq!(change_name(0), "purchased");
    assert_eq!(change_name(1), "upgraded");
    assert_eq!(change_name(2), "sold");
    assert_eq!(change_name(3), "swapped");
    assert_eq!(change_name(4), "failure");
    assert_eq!(change_name(-1), "unknown");
    assert_eq!(team_name(0), "Team0");
    assert_eq!(team_name(1), "Team1");
    assert_eq!(team_name(2), "Spectator");
    assert_eq!(team_name(3), "Unknown");
}

#[test]
fn stat_pickup_indices() {
    assert_eq!(stat_index(28), Some(0));
    assert_eq!(stat_index(48), Some(1));
    assert_eq!(stat_index(76), Some(2));
    assert_eq!(stat_index(15), Some(3));
    assert_eq!(stat_index(106), Some(4));
    assert_eq!(stat_index(169), Some(5));
    assert_eq!(stat_index(0), None);
    assert_eq!(stat_index(29), None);
}

#[test]
fn stat_type_labels_name_unknown_codes() {
    assert_eq!(stat_type_label(0), "damage");
    assert_eq!(stat_type_label(1), "healing");
    assert_eq!(stat_type_label(2), "heal_prevented");
    assert_eq!(stat_type_label(3), "mitigated");
    assert_eq!(stat_type_label(4), "lethal");
    assert_eq!(stat_type_label(5), "regen");
    assert_eq!(stat_type_label(6), "unknown_6");
    assert_eq!(stat_type_label(1234), "unknown_1234");
    assert_eq!(stat_type_label(-3), "unknown_-3");
    assert_eq!(stat_type_label(i32::MIN), "unknown_-2147483648");
}

#[test]
fn sinners_sacrifice_classes() {
    assert!(is_sinners_sacrifice("CNPC_Neutral_SinnersSacrifice"));
    assert!(is_sinners_sacrifice("CNPC_Neutral_SinnersSacrifice_Hideout"));
    assert!(!is_sinners_sacrifice("CNPC_Neutral_SinnersSacrifice_"));
    assert!(!is_sinners_sacrifice("CNPC_TrooperNeutral"));
}

#[test]
fn category_sources_are_capitalized_without_underscore() {
    assert!(is_category_source("Bullet"));
    assert!(is_category_source("Ability"));
    assert!(is_category_source("Melee"));
    assert!(is_category_source("UnknownAbility"));
    assert!(!is_category_source("citadel_weapon_astro_set"));
    assert!(!is_category_source("Bullet_x"));
    assert!(!is_category_source("bullet"));
    assert!(!is_category_source(""));
    assert!(is_category_source("Éclair"));
}
