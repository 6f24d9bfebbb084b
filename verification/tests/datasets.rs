use boon_data::datasets::{
    available_datasets, check_metadata, direct_event_message_type, plan_load, Dataset, LoadError,
    MetadataError, UserMessage,
};

fn names(v: &[&str]) -> Vec<String> {
    v.iter().map(|s| s.to_string()).collect()
}

#[test]
fn available_datasets_lists_general_then_street_brawl() {
    let all = available_datasets();
    assert_eq!(all.len(), 23);
    assert_eq!(all[0], "abilities");
    assert_eq!(all[6], "player_ticks");
    assert_eq!(all[19], "rift");
    assert_eq!(all[20], "healing");
    assert_eq!(&all[21..], &["street_brawl_ticks", "street_brawl_rounds"]);
}

#[test]
fn dataset_names_round_trip() {
    for name in available_datasets() {
        let d = Dataset::from_name(name).expect("known name");
        assert_eq!(d.name(), name);
    }
    assert_eq!(Dataset::from_name("healing"), Some(Dataset::Healing));
    assert_eq!(Dataset::from_name("Kills"), None);
}

#[test]
fn unknown_dataset_is_refused_by_first_unknown_name() {
    match plan_load(&names(&["kills", "bogus", "also_bogus"]), 1, &vec![], false) {
        Err(LoadError::UnknownDataset(n)) => assert_eq!(n, "bogus"),
        _ => panic!("expected an unknown dataset"),
    }
}

#[test]
fn street_brawl_datasets_need_street_brawl_mode() {
    assert!(matches!(
        plan_load(&names(&["street_brawl_ticks"]), 1, &vec![], true),
        Err(LoadError::NotStreetBrawl)
    ));
    let plan = match plan_load(&names(&["street_brawl_rounds"]), 4, &vec![], true) {
        Ok(p) => p,
        Err(_) => panic!("street brawl demo"),
    };
    assert_eq!(plan.serial, vec![Dataset::StreetBrawlRounds]);
    assert!(plan.read_events);
    assert_eq!(plan.messages, vec![UserMessage::StreetBrawlScoring]);
    assert!(plan.entity_classes.is_empty());
}

#[test]
fn snapshot_only_request_skips_the_serial_pass() {
    let plan = match plan_load(&names(&["player_ticks", "troopers"]), 1, &vec![], true) {
        Ok(p) => p,
        Err(_) => panic!("valid"),
    };
    assert!(plan.snapshots.player_ticks && plan.snapshots.troopers && !plan.snapshots.world_ticks);
    assert!(plan.serial.is_empty());
    assert!(!plan.read_events);
}

#[test]
fn cached_datasets_are_skipped() {
    let plan = match plan_load(&names(&["kills", "chat"]), 1, &vec![Dataset::Kills], true) {
        Ok(p) => p,
        Err(_) => panic!("valid"),
    };
    assert_eq!(plan.serial, vec![Dataset::Chat]);
    assert_eq!(plan.messages, vec![UserMessage::ChatMsg]);
    assert_eq!(plan.entity_classes, vec!["CCitadelPlayerController"]);
}

#[test]
fn mixed_request_plans_messages_and_classes() {
    let plan = match plan_load(
        &names(&["objectives", "kills", "sinners_sacrifice", "mid_boss", "world_ticks"]),
        1,
        &vec![],
        false,
    ) {
        Ok(p) => p,
        Err(_) => panic!("valid"),
    };
    assert!(plan.snapshots.world_ticks);
    assert_eq!(
        plan.serial,
        vec![Dataset::MidBoss, Dataset::Objectives, Dataset::Kills, Dataset::SinnersSacrifice]
    );
    assert!(plan.read_events);
    assert_eq!(
        plan.messages,
        vec![
            UserMessage::GameOver,
            UserMessage::BannedHeroes,
            UserMessage::HeroKilled,
            UserMessage::Damage,
            UserMessage::MidBossSpawned,
            UserMessage::BossKilled,
            UserMessage::RejuvStatus,
        ]
    );
    assert_eq!(
        plan.entity_classes,
        vec![
            "CCitadelPlayerPawn",
            "CNPC_Boss_Tier2",
            "CNPC_Boss_Tier3",
            "CNPC_BarrackBoss",
            "CNPC_MidBoss",
            "CCitadel_Destroyable_Building",
            "CNPC_Neutral_SinnersSacrifice",
            "CNPC_Neutral_SinnersSacrifice_Hideout",
        ]
    );
    assert!(!plan.ability_classes);
}

#[test]
fn ability_ticks_ask_for_ability_classes() {
    let plan = match plan_load(&names(&["ability_ticks"]), 0, &vec![], true) {
        Ok(p) => p,
        Err(_) => panic!("valid"),
    };
    assert!(plan.ability_classes);
    assert!(!plan.read_events);
    assert_eq!(plan.entity_classes, vec!["CCitadelPlayerPawn"]);
}

#[test]
fn direct_event_message_types() {
    assert_eq!(direct_event_message_type("kills"), Some(UserMessage::HeroKilled));
    assert_eq!(direct_event_message_type("damage"), Some(UserMessage::Damage));
    assert_eq!(direct_event_message_type("flex_slots"), Some(UserMessage::FlexSlotUnlocked));
    assert_eq!(direct_event_message_type("abilities"), Some(UserMessage::ImportantAbilityUsed));
    assert_eq!(direct_event_message_type("item_purchases"), Some(UserMessage::AbilitiesChanged));
    assert_eq!(direct_event_message_type("chat"), Some(UserMessage::ChatMsg));
    assert_eq!(direct_event_message_type("objectives"), None);
}

#[test]
fn demo_metadata_is_checked_in_order() {
    assert_eq!(
        check_metadata(Some(6100), Some("start".to_string()), Some(90000), true),
        Ok((6100, "start".to_string(), 90000))
    );
    assert_eq!(
        check_metadata(None, None, None, false),
        Err(MetadataError::MissingBuild)
    );
    assert_eq!(
        check_metadata(Some(1), None, Some(2), true),
        Err(MetadataError::MissingMapName)
    );
    let e = check_metadata(Some(1), Some("m".to_string()), None, true).unwrap_err();
    assert_eq!(e, MetadataError::MissingPlaybackTicks);
    assert!(!e.in_header());
    assert_eq!(e.message(), "missing playback ticks in file info");
    let t = check_metadata(Some(1), Some("m".to_string()), Some(2), false).unwrap_err();
    assert_eq!(t, MetadataError::MissingPlaybackTime);
    assert!(MetadataError::MissingBuild.in_header());
    assert_eq!(MetadataError::MissingBuild.message(), "missing build number in file header");
}

#[test]
fn healing_reads_damage_messages_and_pawns() {
    let plan = match plan_load(&names(&["healing"]), 1, &vec![], true) {
        Ok(p) => p,
        Err(_) => panic!("healing is a dataset"),
    };
    assert_eq!(plan.serial, vec![Dataset::Healing]);
    assert!(plan.read_events);
    assert_eq!(plan.messages, vec![UserMessage::Damage]);
    assert_eq!(plan.entity_classes, vec!["CCitadelPlayerPawn"]);
    assert!(!plan.snapshots.player_ticks && !plan.snapshots.world_ticks && !plan.snapshots.troopers);
}

#[test]
fn cached_healing_is_skipped() {
    let plan = match plan_load(&names(&["healing", "damage"]), 1, &vec![Dataset::Healing], true) {
        Ok(p) => p,
        Err(_) => panic!("valid"),
    };
    assert_eq!(plan.serial, vec![Dataset::Damage]);
    assert_eq!(plan.messages, vec![UserMessage::Damage]);
}
