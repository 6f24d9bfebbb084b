use std::collections::HashSet;

use boon_data::datasets::UserMessage;
use boon_data::snapshot::{
    append_snapshot_frame, choose_snapshot_path, position_pass, segment_count, snapshot_pass,
    DecodePass, count_active_ticks, event_tick_source, keeps_pawn_row,
    paused_ticks, resolve_stride, retry_roster, roster_tick, sample_every, sampled_predicate,
    segment_ranges, snapshot_classes, snapshot_wants, sorted_distinct_ticks,
    stat_modifier_slot_count, stat_viewer_values_available, uncached_wants, EventTickSource,
    IntOrList, SecondsStride, SnapWants, SnapshotDatasetsError, SnapshotPath, SnapshotPathError,
    StatViewerKeys, StrOrList, StrideError, TickPredicate, STAT_VIEWER_SLOTS,
};

fn names(v: &[&str]) -> Vec<String> {
    v.iter().map(|s| s.to_string()).collect()
}

#[test]
fn snap_wants_any() {
    assert!(!SnapWants::none().any());
    let w = SnapWants { player_ticks: false, world_ticks: true, troopers: false };
    assert!(w.any());
}

#[test]
fn tick_predicates_select_ticks() {
    assert!(TickPredicate::All.matches(i32::MIN));
    let w = TickPredicate::Window { start: 10, end: 20 };
    assert!(w.matches(10));
    assert!(w.matches(20));
    assert!(!w.matches(21));
    let mut ticks = HashSet::new();
    ticks.insert(15);
    ticks.insert(30);
    let s = TickPredicate::TickSet { ticks, start: 10, end: 20 };
    assert!(s.matches(15));
    assert!(!s.matches(30));
    assert!(!s.matches(16));
}

#[test]
fn segments_split_full_packets_evenly() {
    let offsets = vec![(100usize, 0), (200, 1000), (300, 2000), (400, 3000)];
    let r = segment_ranges(&offsets, 2);
    assert_eq!(r, vec![(None, 2000), (Some(300), i32::MAX)]);
    let one = segment_ranges(&offsets, 1);
    assert_eq!(one, vec![(None, i32::MAX)]);
    let four = segment_ranges(&offsets, 4);
    assert_eq!(
        four,
        vec![(None, 1000), (Some(200), 2000), (Some(300), 3000), (Some(400), i32::MAX)]
    );
    // consecutive segments meet: each ends where the next one's packet is
    assert_eq!(segment_ranges(&Vec::new(), 1), vec![(None, i32::MAX)]);
}

#[test]
fn zero_segments_are_no_segments() {
    let offsets = vec![(100usize, 0), (200, 1000)];
    assert!(segment_ranges(&offsets, 0).is_empty());
    assert!(segment_ranges(&Vec::new(), 0).is_empty());
}

#[test]
fn active_ticks_exclude_pauses() {
    let paused = vec![5, 6, 7, 20];
    assert_eq!(count_active_ticks(&paused, 4), 4);
    assert_eq!(count_active_ticks(&paused, 10), 7);
    assert_eq!(count_active_ticks(&paused, 21), 17);
    assert_eq!(count_active_ticks(&Vec::new(), 64), 64);
}

#[test]
fn paused_ticks_of_world_table() {
    let ticks = vec![1, 2, 3, 4];
    let paused = vec![false, true, true, false];
    assert_eq!(paused_ticks(&ticks, &paused), vec![2, 3]);
}

#[test]
fn distinct_ticks_are_sorted() {
    assert_eq!(sorted_distinct_ticks(&vec![5, 1, 5, 3, 1]), vec![1, 3, 5]);
    assert_eq!(sorted_distinct_ticks(&Vec::new()), Vec::<i32>::new());
}

#[test]
fn stride_keeps_first_and_spaced_ticks() {
    assert_eq!(sample_every(&vec![0, 1, 2, 3, 4, 5, 6], 3), vec![0, 3, 6]);
    assert_eq!(sample_every(&vec![10, 11, 15, 16, 20], 5), vec![10, 15, 20]);
}

#[test]
fn strides_resolve_or_are_refused() {
    assert_eq!(resolve_stride(None, None), Ok(None));
    assert_eq!(resolve_stride(Some(4), None), Ok(Some(4)));
    assert_eq!(resolve_stride(Some(0), None), Err(StrideError::EveryBelowOne));
    assert_eq!(
        resolve_stride(Some(2), Some(SecondsStride::Ticks(64))),
        Err(StrideError::EveryAndSeconds)
    );
    assert_eq!(
        resolve_stride(None, Some(SecondsStride::NotPositive)),
        Err(StrideError::SecondsNotPositive)
    );
    assert_eq!(resolve_stride(None, Some(SecondsStride::Ticks(0))), Ok(Some(1)));
    assert_eq!(resolve_stride(None, Some(SecondsStride::Ticks(128))), Ok(Some(128)));
}

#[test]
fn str_or_list_and_int_or_list() {
    assert_eq!(StrOrList::One("kills".to_string()).into_vec(), names(&["kills"]));
    assert_eq!(StrOrList::Many(names(&["a", "b"])).into_vec(), names(&["a", "b"]));
    assert_eq!(IntOrList::One(5).into_vec(), vec![5]);
    assert_eq!(IntOrList::Many(vec![1, 2]).into_vec(), vec![1, 2]);
}

#[test]
fn snapshot_datasets_are_checked() {
    match snapshot_wants(&names(&["world_ticks", "troopers"])) {
        Ok(w) => assert!(!w.player_ticks && w.world_ticks && w.troopers),
        Err(_) => panic!("valid datasets refused"),
    }
    assert!(matches!(snapshot_wants(&Vec::new()), Err(SnapshotDatasetsError::Empty)));
    match snapshot_wants(&names(&["player_ticks", "kills", "damage"])) {
        Err(SnapshotDatasetsError::NotSnapshotDataset(n)) => assert_eq!(n, "kills"),
        _ => panic!("expected the first unknown name"),
    }
}

#[test]
fn snapshot_classes_and_uncached_wants() {
    let all = SnapWants { player_ticks: true, world_ticks: true, troopers: true };
    assert_eq!(
        snapshot_classes(all),
        vec![
            "CCitadelPlayerPawn",
            "CCitadelPlayerController",
            "CCitadelGameRulesProxy",
            "CNPC_Trooper",
            "CNPC_TrooperBoss"
        ]
    );
    let w = uncached_wants(all, true, false, true);
    assert!(!w.player_ticks && w.world_ticks && !w.troopers);
}

#[test]
fn snapshot_paths() {
    assert_eq!(
        choose_snapshot_path(None, &Vec::new(), None, None),
        Err(SnapshotPathError::NoSelector)
    );
    assert_eq!(
        choose_snapshot_path(None, &vec![500], None, None),
        Ok(SnapshotPath::SingleTick(500))
    );
    assert_eq!(
        choose_snapshot_path(None, &Vec::new(), Some(10), None),
        Ok(SnapshotPath::Window { start: 10, end: i32::MAX })
    );
    assert_eq!(
        choose_snapshot_path(Some(64), &Vec::new(), None, Some(100)),
        Ok(SnapshotPath::Sampled { start: i32::MIN, end: 100 })
    );
    assert_eq!(
        choose_snapshot_path(None, &vec![1, 2], None, None),
        Ok(SnapshotPath::Sampled { start: i32::MIN, end: i32::MAX })
    );
}

#[test]
fn sampled_predicate_unites_ticks_and_stride() {
    let p = sampled_predicate(&vec![7], Some(10), &vec![0, 5, 10, 15, 20], 0, 15);
    assert!(p.matches(7));
    assert!(p.matches(0));
    assert!(p.matches(10));
    assert!(!p.matches(5));
    assert!(!p.matches(20));
}

#[test]
fn event_ticks_read_direct_messages_when_possible() {
    match event_tick_source(&names(&["kills", "chat", "kills"]), &vec![false, false, false]) {
        EventTickSource::Direct { messages } => {
            assert_eq!(messages.len(), 2);
            assert!(messages.contains(&UserMessage::HeroKilled));
            assert!(messages.contains(&UserMessage::ChatMsg));
        }
        EventTickSource::LoadAll => panic!("direct messages expected"),
    }
    assert!(matches!(
        event_tick_source(&names(&["kills", "objectives"]), &vec![false, false]),
        EventTickSource::LoadAll
    ));
    // a cached dataset needs no message
    match event_tick_source(&names(&["objectives"]), &vec![true]) {
        EventTickSource::Direct { messages } => assert!(messages.is_empty()),
        EventTickSource::LoadAll => panic!("nothing to load"),
    }
}

#[test]
fn roster_tick_and_retry() {
    assert_eq!(roster_tick(Some((2, 5000)), 6000), 5000);
    assert_eq!(roster_tick(None, 6000), 6000);
    assert!(retry_roster(0, 5000, 6000));
    assert!(!retry_roster(0, 6000, 6000));
    assert!(!retry_roster(12, 5000, 6000));
}

#[test]
fn stat_viewer_needs_count_and_first_entry() {
    let mut keys = [StatViewerKeys { value_type: None, value: None }; STAT_VIEWER_SLOTS];
    assert!(!stat_viewer_values_available(Some(3), &keys));
    keys[0] = StatViewerKeys { value_type: Some(1), value: Some(2) };
    assert!(stat_viewer_values_available(Some(3), &keys));
    assert!(!stat_viewer_values_available(None, &keys));
    keys[0].value = None;
    assert!(!stat_viewer_values_available(Some(3), &keys));
}

#[test]
fn stat_modifier_slots_are_clamped() {
    assert_eq!(stat_modifier_slot_count(-5), 0);
    assert_eq!(stat_modifier_slot_count(0), 0);
    assert_eq!(stat_modifier_slot_count(7), 7);
    assert_eq!(stat_modifier_slot_count(20), 20);
    assert_eq!(stat_modifier_slot_count(500), 20);
}

#[test]
fn snapshot_frames_stack() {
    let mut out: Option<Vec<i32>> = None;
    append_snapshot_frame(&mut out, None);
    assert_eq!(out, None);
    append_snapshot_frame(&mut out, Some(vec![1, 2]));
    assert_eq!(out, Some(vec![1, 2]));
    append_snapshot_frame(&mut out, Some(vec![3]));
    assert_eq!(out, Some(vec![1, 2, 3]));
    append_snapshot_frame(&mut out, None);
    assert_eq!(out, Some(vec![1, 2, 3]));
}

#[test]
fn decode_passes() {
    assert_eq!(segment_count(8, 3), 3);
    assert_eq!(segment_count(0, 10), 1);
    assert_eq!(segment_count(8, 0), 1);
    assert_eq!(segment_count(4, 100), 4);
    assert_eq!(snapshot_pass(1, 100), DecodePass::Serial);
    assert_eq!(snapshot_pass(6, 100), DecodePass::Segments(6));
    assert_eq!(snapshot_pass(6, 0), DecodePass::Serial);
    assert_eq!(position_pass(4, 6, 100), DecodePass::Seek);
    assert_eq!(position_pass(5, 6, 100), DecodePass::Segments(6));
    assert_eq!(position_pass(5, 1, 100), DecodePass::Serial);
}

#[test]
fn only_player_pawns_with_a_hero_give_rows() {
    assert!(keeps_pawn_row(Some("CCitadelPlayerPawn"), 7));
    assert!(!keeps_pawn_row(Some("CCitadelPlayerPawn"), 0));
    assert!(!keeps_pawn_row(Some("CNPC_Trooper"), 7));
    assert!(!keeps_pawn_row(None, 7));
}

#[test]
fn match_clock_gains_one_per_unpaused_tick() {
    let paused = vec![0, 3, 4, 5, 9];
    for t in 0..20 {
        let step = count_active_ticks(&paused, t + 1) - count_active_ticks(&paused, t);
        assert_eq!(step, if paused.contains(&t) { 0 } else { 1 });
    }
}

#[test]
fn same_tick_sets_give_same_sorted_ticks() {
    let a = sorted_distinct_ticks(&vec![30, 10, 20, 10]);
    let b = sorted_distinct_ticks(&vec![20, 20, 30, 10, 30]);
    assert_eq!(a, b);
    assert_eq!(a, vec![10, 20, 30]);
}
