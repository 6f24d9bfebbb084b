use std::collections::HashSet;

use boon_data::rift::{rift_outcomes, spawner_appeared, spawner_set, RiftRecord, RiftState};

#[test]
fn a_captured_rift() {
    let mut s = RiftState::new();
    s.note_spawner(100);
    let step = s.step(100, false, 0);
    assert!(!step.opened && step.completed.is_none());
    // opens contested
    let step = s.step(200, true, 0);
    assert!(step.opened && step.read_location);
    // team 2 takes it
    let step = s.step(250, true, 2);
    assert!(!step.opened && step.read_location && step.completed.is_none());
    // holding it changes nothing
    s.step(260, true, 2);
    let step = s.step(300, false, 2);
    assert!(!step.read_location);
    assert_eq!(
        step.completed,
        Some(RiftRecord {
            rift_num: 1,
            announce_tick: Some(100),
            active_tick: 200,
            capture_tick: Some(250),
            expire_tick: None,
            winning_team: Some(2),
        })
    );
    assert_eq!(s.completed, 1);
    assert!(!s.live);
}

#[test]
fn an_expired_rift_keeps_the_previous_winner_out() {
    let mut s = RiftState::new();
    // opens while the scoring team still names the previous winner
    let step = s.step(10, true, 3);
    assert!(step.opened);
    s.step(11, true, 3);
    let step = s.step(20, false, 3);
    assert_eq!(
        step.completed,
        Some(RiftRecord {
            rift_num: 1,
            announce_tick: None,
            active_tick: 10,
            capture_tick: None,
            expire_tick: Some(20),
            winning_team: None,
        })
    );
}

#[test]
fn spawners_announce_only_between_rifts() {
    let mut s = RiftState::new();
    s.step(10, true, 0);
    s.note_spawner(15);
    assert_eq!(s.pending_announce, None);
    s.step(20, false, 0);
    s.note_spawner(30);
    assert_eq!(s.pending_announce, Some(30));
    s.step(40, true, 0);
    let step = s.step(50, false, 0);
    assert_eq!(step.completed.map(|r| (r.rift_num, r.announce_tick)), Some((2, Some(30))));
}

#[test]
fn spawner_presence() {
    let prev: HashSet<i32> = spawner_set(&vec![4, 5]);
    assert_eq!(prev.len(), 2);
    assert!(!spawner_appeared(&prev, &vec![5, 4]));
    assert!(spawner_appeared(&prev, &vec![5, 9]));
    assert!(!spawner_appeared(&prev, &Vec::new()));
}

#[test]
fn rift_outcomes_count_captures() {
    let captured = RiftRecord {
        rift_num: 1,
        announce_tick: None,
        active_tick: 1,
        capture_tick: Some(5),
        expire_tick: None,
        winning_team: Some(2),
    };
    let expired = RiftRecord {
        rift_num: 2,
        capture_tick: None,
        expire_tick: Some(9),
        winning_team: None,
        ..captured
    };
    assert_eq!(rift_outcomes(&vec![captured, expired, expired]), (1, 2));
    assert_eq!(rift_outcomes(&Vec::new()), (0, 0));
}

#[test]
fn resolved_rifts_open_before_capture_or_expiry() {
    let mut s = RiftState::new();
    let mut records: Vec<RiftRecord> = Vec::new();
    let ticks: [(i32, bool, i32); 9] = [
        (5, true, 0),
        (5, true, 1),
        (9, false, 1),
        (12, true, 4),
        (12, false, 4),
        (30, true, 0),
        (31, true, 0),
        (31, true, 2),
        (40, false, 2),
    ];
    for (tick, is_live, team) in ticks {
        if let Some(rec) = s.step(tick, is_live, team).completed {
            records.push(rec);
        }
    }
    assert_eq!(records.len(), 3);
    for rec in &records {
        if let Some(c) = rec.capture_tick {
            assert!(rec.active_tick <= c);
        }
        if let Some(e) = rec.expire_tick {
            assert!(rec.active_tick <= e);
        }
    }
    assert_eq!(records[0].capture_tick, Some(5));
    assert_eq!(records[1].expire_tick, Some(12));
    assert_eq!(records[2].capture_tick, Some(31));
}
