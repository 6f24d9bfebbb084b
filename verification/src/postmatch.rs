//! Post-match metadata tables: per-player stat snapshots, scoreboard last
//! hits, objective records and the damage matrix, each flattened into rows.
use vstd::prelude::*;
use std::collections::BTreeSet;

use crate::labels::{category_source, is_category_source, stat_type_label, stat_type_text};

verus! {

/// Gold earned from one source, as recorded in a player's stat snapshot.
pub struct GoldEntry {
    /// The `EGoldSource` code, when present.
    pub source: Option<i32>,
    pub gold: u32,
    pub gold_orbs: u32,
}

/// One periodic stat snapshot of a player.
pub struct PlayerStats {
    pub time_stamp_s: u32,
    pub kills: u32,
    pub deaths: u32,
    pub assists: u32,
    pub net_worth: u32,
    pub denies: u32,
    pub level: u32,
    pub creep_kills: u32,
    pub neutral_kills: u32,
    pub player_damage: u32,
    pub gold_sources: Vec<GoldEntry>,
}

/// A player of the match metadata.
pub struct MatchPlayer {
    pub player_slot: Option<u32>,
    pub hero_id: u32,
    pub assigned_lane: i32,
    pub last_hits: u32,
    pub stats: Vec<PlayerStats>,
}

/// One objective record of the match metadata.
pub struct MatchObjective {
    pub team_objective_id: i32,
    pub team: i32,
    pub destroyed_time_s: Option<u32>,
    pub first_damage_time_s: Option<u32>,
    pub creep_damage: u32,
    pub player_damage: u32,
    pub player_spirit_damage: u32,
}

/// Cumulative damage series from one dealer and source to one target.
pub struct DamageToPlayer {
    pub target_player_slot: u32,
    pub damage: Vec<u32>,
}

pub struct DamageSource {
    pub source_details_index: u32,
    pub damage_to_players: Vec<DamageToPlayer>,
}

pub struct DamageDealer {
    pub dealer_player_slot: u32,
    pub damage_sources: Vec<DamageSource>,
}

/// Names and stat types of the damage sources, indexed by
/// `source_details_index`.
pub struct SourceDetails {
    pub source_name: Vec<String>,
    pub stat_type: Vec<i32>,
}

pub struct DamageMatrix {
    pub sample_time_s: Vec<u32>,
    pub source_details: Option<SourceDetails>,
    pub damage_dealers: Vec<DamageDealer>,
}

/// The post-match metadata that the tables are built from.
pub struct MatchInfo {
    pub players: Vec<MatchPlayer>,
    pub objectives: Vec<MatchObjective>,
    pub damage_matrix: Option<DamageMatrix>,
}

/// The `EGoldSource` codes of the per-source gold columns of a snapshot row.
#[derive(Clone, Copy)]
pub struct GoldSourceCodes {
    pub players: i32,
    pub lane_creeps: i32,
    pub neutrals: i32,
    pub bosses: i32,
    pub treasure: i32,
    pub denies: i32,
    pub team_bonus: i32,
    pub breakable: i32,
    pub ability_assassinate: i32,
    pub item_trophy_collector: i32,
    pub item_cultist_sacrifice: i32,
    pub item_goose_egg: i32,
    pub assists: i32,
}

/// (gold, orbs) of the first entry for `source`, or (0, 0) when there is none.
pub open spec fn gold_totals(entries: Seq<GoldEntry>, source: i32) -> (u32, u32)
    decreases entries.len(),
{
    if entries.len() == 0 {
        (0, 0)
    } else if entries[0].source == Some(source) {
        (entries[0].gold, entries[0].gold_orbs)
    } else {
        gold_totals(entries.drop_first(), source)
    }
}

/// The (gold, orbs) a player earned from `source` at a snapshot, or `(0, 0)`
/// when that source is absent.
pub fn gold_source_totals(stats: &PlayerStats, source: i32) -> (r: (u32, u32))
    ensures
        r == gold_totals(stats.gold_sources@, source),
{
    let n = stats.gold_sources.len();
    let mut i: usize = 0;
    assert(stats.gold_sources@.subrange(0, n as int) =~= stats.gold_sources@);
    while i < n
        invariant
            n == stats.gold_sources@.len(),
            i <= n,
            gold_totals(stats.gold_sources@, source) == gold_totals(
                stats.gold_sources@.subrange(i as int, n as int),
                source,
            ),
        decreases n - i,
    {
        let g = &stats.gold_sources[i];
        assert(stats.gold_sources@.subrange(i as int, n as int).drop_first()
            =~= stats.gold_sources@.subrange(i + 1, n as int));
        if g.source == Some(source) {
            return (g.gold, g.gold_orbs);
        }
        i = i + 1;
    }
    (0, 0)
}

/// The first stat snapshot stamped at `time`.
pub open spec fn stats_at(stats: Seq<PlayerStats>, time: u32) -> Option<PlayerStats>
    decreases stats.len(),
{
    if stats.len() == 0 {
        None
    } else if stats[0].time_stamp_s == time {
        Some(stats[0])
    } else {
        stats_at(stats.drop_first(), time)
    }
}

/// Every snapshot time of every player.
pub open spec fn snapshot_times(players: Seq<MatchPlayer>) -> Set<u32> {
    Set::new(
        |t: u32|
            exists|p: int, s: int|
                0 <= p < players.len() && 0 <= s < players[p].stats@.len()
                    && #[trigger] players[p].stats@[s].time_stamp_s == t,
    )
}

/// Strictly increasing.
pub open spec fn strictly_increasing(s: Seq<u32>) -> bool {
    forall|i: int, j: int| 0 <= i < j < s.len() ==> s[i] < s[j]
}

/// One row of the long-form snapshot table.
#[derive(Clone, Copy)]
pub struct SnapshotRow {
    pub snapshot_time_s: u32,
    pub hero_id: u32,
    pub kills: u32,
    pub deaths: u32,
    pub assists: u32,
    pub net_worth: u32,
    pub denies: u32,
    pub level: u32,
    pub lane: i32,
    pub creep_kills: u32,
    pub neutral_kills: u32,
    pub player_damage: u32,
    pub player_gold: u32,
    pub player_orbs: u32,
    pub lane_creep_gold: u32,
    pub lane_creep_orbs: u32,
    pub neutral_creep: u32,
    pub neutral_creep_orbs: u32,
    pub boss_gold: u32,
    pub boss_orbs: u32,
    pub treasure_gold: u32,
    pub treasure_orbs: u32,
    pub denies_gold: u32,
    pub denies_orbs: u32,
    pub team_bonus_gold: u32,
    pub team_bonus_orbs: u32,
    pub breakable_gold: u32,
    pub breakable_orbs: u32,
    pub assassinate_gold: u32,
    pub assassinate_orbs: u32,
    pub trophy_collector_gold: u32,
    pub trophy_collector_orbs: u32,
    pub cultist_sacrifice_gold: u32,
    pub cultist_sacrifice_orbs: u32,
    pub unknown_gold: u32,
    pub unknown_orbs: u32,
    pub assists_gold: u32,
    pub assists_orbs: u32,
}

/// The snapshot row of player `p` for its stats `s` at `time`.
pub open spec fn snapshot_row(
    time: u32,
    p: MatchPlayer,
    s: PlayerStats,
    codes: GoldSourceCodes,
) -> SnapshotRow {
    let g = s.gold_sources@;
    SnapshotRow {
        snapshot_time_s: time,
        hero_id: p.hero_id,
        kills: s.kills,
        deaths: s.deaths,
        assists: s.assists,
        net_worth: s.net_worth,
        denies: s.denies,
        level: s.level,
        lane: p.assigned_lane,
        creep_kills: s.creep_kills,
        neutral_kills: s.neutral_kills,
        player_damage: s.player_damage,
        player_gold: gold_totals(g, codes.players).0,
        player_orbs: gold_totals(g, codes.players).1,
        lane_creep_gold: gold_totals(g, codes.lane_creeps).0,
        lane_creep_orbs: gold_totals(g, codes.lane_creeps).1,
        neutral_creep: gold_totals(g, codes.neutrals).0,
        neutral_creep_orbs: gold_totals(g, codes.neutrals).1,
        boss_gold: gold_totals(g, codes.bosses).0,
        boss_orbs: gold_totals(g, codes.bosses).1,
        treasure_gold: gold_totals(g, codes.treasure).0,
        treasure_orbs: gold_totals(g, codes.treasure).1,
        denies_gold: gold_totals(g, codes.denies).0,
        denies_orbs: gold_totals(g, codes.denies).1,
        team_bonus_gold: gold_totals(g, codes.team_bonus).0,
        team_bonus_orbs: gold_totals(g, codes.team_bonus).1,
        breakable_gold: gold_totals(g, codes.breakable).0,
        breakable_orbs: gold_totals(g, codes.breakable).1,
        assassinate_gold: gold_totals(g, codes.ability_assassinate).0,
        assassinate_orbs: gold_totals(g, codes.ability_assassinate).1,
        trophy_collector_gold: gold_totals(g, codes.item_trophy_collector).0,
        trophy_collector_orbs: gold_totals(g, codes.item_trophy_collector).1,
        cultist_sacrifice_gold: gold_totals(g, codes.item_cultist_sacrifice).0,
        cultist_sacrifice_orbs: gold_totals(g, codes.item_cultist_sacrifice).1,
        unknown_gold: gold_totals(g, codes.item_goose_egg).0,
        unknown_orbs: gold_totals(g, codes.item_goose_egg).1,
        assists_gold: gold_totals(g, codes.assists).0,
        assists_orbs: gold_totals(g, codes.assists).1,
    }
}

/// Rows at one snapshot time: one per player (in player order) that has a
/// snapshot at that time.
pub open spec fn rows_at_time(
    players: Seq<MatchPlayer>,
    time: u32,
    codes: GoldSourceCodes,
) -> Seq<SnapshotRow>
    decreases players.len(),
{
    if players.len() == 0 {
        seq![]
    } else {
        let rest = rows_at_time(players.drop_last(), time, codes);
        match stats_at(players.last().stats@, time) {
            Some(s) => rest.push(snapshot_row(time, players.last(), s, codes)),
            None => rest,
        }
    }
}

/// Rows for the given snapshot times, time by time.
pub open spec fn rows_over_times(
    players: Seq<MatchPlayer>,
    times: Seq<u32>,
    codes: GoldSourceCodes,
) -> Seq<SnapshotRow>
    decreases times.len(),
{
    if times.len() == 0 {
        seq![]
    } else {
        rows_over_times(players, times.drop_last(), codes) + rows_at_time(
            players,
            times.last(),
            codes,
        )
    }
}

/// The elements of a set of times, in increasing order.
fn ascending_times(set: &BTreeSet<u32>) -> (r: Vec<u32>)
    ensures
        strictly_increasing(r@),
        r@.to_set() == set@,
{
    broadcast use vstd::std_specs::btree::group_btree_axioms, vstd::laws_cmp::group_laws_cmp;

    let ghost keys = vstd::std_specs::iter::IteratorSpec::remaining(
        &vstd::std_specs::btree::spec_btree_keys_iter(set),
    );
    let mut r: Vec<u32> = Vec::new();
    for t in it: set.iter()
        invariant
            it.seq() == keys,
            r@.len() == it.index(),
            forall|i: int| 0 <= i < r@.len() ==> r@[i] == *keys[i],
    {
        r.push(*t);
    }
    assert(r@ =~= keys.unref());
    proof {
        assert(vstd::std_specs::btree::increasing_seq(keys));
        assert(vstd::laws_cmp::obeys_cmp::<&u32>());
        assert forall|i: int, j: int| 0 <= i < j < r@.len() implies r@[i] < r@[j] by {
            assert(vstd::std_specs::cmp::OrdSpec::cmp_spec(&keys[i], &keys[j]) is Less);
        }
    }
    r
}

/// Add `t` to a set of times.
fn add_time(set: &mut BTreeSet<u32>, t: u32)
    ensures
        final(set)@ == old(set)@.insert(t),
{
    broadcast use vstd::laws_cmp::group_laws_cmp;

    set.insert(t);
}

/// The distinct snapshot times of all players, in increasing order.
pub fn sorted_snapshot_times(players: &Vec<MatchPlayer>) -> (times: Vec<u32>)
    ensures
        strictly_increasing(times@),
        times@.to_set() == snapshot_times(players@),
{
    let mut seen: BTreeSet<u32> = BTreeSet::new();
    let np = players.len();
    let mut p: usize = 0;
    while p < np
        invariant
            np == players@.len(),
            p <= np,
            seen@ == Set::new(
                |t: u32|
                    exists|q: int, s: int|
                        0 <= q < p && 0 <= s < players@[q].stats@.len()
                            && #[trigger] players@[q].stats@[s].time_stamp_s == t,
            ),
        decreases np - p,
    {
        let player = &players[p];
        let ns = player.stats.len();
        let mut s: usize = 0;
        while s < ns
            invariant
                np == players@.len(),
                p < np,
                *player == players@[p as int],
                ns == player.stats@.len(),
                s <= ns,
                    seen@ == Set::new(
                    |t: u32|
                        (exists|q: int, s2: int|
                            0 <= q < p && 0 <= s2 < players@[q].stats@.len()
                                && #[trigger] players@[q].stats@[s2].time_stamp_s == t) || (exists|
                            s2: int,
                        |
                            0 <= s2 < s && #[trigger] player.stats@[s2].time_stamp_s == t),
                ),
            decreases ns - s,
        {
            let ghost before = seen@;
            let t = player.stats[s].time_stamp_s;
            add_time(&mut seen, t);
            proof {
                let target = Set::new(
                    |t2: u32|
                        (exists|q: int, s2: int|
                            0 <= q < p && 0 <= s2 < players@[q].stats@.len()
                                && #[trigger] players@[q].stats@[s2].time_stamp_s == t2) || (exists|
                            s2: int,
                        |
                            0 <= s2 < s + 1 && #[trigger] player.stats@[s2].time_stamp_s == t2),
                );
                assert forall|t2: u32| target.contains(t2) implies seen@.contains(t2) by {
                    if !before.contains(t2) {
                        assert(player.stats@[s as int].time_stamp_s == t2);
                    }
                }
                assert(seen@ =~= target);
            }
            s = s + 1;
        }
        proof {
            let target = Set::new(
                |t: u32|
                    exists|q: int, s2: int|
                        0 <= q < p + 1 && 0 <= s2 < players@[q].stats@.len()
                            && #[trigger] players@[q].stats@[s2].time_stamp_s == t,
            );
            assert forall|t: u32| seen@.contains(t) implies target.contains(t) by {
                if exists|s2: int| 0 <= s2 < ns && #[trigger] player.stats@[s2].time_stamp_s == t {
                    let s2 = choose|s2: int| 0 <= s2 < ns && #[trigger] player.stats@[s2].time_stamp_s == t;
                    assert(players@[p as int].stats@[s2].time_stamp_s == t);
                }
            }
            assert forall|t: u32| target.contains(t) implies seen@.contains(t) by {
                let (q, s2) = choose|q: int, s2: int|
                    0 <= q < p + 1 && 0 <= s2 < players@[q].stats@.len()
                        && #[trigger] players@[q].stats@[s2].time_stamp_s == t;
                if q == p {
                    assert(player.stats@[s2].time_stamp_s == t);
                }
            }
            assert(seen@ =~= target);
        }
        p = p + 1;
    }
    assert(seen@ =~= snapshot_times(players@));
    ascending_times(&seen)
}


/// Index of the first stat snapshot stamped at `time`.
fn find_stats_at(stats: &Vec<PlayerStats>, time: u32) -> (r: Option<usize>)
    ensures
        match r {
            Some(i) => i < stats@.len() && stats_at(stats@, time) == Some(stats@[i as int]),
            None => stats_at(stats@, time) is None,
        },
{
    let n = stats.len();
    let mut i: usize = 0;
    assert(stats@.subrange(0, n as int) =~= stats@);
    while i < n
        invariant
            n == stats@.len(),
            i <= n,
            stats_at(stats@, time) == stats_at(stats@.subrange(i as int, n as int), time),
        decreases n - i,
    {
        assert(stats@.subrange(i as int, n as int).drop_first() =~= stats@.subrange(i + 1, n as int));
        if stats[i].time_stamp_s == time {
            return Some(i);
        }
        i = i + 1;
    }
    None
}

fn make_snapshot_row(time: u32, p: &MatchPlayer, s: &PlayerStats, codes: GoldSourceCodes) -> (row:
    SnapshotRow)
    ensures
        row == snapshot_row(time, *p, *s, codes),
{
    let (player_gold, player_orbs) = gold_source_totals(s, codes.players);
    let (lane_creep_gold, lane_creep_orbs) = gold_source_totals(s, codes.lane_creeps);
    let (neutral_creep, neutral_creep_orbs) = gold_source_totals(s, codes.neutrals);
    let (boss_gold, boss_orbs) = gold_source_totals(s, codes.bosses);
    let (treasure_gold, treasure_orbs) = gold_source_totals(s, codes.treasure);
    let (denies_gold, denies_orbs) = gold_source_totals(s, codes.denies);
    let (team_bonus_gold, team_bonus_orbs) = gold_source_totals(s, codes.team_bonus);
    let (breakable_gold, breakable_orbs) = gold_source_totals(s, codes.breakable);
    let (assassinate_gold, assassinate_orbs) = gold_source_totals(s, codes.ability_assassinate);
    let (trophy_collector_gold, trophy_collector_orbs) = gold_source_totals(
        s,
        codes.item_trophy_collector,
    );
    let (cultist_sacrifice_gold, cultist_sacrifice_orbs) = gold_source_totals(
        s,
        codes.item_cultist_sacrifice,
    );
    let (unknown_gold, unknown_orbs) = gold_source_totals(s, codes.item_goose_egg);
    let (assists_gold, assists_orbs) = gold_source_totals(s, codes.assists);
    SnapshotRow {
        snapshot_time_s: time,
        hero_id: p.hero_id,
        kills: s.kills,
        deaths: s.deaths,
        assists: s.assists,
        net_worth: s.net_worth,
        denies: s.denies,
        level: s.level,
        lane: p.assigned_lane,
        creep_kills: s.creep_kills,
        neutral_kills: s.neutral_kills,
        player_damage: s.player_damage,
        player_gold,
        player_orbs,
        lane_creep_gold,
        lane_creep_orbs,
        neutral_creep,
        neutral_creep_orbs,
        boss_gold,
        boss_orbs,
        treasure_gold,
        treasure_orbs,
        denies_gold,
        denies_orbs,
        team_bonus_gold,
        team_bonus_orbs,
        breakable_gold,
        breakable_orbs,
        assassinate_gold,
        assassinate_orbs,
        trophy_collector_gold,
        trophy_collector_orbs,
        cultist_sacrifice_gold,
        cultist_sacrifice_orbs,
        unknown_gold,
        unknown_orbs,
        assists_gold,
        assists_orbs,
    }
}

/// `row` is the snapshot of player `p` at `row.snapshot_time_s`, copied
/// field for field: the player's hero and lane, the counters of the stats
/// stamped at that time, and the (gold, orbs) of each gold source code.
pub open spec fn copies_snapshot(row: SnapshotRow, p: MatchPlayer, codes: GoldSourceCodes) -> bool {
    match stats_at(p.stats@, row.snapshot_time_s) {
        Some(s) => {
            let g = s.gold_sources@;
            &&& row.hero_id == p.hero_id
            &&& row.lane == p.assigned_lane
            &&& row.kills == s.kills
            &&& row.deaths == s.deaths
            &&& row.assists == s.assists
            &&& row.net_worth == s.net_worth
            &&& row.denies == s.denies
            &&& row.level == s.level
            &&& row.creep_kills == s.creep_kills
            &&& row.neutral_kills == s.neutral_kills
            &&& row.player_damage == s.player_damage
            &&& (row.player_gold, row.player_orbs) == gold_totals(g, codes.players)
            &&& (row.lane_creep_gold, row.lane_creep_orbs) == gold_totals(g, codes.lane_creeps)
            &&& (row.neutral_creep, row.neutral_creep_orbs) == gold_totals(g, codes.neutrals)
            &&& (row.boss_gold, row.boss_orbs) == gold_totals(g, codes.bosses)
            &&& (row.treasure_gold, row.treasure_orbs) == gold_totals(g, codes.treasure)
            &&& (row.denies_gold, row.denies_orbs) == gold_totals(g, codes.denies)
            &&& (row.team_bonus_gold, row.team_bonus_orbs) == gold_totals(g, codes.team_bonus)
            &&& (row.breakable_gold, row.breakable_orbs) == gold_totals(g, codes.breakable)
            &&& (row.assassinate_gold, row.assassinate_orbs) == gold_totals(
                g,
                codes.ability_assassinate,
            )
            &&& (row.trophy_collector_gold, row.trophy_collector_orbs) == gold_totals(
                g,
                codes.item_trophy_collector,
            )
            &&& (row.cultist_sacrifice_gold, row.cultist_sacrifice_orbs) == gold_totals(
                g,
                codes.item_cultist_sacrifice,
            )
            &&& (row.unknown_gold, row.unknown_orbs) == gold_totals(g, codes.item_goose_egg)
            &&& (row.assists_gold, row.assists_orbs) == gold_totals(g, codes.assists)
        },
        None => false,
    }
}

proof fn lemma_snapshot_row_copies(time: u32, p: MatchPlayer, s: PlayerStats, codes: GoldSourceCodes)
    requires
        stats_at(p.stats@, time) == Some(s),
    ensures
        snapshot_row(time, p, s, codes).snapshot_time_s == time,
        copies_snapshot(snapshot_row(time, p, s, codes), p, codes),
{
}

spec fn row_of_player_at(row: SnapshotRow, players: Seq<MatchPlayer>, time: u32, codes: GoldSourceCodes) -> bool {
    exists|i: int|
        0 <= i < players.len() && stats_at(players[i].stats@, time) is Some && row == snapshot_row(
            time,
            #[trigger] players[i],
            stats_at(players[i].stats@, time)->0,
            codes,
        )
}

spec fn row_of_player_at_some(
    row: SnapshotRow,
    players: Seq<MatchPlayer>,
    times: Seq<u32>,
    codes: GoldSourceCodes,
) -> bool {
    exists|j: int| 0 <= j < times.len() && #[trigger] row_of_player_at(row, players, times[j], codes)
}

proof fn lemma_rows_at_time(players: Seq<MatchPlayer>, time: u32, codes: GoldSourceCodes)
    ensures
        forall|k: int|
            0 <= k < rows_at_time(players, time, codes).len() ==> row_of_player_at(
                #[trigger] rows_at_time(players, time, codes)[k],
                players,
                time,
                codes,
            ),
        forall|i: int|
            0 <= i < players.len() && (#[trigger] stats_at(players[i].stats@, time)) is Some
                ==> rows_at_time(players, time, codes).contains(
                snapshot_row(time, players[i], stats_at(players[i].stats@, time)->0, codes),
            ),
    decreases players.len(),
{
    if players.len() > 0 {
        let d = players.drop_last();
        lemma_rows_at_time(d, time, codes);
        let rest = rows_at_time(d, time, codes);
        let rows = rows_at_time(players, time, codes);
        let n = players.len() - 1;
        assert forall|k: int| 0 <= k < rows.len() implies row_of_player_at(
            #[trigger] rows[k],
            players,
            time,
            codes,
        ) by {
            if k < rest.len() {
                assert(rows[k] == rest[k]);
                assert(row_of_player_at(rest[k], d, time, codes));
                let i = choose|i: int|
                    0 <= i < d.len() && stats_at(d[i].stats@, time) is Some && rest[k] == snapshot_row(
                        time,
                        #[trigger] d[i],
                        stats_at(d[i].stats@, time)->0,
                        codes,
                    );
                assert(d[i] == players[i]);
            } else {
                assert(players[n] == players.last());
            }
        }
        assert forall|i: int|
            0 <= i < players.len() && (#[trigger] stats_at(players[i].stats@, time)) is Some
                implies rows.contains(
            snapshot_row(time, players[i], stats_at(players[i].stats@, time)->0, codes),
        ) by {
            let r = snapshot_row(time, players[i], stats_at(players[i].stats@, time)->0, codes);
            if i < n {
                assert(d[i] == players[i]);
                assert(stats_at(d[i].stats@, time) is Some);
                assert(rest.contains(r));
                let k = choose|k: int| 0 <= k < rest.len() && rest[k] == r;
                assert(rows[k] == r);
            } else {
                assert(players[i] == players.last());
                assert(rows[rows.len() - 1] == r);
            }
        }
    }
}

proof fn lemma_rows_over_times(players: Seq<MatchPlayer>, times: Seq<u32>, codes: GoldSourceCodes)
    ensures
        forall|k: int|
            0 <= k < rows_over_times(players, times, codes).len() ==> row_of_player_at_some(
                #[trigger] rows_over_times(players, times, codes)[k],
                players,
                times,
                codes,
            ),
        forall|j: int, i: int|
            0 <= j < times.len() && 0 <= i < players.len() && (#[trigger] stats_at(
                players[i].stats@,
                times[j],
            )) is Some ==> rows_over_times(players, times, codes).contains(
                snapshot_row(times[j], players[i], stats_at(players[i].stats@, times[j])->0, codes),
            ),
    decreases times.len(),
{
    if times.len() > 0 {
        let d = times.drop_last();
        let t = times.last();
        lemma_rows_over_times(players, d, codes);
        lemma_rows_at_time(players, t, codes);
        let rest = rows_over_times(players, d, codes);
        let tail = rows_at_time(players, t, codes);
        let rows = rows_over_times(players, times, codes);
        assert(rows == rest + tail);
        let m = times.len() - 1;
        assert forall|k: int| 0 <= k < rows.len() implies row_of_player_at_some(
            #[trigger] rows[k],
            players,
            times,
            codes,
        ) by {
            if k < rest.len() {
                assert(rows[k] == rest[k]);
                assert(row_of_player_at_some(rest[k], players, d, codes));
                let j = choose|j: int| 0 <= j < d.len() && #[trigger] row_of_player_at(rest[k], players, d[j], codes);
                assert(d[j] == times[j]);
            } else {
                assert(rows[k] == tail[k - rest.len()]);
                assert(row_of_player_at(tail[k - rest.len()], players, t, codes));
                assert(times[m] == t);
            }
        }
        assert forall|j: int, i: int|
            0 <= j < times.len() && 0 <= i < players.len() && (#[trigger] stats_at(
                players[i].stats@,
                times[j],
            )) is Some implies rows.contains(
            snapshot_row(times[j], players[i], stats_at(players[i].stats@, times[j])->0, codes),
        ) by {
            let r = snapshot_row(times[j], players[i], stats_at(players[i].stats@, times[j])->0, codes);
            if j < m {
                assert(d[j] == times[j]);
                assert(rest.contains(r));
                let k = choose|k: int| 0 <= k < rest.len() && rest[k] == r;
                assert(rows[k] == r);
            } else {
                assert(times[j] == t);
                assert(tail.contains(r));
                let k = choose|k: int| 0 <= k < tail.len() && tail[k] == r;
                assert(rows[rest.len() + k] == r);
            }
        }
    }
}

/// `row` is, field for field, the snapshot of some player at one of `times`.
pub open spec fn copied_from_some_player(
    row: SnapshotRow,
    players: Seq<MatchPlayer>,
    times: Seq<u32>,
    codes: GoldSourceCodes,
) -> bool {
    times.contains(row.snapshot_time_s) && exists|i: int|
        0 <= i < players.len() && #[trigger] copies_snapshot(row, players[i], codes)
}

/// Some row of `rows` at `time` copies the snapshot of player `p` there.
pub open spec fn has_copied_row(
    rows: Seq<SnapshotRow>,
    p: MatchPlayer,
    time: u32,
    codes: GoldSourceCodes,
) -> bool {
    exists|k: int|
        0 <= k < rows.len() && rows[k].snapshot_time_s == time && #[trigger] copies_snapshot(
            rows[k],
            p,
            codes,
        )
}

/// Every row of the snapshot table built over the snapshot times is the
/// snapshot of some player at one of those times, copied field for field
/// (hero, lane, every counter of the stats stamped at that time, and the
/// gold and orbs of each gold source); and every player with a snapshot at
/// one of those times has such a row at that time.
pub proof fn lemma_snapshot_rows_copy_stats(
    players: Seq<MatchPlayer>,
    times: Seq<u32>,
    codes: GoldSourceCodes,
)
    ensures
        forall|k: int|
            0 <= k < rows_over_times(players, times, codes).len() ==> copied_from_some_player(
                #[trigger] rows_over_times(players, times, codes)[k],
                players,
                times,
                codes,
            ),
        forall|j: int, i: int|
            0 <= j < times.len() && 0 <= i < players.len() && (#[trigger] stats_at(
                players[i].stats@,
                times[j],
            )) is Some ==> has_copied_row(
                rows_over_times(players, times, codes),
                players[i],
                times[j],
                codes,
            ),
{
    lemma_rows_over_times(players, times, codes);
    let rows = rows_over_times(players, times, codes);
    assert forall|k: int| 0 <= k < rows.len() implies copied_from_some_player(
        #[trigger] rows[k],
        players,
        times,
        codes,
    ) by {
        assert(row_of_player_at_some(rows[k], players, times, codes));
        let j = choose|j: int| 0 <= j < times.len() && #[trigger] row_of_player_at(rows[k], players, times[j], codes);
        let i = choose|i: int|
            0 <= i < players.len() && stats_at(players[i].stats@, times[j]) is Some && rows[k]
                == snapshot_row(
                times[j],
                #[trigger] players[i],
                stats_at(players[i].stats@, times[j])->0,
                codes,
            );
        lemma_snapshot_row_copies(times[j], players[i], stats_at(players[i].stats@, times[j])->0, codes);
        assert(copies_snapshot(rows[k], players[i], codes));
    }
    assert forall|j: int, i: int|
        0 <= j < times.len() && 0 <= i < players.len() && (#[trigger] stats_at(
            players[i].stats@,
            times[j],
        )) is Some implies has_copied_row(rows, players[i], times[j], codes) by {
        let s = stats_at(players[i].stats@, times[j])->0;
        let r = snapshot_row(times[j], players[i], s, codes);
        lemma_snapshot_row_copies(times[j], players[i], s, codes);
        assert(rows.contains(r));
        let k = choose|k: int| 0 <= k < rows.len() && rows[k] == r;
        assert(copies_snapshot(rows[k], players[i], codes));
    }
}

/// The long-form snapshot table: one row per (snapshot time, player), times
/// in increasing order and players in metadata order within a time. A player
/// without a snapshot at a time (one who abandoned early) has no row there.
/// The per-source gold columns come from the snapshot's gold entries keyed by
/// the given source codes.
pub fn build_snapshot_rows(info: &MatchInfo, codes: GoldSourceCodes) -> (rows: Vec<SnapshotRow>)
    ensures
        exists|times: Seq<u32>|
            strictly_increasing(times) && times.to_set() == snapshot_times(info.players@)
                && rows@ == rows_over_times(info.players@, times, codes),
{
    let players = &info.players;
    let times = sorted_snapshot_times(players);
    let mut rows: Vec<SnapshotRow> = Vec::new();
    let nt = times.len();
    let np = players.len();
    let mut ti: usize = 0;
    while ti < nt
        invariant
            nt == times@.len(),
            np == players@.len(),
            ti <= nt,
            rows@ == rows_over_times(players@, times@.subrange(0, ti as int), codes),
        decreases nt - ti,
    {
        let time = times[ti];
        let ghost prefix = rows@;
        let mut p: usize = 0;
        while p < np
            invariant
                np == players@.len(),
                p <= np,
                rows@ == prefix + rows_at_time(players@.subrange(0, p as int), time, codes),
            decreases np - p,
        {
            let player = &players[p];
            assert(players@.subrange(0, p + 1).drop_last() =~= players@.subrange(0, p as int));
            match find_stats_at(&player.stats, time) {
                Some(k) => {
                    let row = make_snapshot_row(time, player, &player.stats[k], codes);
                    rows.push(row);
                    assert(rows@ =~= prefix + rows_at_time(
                        players@.subrange(0, p + 1),
                        time,
                        codes,
                    ));
                },
                None => {},
            }
            p = p + 1;
        }
        assert(players@.subrange(0, np as int) =~= players@);
        assert(times@.subrange(0, ti + 1).drop_last() =~= times@.subrange(0, ti as int));
        ti = ti + 1;
    }
    assert(times@.subrange(0, nt as int) =~= times@);
    rows
}

/// One row of the per-player last-hit table.
#[derive(Clone, Copy)]
pub struct LastHitsRow {
    pub hero_id: u32,
    pub last_hits: u32,
}

/// The scoreboard last-hit total of every player, in metadata order. It is
/// recorded once per match, so it stands apart from the snapshot rows.
pub fn build_last_hits_rows(info: &MatchInfo) -> (rows: Vec<LastHitsRow>)
    ensures
        rows@.len() == info.players@.len(),
        forall|i: int|
            0 <= i < rows@.len() ==> #[trigger] rows@[i] == (LastHitsRow {
                hero_id: info.players@[i].hero_id,
                last_hits: info.players@[i].last_hits,
            }),
{
    let mut rows: Vec<LastHitsRow> = Vec::new();
    let n = info.players.len();
    let mut i: usize = 0;
    while i < n
        invariant
            n == info.players@.len(),
            i <= n,
            rows@.len() == i,
            forall|j: int|
                0 <= j < i ==> #[trigger] rows@[j] == (LastHitsRow {
                    hero_id: info.players@[j].hero_id,
                    last_hits: info.players@[j].last_hits,
                }),
        decreases n - i,
    {
        let p = &info.players[i];
        rows.push(LastHitsRow { hero_id: p.hero_id, last_hits: p.last_hits });
        i = i + 1;
    }
    rows
}

/// One row of the post-match objective table.
#[derive(Clone, Copy)]
pub struct ObjectiveRow {
    pub team_objective_id: i32,
    pub team: i32,
    pub destroyed_time_s: Option<u32>,
    pub first_damage_time_s: Option<u32>,
    pub creep_damage: u32,
    pub player_damage: u32,
    pub player_spirit_damage: u32,
}

pub open spec fn objective_row(o: MatchObjective) -> ObjectiveRow {
    ObjectiveRow {
        team_objective_id: o.team_objective_id,
        team: o.team,
        destroyed_time_s: o.destroyed_time_s,
        first_damage_time_s: o.first_damage_time_s,
        creep_damage: o.creep_damage,
        player_damage: o.player_damage,
        player_spirit_damage: o.player_spirit_damage,
    }
}

/// One row per objective record, in metadata order; the times stay absent
/// when the objective was never destroyed or damaged.
pub fn build_objective_rows(info: &MatchInfo) -> (rows: Vec<ObjectiveRow>)
    ensures
        rows@.len() == info.objectives@.len(),
        forall|i: int| 0 <= i < rows@.len() ==> #[trigger] rows@[i] == objective_row(info.objectives@[i]),
{
    let mut rows: Vec<ObjectiveRow> = Vec::new();
    let n = info.objectives.len();
    let mut i: usize = 0;
    while i < n
        invariant
            n == info.objectives@.len(),
            i <= n,
            rows@.len() == i,
            forall|j: int| 0 <= j < i ==> #[trigger] rows@[j] == objective_row(info.objectives@[j]),
        decreases n - i,
    {
        let o = &info.objectives[i];
        rows.push(ObjectiveRow {
            team_objective_id: o.team_objective_id,
            team: o.team,
            destroyed_time_s: o.destroyed_time_s,
            first_damage_time_s: o.first_damage_time_s,
            creep_damage: o.creep_damage,
            player_damage: o.player_damage,
            player_spirit_damage: o.player_spirit_damage,
        });
        i = i + 1;
    }
    rows
}

/// Hero of the last player holding `slot`; none for a slot no player holds.
pub open spec fn hero_for_slot(players: Seq<MatchPlayer>, slot: u32) -> Option<u32>
    decreases players.len(),
{
    if players.len() == 0 {
        None
    } else if players.last().player_slot == Some(slot) {
        Some(players.last().hero_id)
    } else {
        hero_for_slot(players.drop_last(), slot)
    }
}

/// The hero of the player that holds a player slot.
pub fn hero_of_slot(players: &Vec<MatchPlayer>, slot: u32) -> (r: Option<u32>)
    ensures
        r == hero_for_slot(players@, slot),
{
    let mut i = players.len();
    assert(players@.subrange(0, i as int) =~= players@);
    while i > 0
        invariant
            i <= players@.len(),
            hero_for_slot(players@, slot) == hero_for_slot(players@.subrange(0, i as int), slot),
        decreases i,
    {
        assert(players@.subrange(0, i as int).drop_last() =~= players@.subrange(0, i - 1));
        if players[i - 1].player_slot == Some(slot) {
            return Some(players[i - 1].hero_id);
        }
        i = i - 1;
    }
    None
}

/// One row of the damage table.
pub struct DamageRow {
    pub dealer_player_slot: u32,
    pub dealer_hero_id: Option<u32>,
    pub target_player_slot: u32,
    pub target_hero_id: Option<u32>,
    pub source_name: String,
    pub is_category: bool,
    pub stat_type: String,
    pub sample_time_s: u32,
    pub damage: u32,
}

/// The content of a damage row.
pub struct DamageRecord {
    pub dealer_player_slot: u32,
    pub dealer_hero_id: Option<u32>,
    pub target_player_slot: u32,
    pub target_hero_id: Option<u32>,
    pub source_name: Seq<char>,
    pub is_category: bool,
    pub stat_type: Seq<char>,
    pub sample_time_s: u32,
    pub damage: u32,
}

impl View for DamageRow {
    type V = DamageRecord;

    open spec fn view(&self) -> DamageRecord {
        DamageRecord {
            dealer_player_slot: self.dealer_player_slot,
            dealer_hero_id: self.dealer_hero_id,
            target_player_slot: self.target_player_slot,
            target_hero_id: self.target_hero_id,
            source_name: self.source_name@,
            is_category: self.is_category,
            stat_type: self.stat_type@,
            sample_time_s: self.sample_time_s,
            damage: self.damage,
        }
    }
}

/// Source name at `idx` of the source details, or empty.
pub open spec fn source_name_at(m: DamageMatrix, idx: int) -> Seq<char> {
    match m.source_details {
        Some(sd) => if 0 <= idx < sd.source_name@.len() {
            sd.source_name@[idx]@
        } else {
            seq![]
        },
        None => seq![],
    }
}

/// Stat type code at `idx` of the source details, or 0.
pub open spec fn stat_code_at(m: DamageMatrix, idx: int) -> i32 {
    match m.source_details {
        Some(sd) => if 0 <= idx < sd.stat_type@.len() {
            sd.stat_type@[idx]
        } else {
            0
        },
        None => 0,
    }
}

/// Index into the sample times of the first value of a cumulative series of
/// `len` values: the series covers the last `len` samples.
pub open spec fn series_start(samples: int, len: int) -> int {
    if samples >= len {
        samples - len
    } else {
        0
    }
}

/// The sample time at `i`, or 0 past the end.
pub open spec fn sample_time_at(times: Seq<u32>, i: int) -> u32 {
    if 0 <= i < times.len() {
        times[i]
    } else {
        0
    }
}

pub open spec fn saturating_sub_u32(a: u32, b: u32) -> u32 {
    if a >= b {
        (a - b) as u32
    } else {
        0
    }
}

/// The per-interval delta of the `k`-th value of a cumulative series.
pub open spec fn series_delta(series: Seq<u32>, k: int) -> u32 {
    saturating_sub_u32(series[k], if k == 0 { 0 } else { series[k - 1] })
}

/// The sum of the first `k` per-interval deltas of a cumulative series.
pub open spec fn delta_sum(series: Seq<u32>, k: int) -> int
    decreases k,
{
    if k <= 0 {
        0
    } else {
        delta_sum(series, k - 1) + series_delta(series, k - 1)
    }
}

/// The damage column is additive: for a cumulative series that never
/// decreases, the running sum of its per-interval deltas up to a sample is
/// the series' cumulative value at that sample (so their total is its last
/// value).
pub proof fn lemma_damage_cumsum(series: Seq<u32>, k: int)
    requires
        0 <= k < series.len(),
        forall|i: int, j: int| 0 <= i <= j < series.len() ==> series[i] <= series[j],
    ensures
        delta_sum(series, k + 1) == series[k],
    decreases k,
{
    assert(delta_sum(series, k + 1) == delta_sum(series, k) + series_delta(series, k));
    if k > 0 {
        lemma_damage_cumsum(series, k - 1);
        assert(series[k - 1] <= series[k]);
        assert(series_delta(series, k) == series[k] - series[k - 1]);
    } else {
        assert(delta_sum(series, 0) == 0);
        assert(series_delta(series, 0) == series[0]);
    }
}

/// Records of the first `k` values of one dealer-source-target series.
pub open spec fn target_records(
    m: DamageMatrix,
    players: Seq<MatchPlayer>,
    dealer: DamageDealer,
    source: DamageSource,
    target: DamageToPlayer,
    k: int,
) -> Seq<DamageRecord>
    decreases k,
{
    if k <= 0 {
        seq![]
    } else {
        let idx = source.source_details_index as int;
        let name = source_name_at(m, idx);
        let series = target.damage@;
        let start = series_start(m.sample_time_s@.len() as int, series.len() as int);
        target_records(m, players, dealer, source, target, k - 1).push(
            DamageRecord {
                dealer_player_slot: dealer.dealer_player_slot,
                dealer_hero_id: hero_for_slot(players, dealer.dealer_player_slot),
                target_player_slot: target.target_player_slot,
                target_hero_id: hero_for_slot(players, target.target_player_slot),
                source_name: name,
                is_category: category_source(name),
                stat_type: stat_type_text(stat_code_at(m, idx)),
                sample_time_s: sample_time_at(m.sample_time_s@, start + k - 1),
                damage: series_delta(series, k - 1),
            },
        )
    }
}

/// Records of the first `t` targets of one dealer's source.
pub open spec fn source_records(
    m: DamageMatrix,
    players: Seq<MatchPlayer>,
    dealer: DamageDealer,
    source: DamageSource,
    t: int,
) -> Seq<DamageRecord>
    decreases t,
{
    if t <= 0 {
        seq![]
    } else {
        let target = source.damage_to_players@[t - 1];
        source_records(m, players, dealer, source, t - 1) + target_records(
            m,
            players,
            dealer,
            source,
            target,
            target.damage@.len() as int,
        )
    }
}

/// Records of the first `s` sources of one dealer.
pub open spec fn dealer_records(
    m: DamageMatrix,
    players: Seq<MatchPlayer>,
    dealer: DamageDealer,
    s: int,
) -> Seq<DamageRecord>
    decreases s,
{
    if s <= 0 {
        seq![]
    } else {
        let source = dealer.damage_sources@[s - 1];
        dealer_records(m, players, dealer, s - 1) + source_records(
            m,
            players,
            dealer,
            source,
            source.damage_to_players@.len() as int,
        )
    }
}

/// Records of the first `d` dealers of the matrix.
pub open spec fn matrix_records(m: DamageMatrix, players: Seq<MatchPlayer>, d: int) -> Seq<
    DamageRecord,
>
    decreases d,
{
    if d <= 0 {
        seq![]
    } else {
        let dealer = m.damage_dealers@[d - 1];
        matrix_records(m, players, d - 1) + dealer_records(
            m,
            players,
            dealer,
            dealer.damage_sources@.len() as int,
        )
    }
}

/// Every record of the damage table: none without a damage matrix.
pub open spec fn damage_records(info: MatchInfo) -> Seq<DamageRecord> {
    match info.damage_matrix {
        Some(m) => matrix_records(m, info.players@, m.damage_dealers@.len() as int),
        None => seq![],
    }
}

/// The damage table: one row per (dealer slot, target slot, source, sample
/// time). Each cumulative series covers the last samples of the match and is
/// turned into per-interval deltas, so the `damage` column is additive.
/// Slots resolve to heroes through the players; sources name their stat type.
pub fn build_damage_rows(info: &MatchInfo) -> (rows: Vec<DamageRow>)
    ensures
        rows@.map_values(|r: DamageRow| r@) == damage_records(*info),
{
    let mut rows: Vec<DamageRow> = Vec::new();
    let players = &info.players;
    match &info.damage_matrix {
        None => {
            assert(rows@.map_values(|r: DamageRow| r@) =~= damage_records(*info));
        },
        Some(m) => {
            let n = m.sample_time_s.len();
            let nd = m.damage_dealers.len();
            let mut d: usize = 0;
            assert(rows@.map_values(|r: DamageRow| r@) =~= matrix_records(*m, players@, 0));
            while d < nd
                invariant
                    nd == m.damage_dealers@.len(),
                    n == m.sample_time_s@.len(),
                    d <= nd,
                    rows@.map_values(|r: DamageRow| r@) == matrix_records(*m, players@, d as int),
                decreases nd - d,
            {
                let dealer = &m.damage_dealers[d];
                let dslot = dealer.dealer_player_slot;
                let dhero = hero_of_slot(players, dslot);
                let ghost before_dealer = rows@.map_values(|r: DamageRow| r@);
                let ns = dealer.damage_sources.len();
                let mut s: usize = 0;
                assert(rows@.map_values(|r: DamageRow| r@) =~= before_dealer + dealer_records(
                    *m,
                    players@,
                    *dealer,
                    0,
                ));
                while s < ns
                    invariant
                        nd == m.damage_dealers@.len(),
                        n == m.sample_time_s@.len(),
                        d < nd,
                        *dealer == m.damage_dealers@[d as int],
                        dslot == dealer.dealer_player_slot,
                        dhero == hero_for_slot(players@, dslot),
                        ns == dealer.damage_sources@.len(),
                        s <= ns,
                        rows@.map_values(|r: DamageRow| r@) == before_dealer + dealer_records(
                            *m,
                            players@,
                            *dealer,
                            s as int,
                        ),
                    decreases ns - s,
                {
                    let source = &dealer.damage_sources[s];
                    let idx = source.source_details_index as usize;
                    let name: String = match &m.source_details {
                        Some(sd) => if idx < sd.source_name.len() {
                            sd.source_name[idx].clone()
                        } else {
                            String::new()
                        },
                        None => String::new(),
                    };
                    let code: i32 = match &m.source_details {
                        Some(sd) => if idx < sd.stat_type.len() {
                            sd.stat_type[idx]
                        } else {
                            0
                        },
                        None => 0,
                    };
                    let category = is_category_source(name.as_str());
                    let stat = stat_type_label(code);
                    let ghost before_source = rows@.map_values(|r: DamageRow| r@);
                    let ntg = source.damage_to_players.len();
                    let mut t: usize = 0;
                    assert(rows@.map_values(|r: DamageRow| r@) =~= before_source + source_records(
                        *m,
                        players@,
                        *dealer,
                        *source,
                        0,
                    ));
                    while t < ntg
                        invariant
                            n == m.sample_time_s@.len(),
                            *source == dealer.damage_sources@[s as int],
                            dslot == dealer.dealer_player_slot,
                            dhero == hero_for_slot(players@, dslot),
                            idx == source.source_details_index,
                            name@ == source_name_at(*m, idx as int),
                            code == stat_code_at(*m, idx as int),
                            category == category_source(name@),
                            stat@ == stat_type_text(code),
                            ntg == source.damage_to_players@.len(),
                            t <= ntg,
                            rows@.map_values(|r: DamageRow| r@) == before_source + source_records(
                                *m,
                                players@,
                                *dealer,
                                *source,
                                t as int,
                            ),
                        decreases ntg - t,
                    {
                        let target = &source.damage_to_players[t];
                        let tslot = target.target_player_slot;
                        let thero = hero_of_slot(players, tslot);
                        let arr = &target.damage;
                        let len = arr.len();
                        let start = if n >= len {
                            n - len
                        } else {
                            0
                        };
                        let ghost before_target = rows@.map_values(|r: DamageRow| r@);
                        let mut prev: u32 = 0;
                        let mut k: usize = 0;
                        assert(rows@.map_values(|r: DamageRow| r@) =~= before_target
                            + target_records(*m, players@, *dealer, *source, *target, 0));
                        while k < len
                            invariant
                                n == m.sample_time_s@.len(),
                                *target == source.damage_to_players@[t as int],
                                dslot == dealer.dealer_player_slot,
                                dhero == hero_for_slot(players@, dslot),
                                tslot == target.target_player_slot,
                                thero == hero_for_slot(players@, tslot),
                                idx == source.source_details_index,
                                name@ == source_name_at(*m, idx as int),
                                code == stat_code_at(*m, idx as int),
                                category == category_source(name@),
                                stat@ == stat_type_text(code),
                                len == arr@.len(),
                                *arr == target.damage,
                                start == series_start(n as int, len as int),
                                k <= len,
                                prev == (if k == 0 { 0 } else { arr@[k - 1] }),
                                rows@.map_values(|r: DamageRow| r@) == before_target
                                    + target_records(
                                    *m,
                                    players@,
                                    *dealer,
                                    *source,
                                    *target,
                                    k as int,
                                ),
                            decreases len - k,
                        {
                            let cumulative = arr[k];
                            let time = if start + k < n {
                                m.sample_time_s[start + k]
                            } else {
                                0
                            };
                            let delta = cumulative.saturating_sub(prev);
                            prev = cumulative;
                            let ghost old_rows = rows@;
                            rows.push(
                                DamageRow {
                                    dealer_player_slot: dslot,
                                    dealer_hero_id: dhero,
                                    target_player_slot: tslot,
                                    target_hero_id: thero,
                                    source_name: name.clone(),
                                    is_category: category,
                                    stat_type: stat.clone(),
                                    sample_time_s: time,
                                    damage: delta,
                                },
                            );
                            assert(rows@.map_values(|r: DamageRow| r@) =~= old_rows.map_values(
                                |r: DamageRow| r@,
                            ).push(rows@[old_rows.len() as int]@));
                            k = k + 1;
                        }
                        t = t + 1;
                    }
                    s = s + 1;
                }
                d = d + 1;
            }
        },
    }
    rows
}

} // verus!
