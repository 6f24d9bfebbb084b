//! Event rows: resolving the entity indices and player slots named by user
//! messages to heroes, the healing table of the damage messages, and the
//! labels of event kinds.
use vstd::prelude::*;
use std::collections::HashMap;

use crate::labels::{classify_melee_damage, melee_class};

verus! {

broadcast use vstd::std_specs::hash::group_hash_axioms;

/// The hero of each pawn entity, from (entity index, hero id) pairs; pawns
/// without a hero (id 0) are left out, and a later pair for an index wins.
pub open spec fn hero_pairs_map(pairs: Seq<(i32, i64)>) -> Map<i32, i64>
    decreases pairs.len(),
{
    if pairs.len() == 0 {
        Map::empty()
    } else {
        let rest = hero_pairs_map(pairs.drop_last());
        let (idx, hero) = pairs.last();
        if hero != 0 {
            rest.insert(idx, hero)
        } else {
            rest
        }
    }
}

/// Map each pawn entity index to its hero (see `hero_pairs_map`).
pub fn entity_hero_map(pawns: &Vec<(i32, i64)>) -> (m: HashMap<i32, i64>)
    ensures
        m@ == hero_pairs_map(pawns@),
{
    let mut m: HashMap<i32, i64> = HashMap::new();
    let n = pawns.len();
    let mut i: usize = 0;
    while i < n
        invariant
            n == pawns@.len(),
            i <= n,
            m@ == hero_pairs_map(pawns@.subrange(0, i as int)),
        decreases n - i,
    {
        let (idx, hero) = pawns[i];
        assert(pawns@.subrange(0, i + 1).drop_last() =~= pawns@.subrange(0, i as int));
        if hero != 0 {
            m.insert(idx, hero);
        }
        i = i + 1;
    }
    assert(pawns@.subrange(0, n as int) =~= pawns@);
    m
}

/// The player slot of each controller entity, from (entity index, hero id)
/// pairs: the slot is zero-based where the controller index is one-based.
pub open spec fn controller_slots(pairs: Seq<(i32, i64)>) -> Seq<(i32, i64)> {
    pairs.map_values(|p: (i32, i64)| ((p.0 - 1) as i32, p.1))
}

/// Map each player slot to its hero, from the controllers' (entity index,
/// hero id) pairs; controllers without a hero are left out.
pub fn slot_hero_map(controllers: &Vec<(i32, i64)>) -> (m: HashMap<i32, i64>)
    requires
        forall|i: int| 0 <= i < controllers@.len() ==> #[trigger] controllers@[i].0 > i32::MIN,
    ensures
        m@ == hero_pairs_map(controller_slots(controllers@)),
{
    let mut m: HashMap<i32, i64> = HashMap::new();
    let n = controllers.len();
    let mut i: usize = 0;
    while i < n
        invariant
            n == controllers@.len(),
            i <= n,
            forall|j: int| 0 <= j < controllers@.len() ==> #[trigger] controllers@[j].0 > i32::MIN,
            m@ == hero_pairs_map(controller_slots(controllers@.subrange(0, i as int))),
        decreases n - i,
    {
        let (idx, hero) = controllers[i];
        assert(controller_slots(controllers@.subrange(0, i + 1)).drop_last() =~= controller_slots(
            controllers@.subrange(0, i as int),
        ));
        assert(controller_slots(controllers@.subrange(0, i + 1)).last() == (
            (idx - 1) as i32,
            hero,
        ));
        if hero != 0 {
            m.insert(idx - 1, hero);
        }
        i = i + 1;
    }
    assert(controllers@.subrange(0, n as int) =~= controllers@);
    m
}

/// The hero mapped to an index, 0 when the index is absent (read as -1) or
/// has no hero.
pub open spec fn hero_at(m: Map<i32, i64>, idx: Option<i32>) -> i64 {
    let k: i32 = match idx {
        Some(i) => i,
        None => -1i32,
    };
    if m.contains_key(k) {
        m[k]
    } else {
        0
    }
}

/// The hero of the entity index (or player slot) a message names; 0 when
/// it names none or one without a hero.
pub fn hero_of(m: &HashMap<i32, i64>, idx: Option<i32>) -> (r: i64)
    ensures
        r == hero_at(m@, idx),
{
    let k = match idx {
        Some(i) => i,
        None => -1,
    };
    match m.get(&k) {
        Some(h) => *h,
        None => 0,
    }
}

/// The heroes of the assisting entities that have one, in message order.
pub open spec fn assister_heroes_of(m: Map<i32, i64>, assisters: Seq<i32>) -> Seq<i64>
    decreases assisters.len(),
{
    if assisters.len() == 0 {
        seq![]
    } else {
        let rest = assister_heroes_of(m, assisters.drop_last());
        if m.contains_key(assisters.last()) {
            rest.push(m[assisters.last()])
        } else {
            rest
        }
    }
}

/// One row of the kill table.
pub struct KillRow {
    pub tick: i32,
    pub victim_hero_id: i64,
    pub attacker_hero_id: i64,
    pub assister_hero_ids: Vec<i64>,
}

/// Resolve a hero kill message: victim and attacker heroes (0 when
/// unknown), and the heroes of the assisters that resolve.
pub fn kill_row(
    m: &HashMap<i32, i64>,
    tick: i32,
    victim: Option<i32>,
    attacker: Option<i32>,
    assisters: &Vec<i32>,
) -> (r: KillRow)
    ensures
        r.tick == tick,
        r.victim_hero_id == hero_at(m@, victim),
        r.attacker_hero_id == hero_at(m@, attacker),
        r.assister_hero_ids@ == assister_heroes_of(m@, assisters@),
{
    let mut ids: Vec<i64> = Vec::new();
    let n = assisters.len();
    let mut i: usize = 0;
    while i < n
        invariant
            n == assisters@.len(),
            i <= n,
            ids@ == assister_heroes_of(m@, assisters@.subrange(0, i as int)),
        decreases n - i,
    {
        assert(assisters@.subrange(0, i + 1).drop_last() =~= assisters@.subrange(0, i as int));
        match m.get(&assisters[i]) {
            Some(h) => ids.push(*h),
            None => {},
        }
        i = i + 1;
    }
    assert(assisters@.subrange(0, n as int) =~= assisters@);
    KillRow {
        tick,
        victim_hero_id: hero_of(m, victim),
        attacker_hero_id: hero_of(m, attacker),
        assister_hero_ids: ids,
    }
}

/// The healing of a damage message: a negative health loss is a heal of
/// that many points; none otherwise.
pub fn heal_amount(health_lost: i32) -> (r: Option<i32>)
    requires
        health_lost != i32::MIN,
    ensures
        r == if health_lost < 0 {
            Some((-health_lost) as i32)
        } else {
            None::<i32>
        },
{
    if health_lost >= 0 {
        None
    } else {
        Some(-health_lost)
    }
}

/// The integer fields of a damage message that the damage and healing
/// tables read (its float fields stay with the caller).
#[derive(Clone, Copy, PartialEq, Eq, Structural, Debug)]
pub struct DamageMessage {
    pub tick: i32,
    /// Entity index of the entity that lost (or regained) health.
    pub victim: Option<i32>,
    /// Entity index of the entity the damage (or heal) came from.
    pub attacker: Option<i32>,
    pub damage: Option<i32>,
    pub health_lost: Option<i32>,
    pub victim_health_new: Option<i32>,
    pub hitgroup_id: Option<i32>,
    pub attacker_class: Option<u32>,
    pub victim_class: Option<u32>,
    pub ability_id: Option<u32>,
    pub damage_type: Option<i32>,
    pub citadel_type: Option<i32>,
    pub flags: Option<u64>,
}

/// One row of the damage table (the float columns are the caller's).
#[derive(Clone, Copy, PartialEq, Eq, Debug)]
pub struct DamageEventRow {
    pub tick: i32,
    pub damage: i32,
    pub victim_hero_id: i64,
    pub attacker_hero_id: i64,
    pub victim_health_new: i32,
    pub hitgroup_id: i32,
    pub attacker_class: u32,
    pub victim_class: u32,
    /// The victim's entity index (-1 when the message names none).
    pub victim_entity_id: i32,
    pub ability_id: u32,
    pub damage_type: i32,
    pub citadel_type: i32,
    pub damage_flags: u64,
    pub is_melee: bool,
    /// `light`, `heavy` or `other` for melee damage; none otherwise.
    pub melee_type: Option<&'static str>,
}

/// `r` is the damage row of message `d`: absent integer fields read as 0
/// (the victim index as -1), heroes resolve through the pawn-to-hero map, and
/// the melee flag and subtype classify the damage type and flags.
pub open spec fn damage_row_of(m: Map<i32, i64>, d: DamageMessage, r: DamageEventRow) -> bool {
    let mc = melee_class(d.citadel_type.unwrap_or(0), d.flags.unwrap_or(0));
    &&& r.tick == d.tick
    &&& r.damage == d.damage.unwrap_or(0)
    &&& r.victim_hero_id == hero_at(m, d.victim)
    &&& r.attacker_hero_id == hero_at(m, d.attacker)
    &&& r.victim_health_new == d.victim_health_new.unwrap_or(0)
    &&& r.hitgroup_id == d.hitgroup_id.unwrap_or(0)
    &&& r.attacker_class == d.attacker_class.unwrap_or(0)
    &&& r.victim_class == d.victim_class.unwrap_or(0)
    &&& r.victim_entity_id == d.victim.unwrap_or(-1i32)
    &&& r.ability_id == d.ability_id.unwrap_or(0)
    &&& r.damage_type == d.damage_type.unwrap_or(0)
    &&& r.citadel_type == d.citadel_type.unwrap_or(0)
    &&& r.damage_flags == d.flags.unwrap_or(0)
    &&& r.is_melee == mc.0
    &&& match (r.melee_type, mc.1) {
        (Some(a), Some(b)) => a@ == b,
        (None, None) => true,
        _ => false,
    }
}

/// Build the damage table from the damage messages: one row per message, in
/// message order (see `damage_row_of`).
pub fn damage_event_rows(m: &HashMap<i32, i64>, msgs: &Vec<DamageMessage>) -> (r: Vec<
    DamageEventRow,
>)
    ensures
        r@.len() == msgs@.len(),
        forall|i: int| 0 <= i < msgs@.len() ==> damage_row_of(m@, msgs@[i], #[trigger] r@[i]),
{
    let mut rows: Vec<DamageEventRow> = Vec::new();
    let n = msgs.len();
    let mut i: usize = 0;
    while i < n
        invariant
            n == msgs@.len(),
            i <= n,
            rows@.len() == i,
            forall|j: int| 0 <= j < i ==> damage_row_of(m@, msgs@[j], #[trigger] rows@[j]),
        decreases n - i,
    {
        let d = msgs[i];
        let citadel_type = d.citadel_type.unwrap_or(0);
        let damage_flags = d.flags.unwrap_or(0);
        let (is_melee, melee_type) = classify_melee_damage(citadel_type, damage_flags);
        rows.push(
            DamageEventRow {
                tick: d.tick,
                damage: d.damage.unwrap_or(0),
                victim_hero_id: hero_of(m, d.victim),
                attacker_hero_id: hero_of(m, d.attacker),
                victim_health_new: d.victim_health_new.unwrap_or(0),
                hitgroup_id: d.hitgroup_id.unwrap_or(0),
                attacker_class: d.attacker_class.unwrap_or(0),
                victim_class: d.victim_class.unwrap_or(0),
                victim_entity_id: d.victim.unwrap_or(-1),
                ability_id: d.ability_id.unwrap_or(0),
                damage_type: d.damage_type.unwrap_or(0),
                citadel_type,
                damage_flags,
                is_melee,
                melee_type,
            },
        );
        i = i + 1;
    }
    rows
}

/// One row of the healing table.
#[derive(Clone, Copy, PartialEq, Eq, Structural, Debug)]
pub struct HealRow {
    pub tick: i32,
    /// The healed hero (0 when not a hero).
    pub target_hero_id: i64,
    /// The healer (0 when not a hero or absent).
    pub source_hero_id: i64,
    /// Health restored.
    pub amount: i32,
    pub ability_id: u32,
    pub citadel_type: i32,
}

/// The health a damage message reports lost (0 when it reports none).
pub open spec fn health_lost_of(d: DamageMessage) -> i32 {
    match d.health_lost {
        Some(h) => h,
        None => 0,
    }
}

/// A damage message can be read as a heal: its loss is not the one value
/// whose negation does not fit an `i32`.
pub open spec fn readable_damage(d: DamageMessage) -> bool {
    health_lost_of(d) != i32::MIN
}

/// The healing row of a damage message whose health loss is negative.
pub open spec fn heal_row_of(m: Map<i32, i64>, d: DamageMessage) -> HealRow {
    HealRow {
        tick: d.tick,
        target_hero_id: hero_at(m, d.victim),
        source_hero_id: hero_at(m, d.attacker),
        amount: (-health_lost_of(d)) as i32,
        ability_id: match d.ability_id {
            Some(a) => a,
            None => 0,
        },
        citadel_type: match d.citadel_type {
            Some(c) => c,
            None => 0,
        },
    }
}

/// The healing table of a demo's damage messages, in message order: one row
/// per message with a negative health loss.
pub open spec fn heal_rows(m: Map<i32, i64>, msgs: Seq<DamageMessage>) -> Seq<HealRow>
    decreases msgs.len(),
{
    if msgs.len() == 0 {
        seq![]
    } else {
        let rest = heal_rows(m, msgs.drop_last());
        if health_lost_of(msgs.last()) < 0 {
            rest.push(heal_row_of(m, msgs.last()))
        } else {
            rest
        }
    }
}

/// Build the healing table from the damage messages in order, resolving
/// victim and attacker entity indices through the pawn-to-hero map. Every
/// amount is positive.
pub fn healing_rows(m: &HashMap<i32, i64>, msgs: &Vec<DamageMessage>) -> (r: Vec<HealRow>)
    requires
        forall|i: int| 0 <= i < msgs@.len() ==> readable_damage(#[trigger] msgs@[i]),
    ensures
        r@ == heal_rows(m@, msgs@),
        forall|i: int| 0 <= i < r@.len() ==> #[trigger] r@[i].amount > 0,
{
    let mut rows: Vec<HealRow> = Vec::new();
    let n = msgs.len();
    let mut i: usize = 0;
    while i < n
        invariant
            n == msgs@.len(),
            i <= n,
            forall|j: int| 0 <= j < msgs@.len() ==> readable_damage(#[trigger] msgs@[j]),
            rows@ == heal_rows(m@, msgs@.take(i as int)),
            forall|j: int| 0 <= j < rows@.len() ==> #[trigger] rows@[j].amount > 0,
        decreases n - i,
    {
        let d = msgs[i];
        assert(msgs@.take(i + 1).drop_last() =~= msgs@.take(i as int));
        assert(msgs@.take(i + 1).last() == d);
        assert(readable_damage(msgs@[i as int]));
        let lost = match d.health_lost {
            Some(h) => h,
            None => 0,
        };
        match heal_amount(lost) {
            Some(amount) => {
                rows.push(
                    HealRow {
                        tick: d.tick,
                        target_hero_id: hero_of(m, d.victim),
                        source_hero_id: hero_of(m, d.attacker),
                        amount,
                        ability_id: match d.ability_id {
                            Some(a) => a,
                            None => 0,
                        },
                        citadel_type: match d.citadel_type {
                            Some(c) => c,
                            None => 0,
                        },
                    },
                );
            },
            None => {},
        }
        i = i + 1;
    }
    assert(msgs@.take(n as int) =~= msgs@);
    rows
}

/// Chat channel of a chat message.
pub fn chat_type(all_chat: bool) -> (r: &'static str)
    ensures
        r@ == (if all_chat {
            "all"@
        } else {
            "team"@
        }),
{
    if all_chat {
        "all"
    } else {
        "team"
    }
}

/// Event name of a rejuvenator status code.
pub open spec fn rejuv_event_label(event_type: i32) -> Seq<char> {
    if event_type == 6 {
        "picked_up"@
    } else if event_type == 7 {
        "used"@
    } else if event_type == 8 {
        "expired"@
    } else {
        "unknown"@
    }
}

/// The mid boss event name of a rejuvenator status message.
pub fn rejuv_event_name(event_type: i32) -> (r: &'static str)
    ensures
        r@ == rejuv_event_label(event_type),
{
    match event_type {
        6 => "picked_up",
        7 => "used",
        8 => "expired",
        _ => "unknown",
    }
}

/// The entity class id of the mid boss in boss-kill messages.
pub const MID_BOSS_CLASS: i32 = 8;

/// Whether a boss-kill message reports the mid boss.
pub fn is_mid_boss_kill(entity_killed_class: Option<i32>) -> (r: bool)
    ensures
        r == (match entity_killed_class {
            Some(c) => c,
            None => 0,
        } == MID_BOSS_CLASS),
{
    let c = match entity_killed_class {
        Some(c) => c,
        None => 0,
    };
    c == MID_BOSS_CLASS
}

/// Event name of a post-match outcome code.
pub open spec fn outcome_label(outcome: i32) -> Seq<char> {
    if outcome == 0 {
        "TeamWin"@
    } else if outcome == 1 {
        "Error"@
    } else if outcome == 2 {
        "MatchDraw"@
    } else {
        "Unknown"@
    }
}

/// The name of a post-match outcome code.
pub fn match_outcome_name(outcome: i32) -> (r: &'static str)
    ensures
        r@ == outcome_label(outcome),
{
    match outcome {
        0 => "TeamWin",
        1 => "Error",
        2 => "MatchDraw",
        _ => "Unknown",
    }
}

/// The entity index an entity handle names: its low 14 bits (0 for a
/// missing handle).
pub fn handle_entity_index(handle: Option<u32>) -> (r: i32)
    ensures
        0 <= r < 0x4000,
        r == (match handle {
            Some(h) => h,
            None => 0,
        } & 0x3FFFu32) as i32,
{
    let h: u32 = match handle {
        Some(h) => h,
        None => 0,
    };
    let low: u32 = h & 0x3FFF;
    assert(low < 0x4000) by (bit_vector)
        requires
            low == h & 0x3FFF,
    ;
    low as i32
}

/// A message read by the scan that runs once per demo: the game's end
/// (the winning team and the tick) or a list of banned heroes.
pub enum ScannedEvent {
    GameOver { winning_team: Option<i32>, tick: i32 },
    BannedHeroes { hero_ids: Vec<u32> },
}

/// The (winning team, tick) of the last game-over message (team 0 when the
/// message names none).
pub open spec fn last_game_over(events: Seq<ScannedEvent>) -> Option<(i32, i32)>
    decreases events.len(),
{
    if events.len() == 0 {
        None
    } else {
        match events.last() {
            ScannedEvent::GameOver { winning_team, tick } => Some(
                (
                    match winning_team {
                        Some(t) => t,
                        None => 0,
                    },
                    tick,
                ),
            ),
            _ => last_game_over(events.drop_last()),
        }
    }
}

/// Every banned hero id, message by message.
pub open spec fn banned_heroes(events: Seq<ScannedEvent>) -> Seq<u32>
    decreases events.len(),
{
    if events.len() == 0 {
        seq![]
    } else {
        banned_heroes(events.drop_last()) + match events.last() {
            ScannedEvent::BannedHeroes { hero_ids } => hero_ids@,
            _ => seq![],
        }
    }
}

/// The game's end and the banned heroes of a demo, from its messages in
/// order: the last game-over message counts; ban lists add up (an empty
/// result means the demo has no ban data).
pub fn scan_always_events(events: &Vec<ScannedEvent>) -> (r: (Option<(i32, i32)>, Vec<u32>))
    ensures
        r.0 == last_game_over(events@),
        r.1@ == banned_heroes(events@),
{
    let mut game_over: Option<(i32, i32)> = None;
    let mut banned: Vec<u32> = Vec::new();
    let n = events.len();
    let mut i: usize = 0;
    while i < n
        invariant
            n == events@.len(),
            i <= n,
            game_over == last_game_over(events@.take(i as int)),
            banned@ == banned_heroes(events@.take(i as int)),
        decreases n - i,
    {
        assert(events@.take(i + 1).drop_last() =~= events@.take(i as int));
        match &events[i] {
            ScannedEvent::GameOver { winning_team, tick } => {
                let team = match winning_team {
                    Some(t) => *t,
                    None => 0,
                };
                game_over = Some((team, *tick));
                assert(banned@ =~= banned_heroes(events@.take(i as int)) + seq![]);
            },
            ScannedEvent::BannedHeroes { hero_ids } => {
                let m = hero_ids.len();
                let ghost before = banned@;
                let mut j: usize = 0;
                while j < m
                    invariant
                        m == hero_ids@.len(),
                        j <= m,
                        banned@ == before + hero_ids@.take(j as int),
                    decreases m - j,
                {
                    banned.push(hero_ids[j]);
                    assert(hero_ids@.take(j + 1) =~= hero_ids@.take(j as int).push(hero_ids@[j as int]));
                    j = j + 1;
                }
                assert(hero_ids@.take(m as int) =~= hero_ids@);
            },
        }
        i = i + 1;
    }
    assert(events@.take(n as int) =~= events@);
    (game_over, banned)
}

} // verus!
