//! Human-readable labels for the numeric codes and entity class names found
//! in demos, and the small classifications built on them.
use vstd::prelude::*;
use vstd::string::*;

use crate::text::{
    char_is_uppercase, push_signed_decimal, same_text, signed_decimal, uppercase_char,
};

verus! {

/// Label of the entity class id carried by a boss-kill message.
pub open spec fn entity_class_label(class: i32) -> Seq<char> {
    if class == 5 {
        "walker"@
    } else if class == 8 {
        "mid_boss"@
    } else if class == 28 {
        "titan_shield_generator"@
    } else if class == 29 {
        "barracks"@
    } else if class == 30 {
        "titan"@
    } else if class == 31 {
        "core"@
    } else {
        "unknown"@
    }
}

/// The label of the entity class id carried by a boss-kill message.
pub fn entity_class_name(class: i32) -> (name: &'static str)
    ensures
        name@ == entity_class_label(class),
{
    match class {
        5 => "walker",
        8 => "mid_boss",
        28 => "titan_shield_generator",
        29 => "barracks",
        30 => "titan",
        31 => "core",
        _ => "unknown",
    }
}

/// Objective kind of an objective NPC class.
pub open spec fn objective_label(class_name: Seq<char>) -> Seq<char> {
    if class_name == "CNPC_Boss_Tier2"@ {
        "walker"@
    } else if class_name == "CNPC_Boss_Tier3"@ {
        "titan"@
    } else if class_name == "CNPC_BarrackBoss"@ {
        "barracks"@
    } else if class_name == "CNPC_MidBoss"@ {
        "mid_boss"@
    } else {
        "unknown"@
    }
}

/// The objective kind (`walker`, `titan`, `barracks`, `mid_boss`) of an
/// objective NPC class, or `unknown`.
pub fn objective_type(class_name: &str) -> (kind: &'static str)
    ensures
        kind@ == objective_label(class_name@),
{
    if same_text(class_name, "CNPC_Boss_Tier2") {
        "walker"
    } else if same_text(class_name, "CNPC_Boss_Tier3") {
        "titan"
    } else if same_text(class_name, "CNPC_BarrackBoss") {
        "barracks"
    } else if same_text(class_name, "CNPC_MidBoss") {
        "mid_boss"
    } else {
        "unknown"
    }
}

/// Shop change kind of an ability-change message.
pub open spec fn change_label(change: i32) -> Seq<char> {
    if change == 0 {
        "purchased"@
    } else if change == 1 {
        "upgraded"@
    } else if change == 2 {
        "sold"@
    } else if change == 3 {
        "swapped"@
    } else if change == 4 {
        "failure"@
    } else {
        "unknown"@
    }
}

/// The shop change kind of an ability-change message.
pub fn change_name(change: i32) -> (name: &'static str)
    ensures
        name@ == change_label(change),
{
    match change {
        0 => "purchased",
        1 => "upgraded",
        2 => "sold",
        3 => "swapped",
        4 => "failure",
        _ => "unknown",
    }
}

/// Name of a team code in the post-match metadata.
pub open spec fn team_label(team: i32) -> Seq<char> {
    if team == 0 {
        "Team0"@
    } else if team == 1 {
        "Team1"@
    } else if team == 2 {
        "Spectator"@
    } else {
        "Unknown"@
    }
}

/// The name of a team code in the post-match metadata.
pub fn team_name(team: i32) -> (name: &'static str)
    ensures
        name@ == team_label(team),
{
    match team {
        0 => "Team0",
        1 => "Team1",
        2 => "Spectator",
        _ => "Unknown",
    }
}

/// Trooper kind of a trooper NPC class.
pub open spec fn trooper_label(class_name: Seq<char>) -> Seq<char> {
    if class_name == "CNPC_Trooper"@ {
        "trooper"@
    } else if class_name == "CNPC_TrooperBoss"@ {
        "trooper_boss"@
    } else {
        "unknown"@
    }
}

/// The trooper kind (`trooper`, `trooper_boss`) of a trooper NPC class, or
/// `unknown`.
pub fn trooper_type(class_name: &str) -> (kind: &'static str)
    ensures
        kind@ == trooper_label(class_name@),
{
    if same_text(class_name, "CNPC_Trooper") {
        "trooper"
    } else if same_text(class_name, "CNPC_TrooperBoss") {
        "trooper_boss"
    } else {
        "unknown"
    }
}

/// The value type codes of the permanent stat pickups.
pub const EVAL_HEALTH: u32 = 28;

pub const EVAL_SPIRIT_POWER: u32 = 48;

pub const EVAL_FIRE_RATE: u32 = 76;

pub const EVAL_WEAPON_DAMAGE: u32 = 15;

pub const EVAL_COOLDOWN_REDUCTION: u32 = 106;

pub const EVAL_AMMO: u32 = 169;

/// Position of a stat pickup value type among health, spirit power, fire
/// rate, weapon damage, cooldown reduction and ammo.
pub open spec fn stat_position(val_type: u32) -> Option<usize> {
    if val_type == EVAL_HEALTH {
        Some(0)
    } else if val_type == EVAL_SPIRIT_POWER {
        Some(1)
    } else if val_type == EVAL_FIRE_RATE {
        Some(2)
    } else if val_type == EVAL_WEAPON_DAMAGE {
        Some(3)
    } else if val_type == EVAL_COOLDOWN_REDUCTION {
        Some(4)
    } else if val_type == EVAL_AMMO {
        Some(5)
    } else {
        None
    }
}

/// Index into the six tracked pickup stats of a value type code.
pub fn stat_index(val_type: u32) -> (r: Option<usize>)
    ensures
        r == stat_position(val_type),
{
    match val_type {
        EVAL_HEALTH => Some(0),
        EVAL_SPIRIT_POWER => Some(1),
        EVAL_FIRE_RATE => Some(2),
        EVAL_WEAPON_DAMAGE => Some(3),
        EVAL_COOLDOWN_REDUCTION => Some(4),
        EVAL_AMMO => Some(5),
        _ => None,
    }
}

/// Label of a damage-matrix stat type.
pub open spec fn stat_type_text(stat_type: i32) -> Seq<char> {
    if stat_type == 0 {
        "damage"@
    } else if stat_type == 1 {
        "healing"@
    } else if stat_type == 2 {
        "heal_prevented"@
    } else if stat_type == 3 {
        "mitigated"@
    } else if stat_type == 4 {
        "lethal"@
    } else if stat_type == 5 {
        "regen"@
    } else {
        "unknown_"@ + signed_decimal(stat_type as int)
    }
}

/// Human-readable label for a damage-matrix stat type; an unknown code `n`
/// becomes `unknown_n`.
pub fn stat_type_label(stat_type: i32) -> (label: String)
    ensures
        label@ == stat_type_text(stat_type),
{
    match stat_type {
        0 => String::from_str("damage"),
        1 => String::from_str("healing"),
        2 => String::from_str("heal_prevented"),
        3 => String::from_str("mitigated"),
        4 => String::from_str("lethal"),
        5 => String::from_str("regen"),
        other => {
            let mut s = String::from_str("unknown_");
            push_signed_decimal(&mut s, other as i64);
            s
        },
    }
}

/// Whether a class name is one of the two Sinner's Sacrifice machines.
pub open spec fn sinners_sacrifice_class(class_name: Seq<char>) -> bool {
    class_name == "CNPC_Neutral_SinnersSacrifice"@ || class_name
        == "CNPC_Neutral_SinnersSacrifice_Hideout"@
}

/// Whether an entity class is a Sinner's Sacrifice machine.
pub fn is_sinners_sacrifice(class_name: &str) -> (r: bool)
    ensures
        r == sinners_sacrifice_class(class_name@),
{
    same_text(class_name, "CNPC_Neutral_SinnersSacrifice") || same_text(
        class_name,
        "CNPC_Neutral_SinnersSacrifice_Hideout",
    )
}

/// `citadel_type` value of melee-typed damage.
pub const MELEE_CITADEL_TYPE: i32 = 3;

/// Damage flag of a light melee hit.
pub const DAMAGE_FLAG_LIGHT_MELEE: u64 = 0x2_0000_0000;

/// Damage flag of a heavy melee hit.
pub const DAMAGE_FLAG_HEAVY_MELEE: u64 = 0x4_0000_0000;

/// The melee flag and melee subtype of a damage event: non-melee damage has
/// no subtype; melee damage is `light` or `heavy` when exactly one of the two
/// melee flags is set, and `other` otherwise.
pub open spec fn melee_class(citadel_type: i32, damage_flags: u64) -> (bool, Option<Seq<char>>) {
    if citadel_type != MELEE_CITADEL_TYPE {
        (false, None)
    } else {
        let is_light = damage_flags & DAMAGE_FLAG_LIGHT_MELEE != 0;
        let is_heavy = damage_flags & DAMAGE_FLAG_HEAVY_MELEE != 0;
        if is_light && !is_heavy {
            (true, Some("light"@))
        } else if !is_light && is_heavy {
            (true, Some("heavy"@))
        } else {
            (true, Some("other"@))
        }
    }
}

/// Return the melee flag and nullable melee subtype for a damage event.
pub fn classify_melee_damage(citadel_type: i32, damage_flags: u64) -> (r: (
    bool,
    Option<&'static str>,
))
    ensures
        r.0 == melee_class(citadel_type, damage_flags).0,
        match (r.1, melee_class(citadel_type, damage_flags).1) {
            (Some(a), Some(b)) => a@ == b,
            (None, None) => true,
            _ => false,
        },
{
    if citadel_type != MELEE_CITADEL_TYPE {
        return (false, None);
    }
    let is_light = damage_flags & DAMAGE_FLAG_LIGHT_MELEE != 0;
    let is_heavy = damage_flags & DAMAGE_FLAG_HEAVY_MELEE != 0;
    let melee_type = match (is_light, is_heavy) {
        (true, false) => "light",
        (false, true) => "heavy",
        _ => "other",
    };
    (true, Some(melee_type))
}

/// Whether a damage source name is one of the coarse damage-type buckets
/// (Capitalized, no underscore) rather than a specific snake_case source.
pub open spec fn category_source(name: Seq<char>) -> bool {
    name.len() > 0 && uppercase_char(name[0]) && !name.contains('_')
}

/// Whether a `source_name` is a coarse damage-type bucket (such as `Bullet`
/// or `Melee`) rather than a specific source. A name that starts with an
/// ASCII capital and has no underscore is one; a name that starts with an
/// ASCII small letter, digit or underscore is not.
pub fn is_category_source(name: &str) -> (r: bool)
    ensures
        r == category_source(name@),
        (name@.len() > 0 && 'A' <= name@[0] <= 'Z' && !name@.contains('_')) ==> r,
        (name@.len() > 0 && ('a' <= name@[0] <= 'z' || '0' <= name@[0] <= '9' || name@[0]
            == '_')) ==> !r,
{
    let n = name.unicode_len();
    if n == 0 {
        return false;
    }
    if !char_is_uppercase(name.get_char(0)) {
        return false;
    }
    let mut i: usize = 0;
    while i < n
        invariant
            n == name@.len(),
            i <= n,
            forall|j: int| 0 <= j < i ==> name@[j] != '_',
        decreases n - i,
    {
        if name.get_char(i) == '_' {
            assert(name@.contains('_'));
            return false;
        }
        i = i + 1;
    }
    true
}

} // verus!
