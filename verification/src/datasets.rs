//! The datasets a demo offers, their names, and how a request to load some of
//! them is planned: validation, which still need loading, and which parser
//! pass, message kinds and entity classes serve them.
use vstd::prelude::*;
use vstd::string::*;

use crate::snapshot::SnapWants;
use crate::text::same_text;

verus! {

/// A dataset that can be loaded from a demo.
#[derive(Clone, Copy, PartialEq, Eq, Structural, Debug)]
pub enum Dataset {
    Abilities,
    AbilityUpgrades,
    AbilityTicks,
    Chat,
    MidBoss,
    Objectives,
    PlayerTicks,
    WorldTicks,
    Kills,
    Damage,
    FlexSlots,
    ItemPurchases,
    Troopers,
    Neutrals,
    Breakables,
    SinnersSacrifice,
    StatModifierEvents,
    ActiveModifiers,
    Urn,
    Rift,
    Healing,
    StreetBrawlTicks,
    StreetBrawlRounds,
}

/// Position of a dataset in the canonical order.
pub open spec fn dataset_index(d: Dataset) -> int {
    match d {
        Dataset::Abilities => 0,
        Dataset::AbilityUpgrades => 1,
        Dataset::AbilityTicks => 2,
        Dataset::Chat => 3,
        Dataset::MidBoss => 4,
        Dataset::Objectives => 5,
        Dataset::PlayerTicks => 6,
        Dataset::WorldTicks => 7,
        Dataset::Kills => 8,
        Dataset::Damage => 9,
        Dataset::FlexSlots => 10,
        Dataset::ItemPurchases => 11,
        Dataset::Troopers => 12,
        Dataset::Neutrals => 13,
        Dataset::Breakables => 14,
        Dataset::SinnersSacrifice => 15,
        Dataset::StatModifierEvents => 16,
        Dataset::ActiveModifiers => 17,
        Dataset::Urn => 18,
        Dataset::Rift => 19,
        Dataset::Healing => 20,
        Dataset::StreetBrawlTicks => 21,
        Dataset::StreetBrawlRounds => 22,
    }
}

/// Every dataset, in canonical order: the general datasets, then the two
/// street brawl datasets.
pub open spec fn all_datasets() -> Seq<Dataset> {
    seq![
        Dataset::Abilities,
        Dataset::AbilityUpgrades,
        Dataset::AbilityTicks,
        Dataset::Chat,
        Dataset::MidBoss,
        Dataset::Objectives,
        Dataset::PlayerTicks,
        Dataset::WorldTicks,
        Dataset::Kills,
        Dataset::Damage,
        Dataset::FlexSlots,
        Dataset::ItemPurchases,
        Dataset::Troopers,
        Dataset::Neutrals,
        Dataset::Breakables,
        Dataset::SinnersSacrifice,
        Dataset::StatModifierEvents,
        Dataset::ActiveModifiers,
        Dataset::Urn,
        Dataset::Rift,
        Dataset::Healing,
        Dataset::StreetBrawlTicks,
        Dataset::StreetBrawlRounds,
    ]
}

/// The name under which a dataset is requested.
pub open spec fn dataset_name(d: Dataset) -> Seq<char> {
    match d {
        Dataset::Abilities => "abilities"@,
        Dataset::AbilityUpgrades => "ability_upgrades"@,
        Dataset::AbilityTicks => "ability_ticks"@,
        Dataset::Chat => "chat"@,
        Dataset::MidBoss => "mid_boss"@,
        Dataset::Objectives => "objectives"@,
        Dataset::PlayerTicks => "player_ticks"@,
        Dataset::WorldTicks => "world_ticks"@,
        Dataset::Kills => "kills"@,
        Dataset::Damage => "damage"@,
        Dataset::FlexSlots => "flex_slots"@,
        Dataset::ItemPurchases => "item_purchases"@,
        Dataset::Troopers => "troopers"@,
        Dataset::Neutrals => "neutrals"@,
        Dataset::Breakables => "breakables"@,
        Dataset::SinnersSacrifice => "sinners_sacrifice"@,
        Dataset::StatModifierEvents => "stat_modifier_events"@,
        Dataset::ActiveModifiers => "active_modifiers"@,
        Dataset::Urn => "urn"@,
        Dataset::Rift => "rift"@,
        Dataset::Healing => "healing"@,
        Dataset::StreetBrawlTicks => "street_brawl_ticks"@,
        Dataset::StreetBrawlRounds => "street_brawl_rounds"@,
    }
}

/// The street brawl datasets, only offered by street brawl demos.
pub open spec fn street_brawl_only(d: Dataset) -> bool {
    d == Dataset::StreetBrawlTicks || d == Dataset::StreetBrawlRounds
}

/// The datasets that the keyframe-segmented snapshot pass collects.
pub open spec fn snapshot_dataset(d: Dataset) -> bool {
    d == Dataset::PlayerTicks || d == Dataset::WorldTicks || d == Dataset::Troopers
}

/// Whether some dataset is named `name`.
pub open spec fn known_name(name: Seq<char>) -> bool {
    exists|d: Dataset| dataset_name(d) == name
}

/// The game mode code of street brawl.
pub const STREET_BRAWL_GAME_MODE: i64 = 4;

impl Dataset {
    /// The name under which this dataset is requested.
    pub fn name(self) -> (r: &'static str)
        ensures
            r@ == dataset_name(self),
    {
        match self {
            Dataset::Abilities => "abilities",
            Dataset::AbilityUpgrades => "ability_upgrades",
            Dataset::AbilityTicks => "ability_ticks",
            Dataset::Chat => "chat",
            Dataset::MidBoss => "mid_boss",
            Dataset::Objectives => "objectives",
            Dataset::PlayerTicks => "player_ticks",
            Dataset::WorldTicks => "world_ticks",
            Dataset::Kills => "kills",
            Dataset::Damage => "damage",
            Dataset::FlexSlots => "flex_slots",
            Dataset::ItemPurchases => "item_purchases",
            Dataset::Troopers => "troopers",
            Dataset::Neutrals => "neutrals",
            Dataset::Breakables => "breakables",
            Dataset::SinnersSacrifice => "sinners_sacrifice",
            Dataset::StatModifierEvents => "stat_modifier_events",
            Dataset::ActiveModifiers => "active_modifiers",
            Dataset::Urn => "urn",
            Dataset::Rift => "rift",
            Dataset::Healing => "healing",
            Dataset::StreetBrawlTicks => "street_brawl_ticks",
            Dataset::StreetBrawlRounds => "street_brawl_rounds",
        }
    }

    /// The dataset named `name`, if any.
    pub fn from_name(name: &str) -> (r: Option<Dataset>)
        ensures
            match r {
                Some(d) => dataset_name(d) == name@,
                None => !known_name(name@),
            },
    {
        let all = all_dataset_values();
        let n = all.len();
        let mut i: usize = 0;
        while i < n
            invariant
                n == all@.len(),
                all@ == all_datasets(),
                i <= n,
                forall|j: int| 0 <= j < i ==> dataset_name(#[trigger] all@[j]) != name@,
            decreases n - i,
        {
            if same_text(all[i].name(), name) {
                return Some(all[i]);
            }
            i = i + 1;
        }
        proof {
            assert forall|d: Dataset| dataset_name(d) != name@ by {
                lemma_all_datasets_complete(d);
                let j = dataset_index(d);
                assert(all@[j] == d);
            }
        }
        None
    }

    /// Whether this is a street brawl dataset.
    pub fn is_street_brawl(self) -> (r: bool)
        ensures
            r == street_brawl_only(self),
    {
        self == Dataset::StreetBrawlTicks || self == Dataset::StreetBrawlRounds
    }

    /// Whether the snapshot pass collects this dataset.
    pub fn is_snapshot(self) -> (r: bool)
        ensures
            r == snapshot_dataset(self),
    {
        self == Dataset::PlayerTicks || self == Dataset::WorldTicks || self == Dataset::Troopers
    }
}

/// Every dataset sits at its canonical index.
pub proof fn lemma_all_datasets_complete(d: Dataset)
    ensures
        0 <= dataset_index(d) < all_datasets().len(),
        all_datasets()[dataset_index(d)] == d,
{
}

/// Every dataset, in canonical order.
pub fn all_dataset_values() -> (r: Vec<Dataset>)
    ensures
        r@ == all_datasets(),
{
    let mut r: Vec<Dataset> = Vec::new();
    r.push(Dataset::Abilities);
    r.push(Dataset::AbilityUpgrades);
    r.push(Dataset::AbilityTicks);
    r.push(Dataset::Chat);
    r.push(Dataset::MidBoss);
    r.push(Dataset::Objectives);
    r.push(Dataset::PlayerTicks);
    r.push(Dataset::WorldTicks);
    r.push(Dataset::Kills);
    r.push(Dataset::Damage);
    r.push(Dataset::FlexSlots);
    r.push(Dataset::ItemPurchases);
    r.push(Dataset::Troopers);
    r.push(Dataset::Neutrals);
    r.push(Dataset::Breakables);
    r.push(Dataset::SinnersSacrifice);
    r.push(Dataset::StatModifierEvents);
    r.push(Dataset::ActiveModifiers);
    r.push(Dataset::Urn);
    r.push(Dataset::Rift);
    r.push(Dataset::Healing);
    r.push(Dataset::StreetBrawlTicks);
    r.push(Dataset::StreetBrawlRounds);
    assert(r@ =~= all_datasets());
    r
}

/// The names of every dataset that can be passed to `load()` or read as a
/// property: the general datasets, then the street brawl datasets.
pub fn available_datasets() -> (r: Vec<&'static str>)
    ensures
        r@.len() == all_datasets().len(),
        forall|i: int| 0 <= i < r@.len() ==> #[trigger] r@[i]@ == dataset_name(all_datasets()[i]),
{
    let all = all_dataset_values();
    let mut r: Vec<&'static str> = Vec::new();
    let n = all.len();
    let mut i: usize = 0;
    while i < n
        invariant
            n == all@.len(),
            all@ == all_datasets(),
            i <= n,
            r@.len() == i,
            forall|j: int| 0 <= j < i ==> #[trigger] r@[j]@ == dataset_name(all_datasets()[j]),
        decreases n - i,
    {
        r.push(all[i].name());
        i = i + 1;
    }
    r
}

/// Dataset names are distinct, so a name identifies its dataset.
pub proof fn lemma_dataset_name_injective(a: Dataset, b: Dataset)
    requires
        dataset_name(a) == dataset_name(b),
    ensures
        a == b,
{
    reveal_strlit("abilities");
    reveal_strlit("ability_upgrades");
    reveal_strlit("ability_ticks");
    reveal_strlit("chat");
    reveal_strlit("mid_boss");
    reveal_strlit("objectives");
    reveal_strlit("player_ticks");
    reveal_strlit("world_ticks");
    reveal_strlit("kills");
    reveal_strlit("damage");
    reveal_strlit("flex_slots");
    reveal_strlit("item_purchases");
    reveal_strlit("troopers");
    reveal_strlit("neutrals");
    reveal_strlit("breakables");
    reveal_strlit("sinners_sacrifice");
    reveal_strlit("stat_modifier_events");
    reveal_strlit("active_modifiers");
    reveal_strlit("urn");
    reveal_strlit("rift");
    reveal_strlit("healing");
    reveal_strlit("street_brawl_ticks");
    reveal_strlit("street_brawl_rounds");
    if a != b {
        let sa = dataset_name(a);
        let sb = dataset_name(b);
        if sa.len() == sb.len() {
            assert(sa[0] != sb[0] || sa[1] != sb[1] || sa[2] != sb[2] || sa[sa.len() - 1]
                != sb[sb.len() - 1] || sa[sa.len() - 2] != sb[sb.len() - 2]);
        }
    }
}

impl Dataset {
    /// Position of this dataset in the canonical order.
    pub fn index(self) -> (r: usize)
        ensures
            r == dataset_index(self),
    {
        match self {
            Dataset::Abilities => 0,
            Dataset::AbilityUpgrades => 1,
            Dataset::AbilityTicks => 2,
            Dataset::Chat => 3,
            Dataset::MidBoss => 4,
            Dataset::Objectives => 5,
            Dataset::PlayerTicks => 6,
            Dataset::WorldTicks => 7,
            Dataset::Kills => 8,
            Dataset::Damage => 9,
            Dataset::FlexSlots => 10,
            Dataset::ItemPurchases => 11,
            Dataset::Troopers => 12,
            Dataset::Neutrals => 13,
            Dataset::Breakables => 14,
            Dataset::SinnersSacrifice => 15,
            Dataset::StatModifierEvents => 16,
            Dataset::ActiveModifiers => 17,
            Dataset::Urn => 18,
            Dataset::Rift => 19,
            Dataset::Healing => 20,
            Dataset::StreetBrawlTicks => 21,
            Dataset::StreetBrawlRounds => 22,
        }
    }
}

/// A user message kind that dataset loading reads from the demo.
#[derive(Clone, Copy, PartialEq, Eq, Structural, Debug)]
pub enum UserMessage {
    GameOver,
    BannedHeroes,
    HeroKilled,
    Damage,
    FlexSlotUnlocked,
    ImportantAbilityUsed,
    AbilitiesChanged,
    ChatMsg,
    MidBossSpawned,
    BossKilled,
    RejuvStatus,
    StreetBrawlScoring,
    PostMatchDetails,
}

/// The message kind whose messages are, one for one, the rows of an event
/// dataset; none for a name that is not such a dataset.
pub open spec fn direct_message(name: Seq<char>) -> Option<UserMessage> {
    if name == "kills"@ {
        Some(UserMessage::HeroKilled)
    } else if name == "damage"@ {
        Some(UserMessage::Damage)
    } else if name == "flex_slots"@ {
        Some(UserMessage::FlexSlotUnlocked)
    } else if name == "abilities"@ {
        Some(UserMessage::ImportantAbilityUsed)
    } else if name == "item_purchases"@ {
        Some(UserMessage::AbilitiesChanged)
    } else if name == "chat"@ {
        Some(UserMessage::ChatMsg)
    } else {
        None
    }
}

/// The message kind that directly yields the rows of the named event
/// dataset, so that its ticks can be read without building the dataset.
pub fn direct_event_message_type(name: &str) -> (r: Option<UserMessage>)
    ensures
        r == direct_message(name@),
{
    if same_text(name, "kills") {
        Some(UserMessage::HeroKilled)
    } else if same_text(name, "damage") {
        Some(UserMessage::Damage)
    } else if same_text(name, "flex_slots") {
        Some(UserMessage::FlexSlotUnlocked)
    } else if same_text(name, "abilities") {
        Some(UserMessage::ImportantAbilityUsed)
    } else if same_text(name, "item_purchases") {
        Some(UserMessage::AbilitiesChanged)
    } else if same_text(name, "chat") {
        Some(UserMessage::ChatMsg)
    } else {
        None
    }
}

/// Why a load request is refused.
pub enum LoadError {
    /// The first requested name that names no dataset.
    UnknownDataset(String),
    /// A street brawl dataset was requested from a demo of another game mode.
    NotStreetBrawl,
}

/// How a load request is served.
pub struct LoadPlan {
    /// Datasets for the keyframe-segmented snapshot pass.
    pub snapshots: SnapWants,
    /// Datasets for the filtered serial pass, in canonical order.
    pub serial: Vec<Dataset>,
    /// Whether the serial pass reads user messages as well as entities.
    pub read_events: bool,
    /// The user message kinds the serial pass decodes, each once.
    pub messages: Vec<UserMessage>,
    /// The entity classes the serial pass decodes, each once.
    pub entity_classes: Vec<&'static str>,
    /// Whether every networked ability class must be decoded too.
    pub ability_classes: bool,
}

/// Some requested name names `d`.
pub open spec fn requested(names: Seq<String>, d: Dataset) -> bool {
    exists|i: int| 0 <= i < names.len() && #[trigger] names[i]@ == dataset_name(d)
}

/// `d` is requested and not cached yet.
pub open spec fn needs_load(names: Seq<String>, cached: Seq<Dataset>, d: Dataset) -> bool {
    requested(names, d) && !cached.contains(d)
}

/// `d` still needs loading and is served by the serial pass.
pub open spec fn serial_load(names: Seq<String>, cached: Seq<Dataset>, d: Dataset) -> bool {
    needs_load(names, cached, d) && !snapshot_dataset(d)
}

/// The serial pass must read user messages.
pub open spec fn reads_events(names: Seq<String>, cached: Seq<Dataset>) -> bool {
    let f = |d: Dataset| serial_load(names, cached, d);
    f(Dataset::Abilities) || f(Dataset::Kills) || f(Dataset::Damage) || f(Dataset::Healing) || f(
        Dataset::SinnersSacrifice,
    ) || f(Dataset::FlexSlots) || f(Dataset::ItemPurchases) || f(Dataset::Chat) || f(
        Dataset::MidBoss,
    ) || f(Dataset::StreetBrawlRounds)
}

/// The serial pass decodes message kind `m`: game-over and ban messages
/// until they have been scanned once, and the messages of each event dataset.
pub open spec fn wanted_message(
    names: Seq<String>,
    cached: Seq<Dataset>,
    scanned: bool,
    m: UserMessage,
) -> bool {
    let f = |d: Dataset| serial_load(names, cached, d);
    match m {
        UserMessage::GameOver => !scanned,
        UserMessage::BannedHeroes => !scanned,
        UserMessage::HeroKilled => f(Dataset::Kills),
        UserMessage::Damage => f(Dataset::Damage) || f(Dataset::Healing) || f(
            Dataset::SinnersSacrifice,
        ),
        UserMessage::FlexSlotUnlocked => f(Dataset::FlexSlots),
        UserMessage::ImportantAbilityUsed => f(Dataset::Abilities),
        UserMessage::AbilitiesChanged => f(Dataset::ItemPurchases),
        UserMessage::ChatMsg => f(Dataset::Chat),
        UserMessage::MidBossSpawned => f(Dataset::MidBoss),
        UserMessage::BossKilled => f(Dataset::MidBoss),
        UserMessage::RejuvStatus => f(Dataset::MidBoss),
        UserMessage::StreetBrawlScoring => f(Dataset::StreetBrawlRounds),
        UserMessage::PostMatchDetails => false,
    }
}

/// The entity classes the serial pass decodes for one dataset.
pub open spec fn dataset_classes(d: Dataset) -> Seq<Seq<char>> {
    match d {
        Dataset::Abilities => seq!["CCitadelPlayerPawn"@],
        Dataset::Kills => seq!["CCitadelPlayerPawn"@],
        Dataset::Damage => seq!["CCitadelPlayerPawn"@],
        Dataset::Healing => seq!["CCitadelPlayerPawn"@],
        Dataset::MidBoss => seq!["CCitadelPlayerPawn"@],
        Dataset::ActiveModifiers => seq!["CCitadelPlayerPawn"@],
        Dataset::AbilityTicks => seq!["CCitadelPlayerPawn"@],
        Dataset::SinnersSacrifice => seq![
            "CCitadelPlayerPawn"@,
            "CNPC_Neutral_SinnersSacrifice"@,
            "CNPC_Neutral_SinnersSacrifice_Hideout"@,
        ],
        Dataset::Urn => seq!["CCitadelPlayerPawn"@, "CCitadelIdolReturnTrigger"@],
        Dataset::AbilityUpgrades => seq!["CCitadelPlayerController"@],
        Dataset::ItemPurchases => seq!["CCitadelPlayerController"@],
        Dataset::Chat => seq!["CCitadelPlayerController"@],
        Dataset::StatModifierEvents => seq!["CCitadelPlayerController"@],
        Dataset::StreetBrawlTicks => seq!["CCitadelGameRulesProxy"@],
        Dataset::Rift => seq!["CCitadelGameRulesProxy"@, "CCitadelItemKothSpawner"@],
        Dataset::Objectives => seq![
            "CNPC_Boss_Tier2"@,
            "CNPC_Boss_Tier3"@,
            "CNPC_BarrackBoss"@,
            "CNPC_MidBoss"@,
            "CCitadel_Destroyable_Building"@,
        ],
        Dataset::Neutrals => seq!["CNPC_TrooperNeutral"@],
        Dataset::Breakables => seq!["CCitadel_BreakableProp"@],
        Dataset::PlayerTicks => seq!["CCitadelPlayerPawn"@, "CCitadelPlayerController"@],
        Dataset::WorldTicks => seq!["CCitadelGameRulesProxy"@],
        Dataset::Troopers => seq!["CNPC_Trooper"@, "CNPC_TrooperBoss"@],
        Dataset::FlexSlots => seq![],
        Dataset::StreetBrawlRounds => seq![],
    }
}

/// The entity classes of one dataset.
pub fn classes_of(d: Dataset) -> (r: Vec<&'static str>)
    ensures
        class_views(r@) == dataset_classes(d),
{
    let mut r: Vec<&'static str> = Vec::new();
    match d {
        Dataset::Abilities | Dataset::Kills | Dataset::Damage | Dataset::Healing
        | Dataset::MidBoss | Dataset::ActiveModifiers | Dataset::AbilityTicks => {
            r.push("CCitadelPlayerPawn");
        },
        Dataset::SinnersSacrifice => {
            r.push("CCitadelPlayerPawn");
            r.push("CNPC_Neutral_SinnersSacrifice");
            r.push("CNPC_Neutral_SinnersSacrifice_Hideout");
        },
        Dataset::Urn => {
            r.push("CCitadelPlayerPawn");
            r.push("CCitadelIdolReturnTrigger");
        },
        Dataset::AbilityUpgrades | Dataset::ItemPurchases | Dataset::Chat
        | Dataset::StatModifierEvents => {
            r.push("CCitadelPlayerController");
        },
        Dataset::StreetBrawlTicks | Dataset::WorldTicks => {
            r.push("CCitadelGameRulesProxy");
        },
        Dataset::Rift => {
            r.push("CCitadelGameRulesProxy");
            r.push("CCitadelItemKothSpawner");
        },
        Dataset::Objectives => {
            r.push("CNPC_Boss_Tier2");
            r.push("CNPC_Boss_Tier3");
            r.push("CNPC_BarrackBoss");
            r.push("CNPC_MidBoss");
            r.push("CCitadel_Destroyable_Building");
        },
        Dataset::Neutrals => {
            r.push("CNPC_TrooperNeutral");
        },
        Dataset::Breakables => {
            r.push("CCitadel_BreakableProp");
        },
        Dataset::PlayerTicks => {
            r.push("CCitadelPlayerPawn");
            r.push("CCitadelPlayerController");
        },
        Dataset::Troopers => {
            r.push("CNPC_Trooper");
            r.push("CNPC_TrooperBoss");
        },
        Dataset::FlexSlots | Dataset::StreetBrawlRounds => {},
    }
    assert(class_views(r@) =~= dataset_classes(d));
    r
}

/// The names of a list of classes.
pub open spec fn class_views(v: Seq<&'static str>) -> Seq<Seq<char>> {
    v.map_values(|s: &'static str| s@)
}

/// A class the serial pass decodes: one of a serial dataset's classes.
pub open spec fn wanted_class(names: Seq<String>, cached: Seq<Dataset>, c: Seq<char>) -> bool {
    exists|d: Dataset| serial_load(names, cached, d) && #[trigger] dataset_classes(d).contains(c)
}

/// Index of the first name that names no dataset.
pub open spec fn first_unknown(names: Seq<String>, i: int) -> bool {
    0 <= i < names.len() && !known_name(names[i]@) && forall|j: int|
        0 <= j < i ==> known_name(#[trigger] names[j]@)
}

/// Some name names no dataset.
pub open spec fn has_unknown(names: Seq<String>) -> bool {
    exists|i: int| 0 <= i < names.len() && !known_name(#[trigger] names[i]@)
}

/// A street brawl dataset is requested.
pub open spec fn wants_street_brawl(names: Seq<String>) -> bool {
    requested(names, Dataset::StreetBrawlTicks) || requested(names, Dataset::StreetBrawlRounds)
}

fn contains_dataset(v: &Vec<Dataset>, d: Dataset) -> (r: bool)
    ensures
        r == v@.contains(d),
{
    let n = v.len();
    let mut i: usize = 0;
    while i < n
        invariant
            n == v@.len(),
            i <= n,
            forall|j: int| 0 <= j < i ==> v@[j] != d,
        decreases n - i,
    {
        if v[i] == d {
            return true;
        }
        i = i + 1;
    }
    false
}

fn contains_class(v: &Vec<&'static str>, c: &str) -> (r: bool)
    ensures
        r == class_views(v@).contains(c@),
{
    let n = v.len();
    let mut i: usize = 0;
    while i < n
        invariant
            n == v@.len(),
            i <= n,
            forall|j: int| 0 <= j < i ==> v@[j]@ != c@,
        decreases n - i,
    {
        if same_text(v[i], c) {
            assert(class_views(v@)[i as int] == c@);
            return true;
        }
        i = i + 1;
    }
    false
}

/// Flags, by canonical index, of the datasets a request names; the first
/// name that names no dataset refuses the request.
fn requested_flags(names: &Vec<String>) -> (r: Result<Vec<bool>, LoadError>)
    ensures
        match r {
            Err(LoadError::UnknownDataset(name)) => exists|i: int|
                first_unknown(names@, i) && name@ == names@[i]@,
            Err(LoadError::NotStreetBrawl) => false,
            Ok(req) => {
                &&& !has_unknown(names@)
                &&& req@.len() == 23
                &&& forall|d: Dataset| #[trigger] req@[dataset_index(d)] == requested(names@, d)
            },
        },
{
    let mut req: Vec<bool> = Vec::new();
    let mut k: usize = 0;
    while k < 23
        invariant
            k <= 23,
            req@.len() == k,
            forall|j: int| 0 <= j < k ==> !req@[j],
        decreases 23 - k,
    {
        req.push(false);
        k = k + 1;
    }
    let n = names.len();
    let mut i: usize = 0;
    while i < n
        invariant
            n == names@.len(),
            i <= n,
            req@.len() == 23,
            forall|j: int| 0 <= j < i ==> known_name(#[trigger] names@[j]@),
            forall|d: Dataset|
                #[trigger] req@[dataset_index(d)] == exists|j: int|
                    0 <= j < i && #[trigger] names@[j]@ == dataset_name(d),
        decreases n - i,
    {
        match Dataset::from_name(names[i].as_str()) {
            None => {
                let name = names[i].clone();
                assert(first_unknown(names@, i as int));
                return Err(LoadError::UnknownDataset(name));
            },
            Some(d) => {
                req.set(d.index(), true);
                proof {
                    assert forall|e: Dataset|
                        #[trigger] req@[dataset_index(e)] == exists|j: int|
                            0 <= j < i + 1 && #[trigger] names@[j]@ == dataset_name(e) by {
                        if e == d {
                            assert(names@[i as int]@ == dataset_name(e));
                        } else {
                            lemma_index_injective(e, d);
                            if exists|j: int|
                                0 <= j < i + 1 && #[trigger] names@[j]@ == dataset_name(e) {
                                let j = choose|j: int|
                                    0 <= j < i + 1 && #[trigger] names@[j]@ == dataset_name(e);
                                if j == i {
                                    lemma_dataset_name_injective(e, d);
                                }
                            }
                        }
                    }
                }
            },
        }
        i = i + 1;
    }
    Ok(req)
}

/// Flags, by canonical index, of the requested datasets not cached yet.
fn load_flags(req: &Vec<bool>, cached: &Vec<Dataset>) -> (load: Vec<bool>)
    requires
        req@.len() == 23,
    ensures
        load@.len() == 23,
        forall|d: Dataset|
            #[trigger] load@[dataset_index(d)] == (req@[dataset_index(d)] && !cached@.contains(d)),
{
    let all = all_dataset_values();
    let mut load: Vec<bool> = Vec::new();
    let mut k: usize = 0;
    while k < 23
        invariant
            k <= 23,
            all@ == all_datasets(),
            req@.len() == 23,
            load@.len() == k,
            forall|j: int|
                0 <= j < k ==> load@[j] == (req@[j] && !cached@.contains(
                    #[trigger] all_datasets()[j],
                )),
        decreases 23 - k,
    {
        let d = all[k];
        let c = contains_dataset(cached, d);
        load.push(req[k] && !c);
        k = k + 1;
    }
    assert forall|d: Dataset|
        #[trigger] load@[dataset_index(d)] == (req@[dataset_index(d)] && !cached@.contains(d)) by {
        lemma_all_datasets_complete(d);
    }
    load
}

/// The datasets flagged for loading that the serial pass serves, in
/// canonical order.
fn serial_datasets(load: &Vec<bool>) -> (serial: Vec<Dataset>)
    requires
        load@.len() == 23,
    ensures
        serial@ == all_datasets().filter(
            |d: Dataset| load@[dataset_index(d)] && !snapshot_dataset(d),
        ),
{
    let all = all_dataset_values();
    let mut serial: Vec<Dataset> = Vec::new();
    let mut k: usize = 0;
    while k < 23
        invariant
            k <= 23,
            all@ == all_datasets(),
            load@.len() == 23,
            serial@ == all_datasets().subrange(0, k as int).filter(
                |d: Dataset| load@[dataset_index(d)] && !snapshot_dataset(d),
            ),
        decreases 23 - k,
    {
        let d = all[k];
        assert(dataset_index(d) == k) by {
            lemma_index_injective_at(d, k as int);
        }
        reveal(Seq::filter);
        assert(all_datasets().subrange(0, k + 1).drop_last() =~= all_datasets().subrange(
            0,
            k as int,
        ));
        if load[k] && !d.is_snapshot() {
            serial.push(d);
        }
        k = k + 1;
    }
    assert(all_datasets().subrange(0, 23) =~= all_datasets());
    serial
}

/// Every message kind, in canonical order.
pub open spec fn all_messages() -> Seq<UserMessage> {
    seq![
        UserMessage::GameOver,
        UserMessage::BannedHeroes,
        UserMessage::HeroKilled,
        UserMessage::Damage,
        UserMessage::FlexSlotUnlocked,
        UserMessage::ImportantAbilityUsed,
        UserMessage::AbilitiesChanged,
        UserMessage::ChatMsg,
        UserMessage::MidBossSpawned,
        UserMessage::BossKilled,
        UserMessage::RejuvStatus,
        UserMessage::StreetBrawlScoring,
        UserMessage::PostMatchDetails,
    ]
}

fn all_message_values() -> (r: Vec<UserMessage>)
    ensures
        r@ == all_messages(),
{
    let mut r: Vec<UserMessage> = Vec::new();
    r.push(UserMessage::GameOver);
    r.push(UserMessage::BannedHeroes);
    r.push(UserMessage::HeroKilled);
    r.push(UserMessage::Damage);
    r.push(UserMessage::FlexSlotUnlocked);
    r.push(UserMessage::ImportantAbilityUsed);
    r.push(UserMessage::AbilitiesChanged);
    r.push(UserMessage::ChatMsg);
    r.push(UserMessage::MidBossSpawned);
    r.push(UserMessage::BossKilled);
    r.push(UserMessage::RejuvStatus);
    r.push(UserMessage::StreetBrawlScoring);
    r.push(UserMessage::PostMatchDetails);
    assert(r@ =~= all_messages());
    r
}

fn message_flagged(load: &Vec<bool>, scanned: bool, m: UserMessage) -> (r: bool)
    requires
        load@.len() == 23,
    ensures
        r == flagged_message(load@, scanned, m),
{
    let f = |d: Dataset| -> (b: bool)
        ensures
            b == (load@[dataset_index(d)] && !snapshot_dataset(d)),
        { load[d.index()] && !d.is_snapshot() };
    match m {
        UserMessage::GameOver => !scanned,
        UserMessage::BannedHeroes => !scanned,
        UserMessage::HeroKilled => f(Dataset::Kills),
        UserMessage::Damage => f(Dataset::Damage) || f(Dataset::Healing) || f(
            Dataset::SinnersSacrifice,
        ),
        UserMessage::FlexSlotUnlocked => f(Dataset::FlexSlots),
        UserMessage::ImportantAbilityUsed => f(Dataset::Abilities),
        UserMessage::AbilitiesChanged => f(Dataset::ItemPurchases),
        UserMessage::ChatMsg => f(Dataset::Chat),
        UserMessage::MidBossSpawned => f(Dataset::MidBoss),
        UserMessage::BossKilled => f(Dataset::MidBoss),
        UserMessage::RejuvStatus => f(Dataset::MidBoss),
        UserMessage::StreetBrawlScoring => f(Dataset::StreetBrawlRounds),
        UserMessage::PostMatchDetails => false,
    }
}

/// The message kinds a serial pass decodes, given the load flags, in
/// canonical order.
fn plan_messages(load: &Vec<bool>, always_events_scanned: bool) -> (messages: Vec<UserMessage>)
    requires
        load@.len() == 23,
    ensures
        messages@.no_duplicates(),
        forall|m: UserMessage|
            #[trigger] messages@.contains(m) == flagged_message(load@, always_events_scanned, m),
{
    let all = all_message_values();
    let mut messages: Vec<UserMessage> = Vec::new();
    let mut k: usize = 0;
    while k < all.len()
        invariant
            all@ == all_messages(),
            k <= all@.len(),
            load@.len() == 23,
            messages@.no_duplicates(),
            forall|m: UserMessage|
                #[trigger] messages@.contains(m) == (exists|j: int|
                    0 <= j < k && all@[j] == m && flagged_message(load@, always_events_scanned, m)),
        decreases all@.len() - k,
    {
        let m = all[k];
        let ghost prev = messages@;
        if message_flagged(load, always_events_scanned, m) {
            messages.push(m);
            proof {
                assert forall|i: int, j: int|
                    0 <= i < messages@.len() && 0 <= j < messages@.len() && i != j implies messages@[i]
                    != messages@[j] by {
                    if j == prev.len() as int {
                        assert(prev.contains(prev[i]));
                    } else if i == prev.len() as int {
                        assert(prev.contains(prev[j]));
                    }
                }
            }
        }
        proof {
            assert forall|x: UserMessage|
                #[trigger] messages@.contains(x) == (exists|j: int|
                    0 <= j < k + 1 && all@[j] == x && flagged_message(
                        load@,
                        always_events_scanned,
                        x,
                    )) by {
                if x == m && flagged_message(load@, always_events_scanned, x) {
                    assert(messages@[prev.len() as int] == x);
                }
                if messages@.contains(x) && !prev.contains(x) {
                    let i = choose|i: int| 0 <= i < messages@.len() && messages@[i] == x;
                    if i < prev.len() {
                        assert(prev[i] == x);
                    }
                }
                if prev.contains(x) {
                    let i = choose|i: int| 0 <= i < prev.len() && prev[i] == x;
                    assert(messages@[i] == x);
                }
            }
        }
        k = k + 1;
    }
    proof {
        assert forall|m: UserMessage|
            #[trigger] messages@.contains(m) == flagged_message(load@, always_events_scanned, m) by {
            let j = match m {
                UserMessage::GameOver => 0int,
                UserMessage::BannedHeroes => 1,
                UserMessage::HeroKilled => 2,
                UserMessage::Damage => 3,
                UserMessage::FlexSlotUnlocked => 4,
                UserMessage::ImportantAbilityUsed => 5,
                UserMessage::AbilitiesChanged => 6,
                UserMessage::ChatMsg => 7,
                UserMessage::MidBossSpawned => 8,
                UserMessage::BossKilled => 9,
                UserMessage::RejuvStatus => 10,
                UserMessage::StreetBrawlScoring => 11,
                UserMessage::PostMatchDetails => 12,
            };
            assert(all@[j] == m);
        }
    }
    messages
}

/// The message kinds a serial pass decodes, by load flags.
pub open spec fn flagged_message(load: Seq<bool>, scanned: bool, m: UserMessage) -> bool {
    let f = |d: Dataset| load[dataset_index(d)] && !snapshot_dataset(d);
    match m {
        UserMessage::GameOver => !scanned,
        UserMessage::BannedHeroes => !scanned,
        UserMessage::HeroKilled => f(Dataset::Kills),
        UserMessage::Damage => f(Dataset::Damage) || f(Dataset::Healing) || f(
            Dataset::SinnersSacrifice,
        ),
        UserMessage::FlexSlotUnlocked => f(Dataset::FlexSlots),
        UserMessage::ImportantAbilityUsed => f(Dataset::Abilities),
        UserMessage::AbilitiesChanged => f(Dataset::ItemPurchases),
        UserMessage::ChatMsg => f(Dataset::Chat),
        UserMessage::MidBossSpawned => f(Dataset::MidBoss),
        UserMessage::BossKilled => f(Dataset::MidBoss),
        UserMessage::RejuvStatus => f(Dataset::MidBoss),
        UserMessage::StreetBrawlScoring => f(Dataset::StreetBrawlRounds),
        UserMessage::PostMatchDetails => false,
    }
}

/// The union of the entity classes of the given datasets, each once.
pub fn union_classes(datasets: &Vec<Dataset>) -> (classes: Vec<&'static str>)
    ensures
        class_views(classes@).no_duplicates(),
        forall|c: Seq<char>|
            #[trigger] class_views(classes@).contains(c) == exists|j: int|
                0 <= j < datasets@.len() && #[trigger] dataset_classes(datasets@[j]).contains(c),
{
    let mut classes: Vec<&'static str> = Vec::new();
    let mut k: usize = 0;
    while k < datasets.len()
        invariant
            k <= datasets@.len(),
            class_views(classes@).no_duplicates(),
            forall|c: Seq<char>|
                #[trigger] class_views(classes@).contains(c) == exists|j: int|
                    0 <= j < k && #[trigger] dataset_classes(datasets@[j]).contains(c),
        decreases datasets@.len() - k,
    {
        let cs = classes_of(datasets[k]);
        let ghost before = class_views(classes@);
        add_classes(&mut classes, &cs);
        proof {
            assert forall|x: Seq<char>|
                #[trigger] class_views(classes@).contains(x) == exists|j: int|
                    0 <= j < k + 1 && #[trigger] dataset_classes(datasets@[j]).contains(x) by {
                if exists|j: int| 0 <= j < k + 1 && #[trigger] dataset_classes(datasets@[j]).contains(x) {
                    let j = choose|j: int| 0 <= j < k + 1 && #[trigger] dataset_classes(datasets@[j]).contains(x);
                    if j < k {
                        assert(before.contains(x));
                    }
                }
            }
        }
        k = k + 1;
    }
    classes
}

/// Add to `classes` each of `more` that it does not hold yet.
fn add_classes(classes: &mut Vec<&'static str>, more: &Vec<&'static str>)
    requires
        class_views(old(classes)@).no_duplicates(),
    ensures
        class_views(final(classes)@).no_duplicates(),
        forall|c: Seq<char>|
            #[trigger] class_views(final(classes)@).contains(c) == (class_views(
                old(classes)@,
            ).contains(c) || class_views(more@).contains(c)),
{
    let ghost before = class_views(classes@);
    let mut m: usize = 0;
    while m < more.len()
        invariant
            m <= more@.len(),
            class_views(classes@).no_duplicates(),
            forall|c: Seq<char>|
                #[trigger] class_views(classes@).contains(c) == (before.contains(c)
                    || class_views(more@.subrange(0, m as int)).contains(c)),
        decreases more@.len() - m,
    {
        let c = more[m];
        let ghost prev = class_views(classes@);
        let ghost pm = class_views(more@.subrange(0, m as int));
        if !contains_class(classes, c) {
            let ghost prev_raw = classes@;
            classes.push(c);
            assert(class_views(classes@) =~= prev.push(c@));
            proof {
                assert forall|i: int, j: int|
                    0 <= i < class_views(classes@).len() && 0 <= j < class_views(classes@).len()
                        && i != j implies class_views(classes@)[i] != class_views(classes@)[j] by {
                    if j == prev.len() as int {
                        assert(prev.contains(prev[i]));
                    } else if i == prev.len() as int {
                        assert(prev.contains(prev[j]));
                    }
                }
            }
        }
        assert(class_views(more@.subrange(0, m + 1)) =~= pm.push(c@));
        proof {
            assert forall|x: Seq<char>|
                #[trigger] class_views(classes@).contains(x) == (before.contains(x)
                    || class_views(more@.subrange(0, m + 1)).contains(x)) by {
                let cur = class_views(classes@);
                let pm1 = class_views(more@.subrange(0, m + 1));
                if x == c@ {
                    assert(pm1[m as int] == x);
                    if !prev.contains(x) {
                        assert(cur[prev.len() as int] == x);
                    } else {
                        let i = choose|i: int| 0 <= i < prev.len() && prev[i] == x;
                        assert(cur[i] == x);
                    }
                } else {
                    if cur.contains(x) {
                        let i = choose|i: int| 0 <= i < cur.len() && cur[i] == x;
                        if i < prev.len() {
                            assert(prev[i] == x);
                        }
                    }
                    if prev.contains(x) {
                        let i = choose|i: int| 0 <= i < prev.len() && prev[i] == x;
                        assert(cur[i] == x);
                    }
                    if pm1.contains(x) {
                        let i = choose|i: int| 0 <= i < pm1.len() && pm1[i] == x;
                        assert(pm[i] == x);
                    }
                    if pm.contains(x) {
                        let i = choose|i: int| 0 <= i < pm.len() && pm[i] == x;
                        assert(pm1[i] == x);
                    }
                }
            }
        }
        m = m + 1;
    }
    assert(more@.subrange(0, more@.len() as int) =~= more@);
}

/// Validate a load request and plan how to serve it.
///
/// The first name that names no dataset refuses the request; otherwise a
/// street brawl dataset refuses it unless the demo is a street brawl (game
/// mode 4). Datasets already cached are skipped. The snapshot datasets go to
/// the segmented snapshot pass; every other dataset shares one filtered
/// serial pass, which decodes only the message kinds and entity classes that
/// its datasets use.
pub fn plan_load(
    names: &Vec<String>,
    game_mode: i64,
    cached: &Vec<Dataset>,
    always_events_scanned: bool,
) -> (r: Result<LoadPlan, LoadError>)
    ensures
        match r {
            Err(LoadError::UnknownDataset(name)) => exists|i: int|
                first_unknown(names@, i) && name@ == names@[i]@,
            Err(LoadError::NotStreetBrawl) => !has_unknown(names@) && wants_street_brawl(names@)
                && game_mode != STREET_BRAWL_GAME_MODE,
            Ok(plan) => plan_matches(plan, names@, game_mode, cached@, always_events_scanned),
        },
{
    let req = match requested_flags(names) {
        Ok(req) => req,
        Err(e) => {
            return Err(e);
        },
    };
    proof {
        assert(req@[dataset_index(Dataset::StreetBrawlTicks)] == requested(
            names@,
            Dataset::StreetBrawlTicks,
        ));
        assert(req@[dataset_index(Dataset::StreetBrawlRounds)] == requested(
            names@,
            Dataset::StreetBrawlRounds,
        ));
    }
    if (req[21] || req[22]) && game_mode != STREET_BRAWL_GAME_MODE {
        return Err(LoadError::NotStreetBrawl);
    }
    let load = load_flags(&req, cached);
    let ghost pl = |d: Dataset| load@[dataset_index(d)] && !snapshot_dataset(d);
    assert forall|d: Dataset| #[trigger] pl(d) == serial_load(names@, cached@, d) by {}
    let snapshots = SnapWants { player_ticks: load[6], world_ticks: load[7], troopers: load[12] };
    proof {
        assert(load@[dataset_index(Dataset::PlayerTicks)] == needs_load(names@, cached@, Dataset::PlayerTicks));
        assert(load@[dataset_index(Dataset::WorldTicks)] == needs_load(names@, cached@, Dataset::WorldTicks));
        assert(load@[dataset_index(Dataset::Troopers)] == needs_load(names@, cached@, Dataset::Troopers));
    }
    let serial = serial_datasets(&load);
    assert(all_datasets().filter(|d: Dataset| load@[dataset_index(d)] && !snapshot_dataset(d))
        =~= all_datasets().filter(|d: Dataset| serial_load(names@, cached@, d))) by {
        assert(pl =~= (|d: Dataset| serial_load(names@, cached@, d)));
    }
    let f = |d: Dataset| -> (b: bool)
        ensures
            b == (load@[dataset_index(d)] && !snapshot_dataset(d)),
        { load[d.index()] && !d.is_snapshot() };
    let read_events = f(Dataset::Abilities) || f(Dataset::Kills) || f(Dataset::Damage) || f(Dataset::Healing) || f(
        Dataset::SinnersSacrifice,
    ) || f(Dataset::FlexSlots) || f(Dataset::ItemPurchases) || f(Dataset::Chat) || f(
        Dataset::MidBoss,
    ) || f(Dataset::StreetBrawlRounds);
    let messages = plan_messages(&load, always_events_scanned);
    let entity_classes = union_classes(&serial);
    proof {
        lemma_filter_membership(names@, cached@);
        assert forall|c: Seq<char>|
            #[trigger] class_views(entity_classes@).contains(c) == wanted_class(
                names@,
                cached@,
                c,
            ) by {
            if wanted_class(names@, cached@, c) {
                let d = choose|d: Dataset|
                    serial_load(names@, cached@, d) && #[trigger] dataset_classes(d).contains(c);
                assert(serial@.contains(d));
                let j = choose|j: int| 0 <= j < serial@.len() && serial@[j] == d;
                assert(dataset_classes(serial@[j]).contains(c));
            }
            if exists|j: int|
                0 <= j < serial@.len() && #[trigger] dataset_classes(serial@[j]).contains(c) {
                let j = choose|j: int|
                    0 <= j < serial@.len() && #[trigger] dataset_classes(serial@[j]).contains(c);
                assert(serial@.contains(serial@[j]));
            }
        }
    }
    let ability_classes = f(Dataset::AbilityTicks);
    Ok(LoadPlan { snapshots, serial, read_events, messages, entity_classes, ability_classes })
}

/// A plan serves a request exactly: the request is valid, and the plan's
/// passes, message kinds and classes are those its datasets call for.
pub open spec fn plan_matches(
    plan: LoadPlan,
    names: Seq<String>,
    game_mode: i64,
    cached: Seq<Dataset>,
    scanned: bool,
) -> bool {
    &&& !has_unknown(names)
    &&& !(wants_street_brawl(names) && game_mode != STREET_BRAWL_GAME_MODE)
    &&& plan.snapshots.player_ticks == needs_load(names, cached, Dataset::PlayerTicks)
    &&& plan.snapshots.world_ticks == needs_load(names, cached, Dataset::WorldTicks)
    &&& plan.snapshots.troopers == needs_load(names, cached, Dataset::Troopers)
    &&& plan.serial@ == all_datasets().filter(|d: Dataset| serial_load(names, cached, d))
    &&& plan.read_events == reads_events(names, cached)
    &&& plan.messages@.no_duplicates()
    &&& forall|m: UserMessage|
        #[trigger] plan.messages@.contains(m) == wanted_message(names, cached, scanned, m)
    &&& class_views(plan.entity_classes@).no_duplicates()
    &&& forall|c: Seq<char>|
        #[trigger] class_views(plan.entity_classes@).contains(c) == wanted_class(names, cached, c)
    &&& plan.ability_classes == serial_load(names, cached, Dataset::AbilityTicks)
}

proof fn lemma_class_of_loaded(names: Seq<String>, cached: Seq<Dataset>, d: Dataset, k: int, c: Seq<char>)
    requires
        serial_load(names, cached, d),
        0 <= k < dataset_classes(d).len(),
        dataset_classes(d)[k] == c,
    ensures
        wanted_class(names, cached, c),
{
    assert(dataset_classes(d).contains(c));
}

/// The entity classes a load plan decodes include those that each dataset of
/// its serial pass is read from: player pawns for the event datasets that
/// name heroes, the ability tick dataset, the active modifiers and the urn;
/// player controllers for upgrades, purchases, chat and stat modifier events;
/// the game rules for street brawl ticks and the Rift; the objective,
/// neutral, breakable and Sinner's Sacrifice classes for their datasets; the
/// idol return trigger for the urn; and the Rift spawner for the Rift.
pub proof fn lemma_plan_decodes_dataset_classes(
    plan: LoadPlan,
    names: Seq<String>,
    game_mode: i64,
    cached: Seq<Dataset>,
    scanned: bool,
)
    requires
        plan_matches(plan, names, game_mode, cached, scanned),
    ensures
        ({
            let decoded = |c: Seq<char>| class_views(plan.entity_classes@).contains(c);
            let s = |d: Dataset| serial_load(names, cached, d);
            &&& (s(Dataset::Abilities) || s(Dataset::Kills) || s(Dataset::Damage) || s(
                Dataset::Healing,
            ) || s(Dataset::SinnersSacrifice) || s(Dataset::MidBoss) || s(Dataset::ActiveModifiers)
                || s(Dataset::Urn) || s(Dataset::AbilityTicks)) ==> decoded("CCitadelPlayerPawn"@)
            &&& (s(Dataset::AbilityUpgrades) || s(Dataset::ItemPurchases) || s(Dataset::Chat) || s(
                Dataset::StatModifierEvents,
            )) ==> decoded("CCitadelPlayerController"@)
            &&& (s(Dataset::StreetBrawlTicks) || s(Dataset::Rift)) ==> decoded("CCitadelGameRulesProxy"@)
            &&& s(Dataset::Rift) ==> decoded("CCitadelItemKothSpawner"@)
            &&& s(Dataset::Urn) ==> decoded("CCitadelIdolReturnTrigger"@)
            &&& s(Dataset::SinnersSacrifice) ==> decoded("CNPC_Neutral_SinnersSacrifice"@) && decoded(
                "CNPC_Neutral_SinnersSacrifice_Hideout"@,
            )
            &&& s(Dataset::Objectives) ==> decoded("CNPC_Boss_Tier2"@) && decoded("CNPC_Boss_Tier3"@) && decoded(
                "CNPC_BarrackBoss"@,
            ) && decoded("CNPC_MidBoss"@) && decoded("CCitadel_Destroyable_Building"@)
            &&& s(Dataset::Neutrals) ==> decoded("CNPC_TrooperNeutral"@)
            &&& s(Dataset::Breakables) ==> decoded("CCitadel_BreakableProp"@)
        }),
{
    let pawn = "CCitadelPlayerPawn"@;
    let ctrl = "CCitadelPlayerController"@;
    let rules = "CCitadelGameRulesProxy"@;
    let ds = seq![
        Dataset::Abilities,
        Dataset::Kills,
        Dataset::Damage,
        Dataset::Healing,
        Dataset::SinnersSacrifice,
        Dataset::MidBoss,
        Dataset::ActiveModifiers,
        Dataset::Urn,
        Dataset::AbilityTicks,
    ];
    assert forall|j: int| 0 <= j < ds.len() && serial_load(names, cached, #[trigger] ds[j]) implies wanted_class(
        names,
        cached,
        pawn,
    ) by {
        lemma_class_of_loaded(names, cached, ds[j], 0, pawn);
    }
    if serial_load(names, cached, Dataset::Abilities) { assert(ds[0] == Dataset::Abilities); }
    if serial_load(names, cached, Dataset::Kills) { assert(ds[1] == Dataset::Kills); }
    if serial_load(names, cached, Dataset::Damage) { assert(ds[2] == Dataset::Damage); }
    if serial_load(names, cached, Dataset::Healing) { assert(ds[3] == Dataset::Healing); }
    if serial_load(names, cached, Dataset::SinnersSacrifice) {
        assert(ds[4] == Dataset::SinnersSacrifice);
        lemma_class_of_loaded(names, cached, Dataset::SinnersSacrifice, 1, "CNPC_Neutral_SinnersSacrifice"@);
        lemma_class_of_loaded(names, cached, Dataset::SinnersSacrifice, 2, "CNPC_Neutral_SinnersSacrifice_Hideout"@);
    }
    if serial_load(names, cached, Dataset::MidBoss) { assert(ds[5] == Dataset::MidBoss); }
    if serial_load(names, cached, Dataset::ActiveModifiers) { assert(ds[6] == Dataset::ActiveModifiers); }
    if serial_load(names, cached, Dataset::Urn) {
        assert(ds[7] == Dataset::Urn);
        lemma_class_of_loaded(names, cached, Dataset::Urn, 1, "CCitadelIdolReturnTrigger"@);
    }
    if serial_load(names, cached, Dataset::AbilityTicks) { assert(ds[8] == Dataset::AbilityTicks); }
    if serial_load(names, cached, Dataset::AbilityUpgrades) {
        lemma_class_of_loaded(names, cached, Dataset::AbilityUpgrades, 0, ctrl);
    }
    if serial_load(names, cached, Dataset::ItemPurchases) {
        lemma_class_of_loaded(names, cached, Dataset::ItemPurchases, 0, ctrl);
    }
    if serial_load(names, cached, Dataset::Chat) {
        lemma_class_of_loaded(names, cached, Dataset::Chat, 0, ctrl);
    }
    if serial_load(names, cached, Dataset::StatModifierEvents) {
        lemma_class_of_loaded(names, cached, Dataset::StatModifierEvents, 0, ctrl);
    }
    if serial_load(names, cached, Dataset::StreetBrawlTicks) {
        lemma_class_of_loaded(names, cached, Dataset::StreetBrawlTicks, 0, rules);
    }
    if serial_load(names, cached, Dataset::Rift) {
        lemma_class_of_loaded(names, cached, Dataset::Rift, 0, rules);
        lemma_class_of_loaded(names, cached, Dataset::Rift, 1, "CCitadelItemKothSpawner"@);
    }
    if serial_load(names, cached, Dataset::Objectives) {
        lemma_class_of_loaded(names, cached, Dataset::Objectives, 0, "CNPC_Boss_Tier2"@);
        lemma_class_of_loaded(names, cached, Dataset::Objectives, 1, "CNPC_Boss_Tier3"@);
        lemma_class_of_loaded(names, cached, Dataset::Objectives, 2, "CNPC_BarrackBoss"@);
        lemma_class_of_loaded(names, cached, Dataset::Objectives, 3, "CNPC_MidBoss"@);
        lemma_class_of_loaded(names, cached, Dataset::Objectives, 4, "CCitadel_Destroyable_Building"@);
    }
    if serial_load(names, cached, Dataset::Neutrals) {
        lemma_class_of_loaded(names, cached, Dataset::Neutrals, 0, "CNPC_TrooperNeutral"@);
    }
    if serial_load(names, cached, Dataset::Breakables) {
        lemma_class_of_loaded(names, cached, Dataset::Breakables, 0, "CCitadel_BreakableProp"@);
    }
}

/// The message kinds a load plan decodes are exactly those its serial
/// datasets read: game-over and ban messages until they have been scanned;
/// damage messages for the damage, healing and Sinner's Sacrifice datasets;
/// kill messages for kills; flex slot unlocks for flex slots; important
/// ability uses for abilities; ability changes for item purchases; chat for
/// chat; mid boss spawns, boss kills and rejuvenator status for the mid boss;
/// street brawl scoring for the street brawl rounds; never the post-match
/// details. The pass reads messages exactly when one of those datasets is
/// served.
pub proof fn lemma_plan_decodes_dataset_messages(
    plan: LoadPlan,
    names: Seq<String>,
    game_mode: i64,
    cached: Seq<Dataset>,
    scanned: bool,
)
    requires
        plan_matches(plan, names, game_mode, cached, scanned),
    ensures
        ({
            let decoded = |m: UserMessage| plan.messages@.contains(m);
            let s = |d: Dataset| serial_load(names, cached, d);
            &&& decoded(UserMessage::GameOver) == !scanned
            &&& decoded(UserMessage::BannedHeroes) == !scanned
            &&& decoded(UserMessage::Damage) == (s(Dataset::Damage) || s(Dataset::Healing) || s(
                Dataset::SinnersSacrifice,
            ))
            &&& decoded(UserMessage::HeroKilled) == s(Dataset::Kills)
            &&& decoded(UserMessage::FlexSlotUnlocked) == s(Dataset::FlexSlots)
            &&& decoded(UserMessage::ImportantAbilityUsed) == s(Dataset::Abilities)
            &&& decoded(UserMessage::AbilitiesChanged) == s(Dataset::ItemPurchases)
            &&& decoded(UserMessage::ChatMsg) == s(Dataset::Chat)
            &&& decoded(UserMessage::MidBossSpawned) == s(Dataset::MidBoss)
            &&& decoded(UserMessage::BossKilled) == s(Dataset::MidBoss)
            &&& decoded(UserMessage::RejuvStatus) == s(Dataset::MidBoss)
            &&& decoded(UserMessage::StreetBrawlScoring) == s(Dataset::StreetBrawlRounds)
            &&& !decoded(UserMessage::PostMatchDetails)
            &&& plan.read_events == (s(Dataset::Abilities) || s(Dataset::Kills) || s(Dataset::Damage)
                || s(Dataset::Healing) || s(Dataset::SinnersSacrifice) || s(Dataset::FlexSlots) || s(
                Dataset::ItemPurchases,
            ) || s(Dataset::Chat) || s(Dataset::MidBoss) || s(Dataset::StreetBrawlRounds))
        }),
{
    assert(plan.messages@.contains(UserMessage::GameOver) == wanted_message(names, cached, scanned, UserMessage::GameOver));
    assert(plan.messages@.contains(UserMessage::BannedHeroes) == wanted_message(names, cached, scanned, UserMessage::BannedHeroes));
    assert(plan.messages@.contains(UserMessage::Damage) == wanted_message(names, cached, scanned, UserMessage::Damage));
    assert(plan.messages@.contains(UserMessage::HeroKilled) == wanted_message(names, cached, scanned, UserMessage::HeroKilled));
    assert(plan.messages@.contains(UserMessage::FlexSlotUnlocked) == wanted_message(names, cached, scanned, UserMessage::FlexSlotUnlocked));
    assert(plan.messages@.contains(UserMessage::ImportantAbilityUsed) == wanted_message(names, cached, scanned, UserMessage::ImportantAbilityUsed));
    assert(plan.messages@.contains(UserMessage::AbilitiesChanged) == wanted_message(names, cached, scanned, UserMessage::AbilitiesChanged));
    assert(plan.messages@.contains(UserMessage::ChatMsg) == wanted_message(names, cached, scanned, UserMessage::ChatMsg));
    assert(plan.messages@.contains(UserMessage::MidBossSpawned) == wanted_message(names, cached, scanned, UserMessage::MidBossSpawned));
    assert(plan.messages@.contains(UserMessage::BossKilled) == wanted_message(names, cached, scanned, UserMessage::BossKilled));
    assert(plan.messages@.contains(UserMessage::RejuvStatus) == wanted_message(names, cached, scanned, UserMessage::RejuvStatus));
    assert(plan.messages@.contains(UserMessage::StreetBrawlScoring) == wanted_message(names, cached, scanned, UserMessage::StreetBrawlScoring));
    assert(plan.messages@.contains(UserMessage::PostMatchDetails) == wanted_message(names, cached, scanned, UserMessage::PostMatchDetails));
}

proof fn lemma_index_injective(a: Dataset, b: Dataset)
    requires
        a != b,
    ensures
        dataset_index(a) != dataset_index(b),
{
}

proof fn lemma_index_injective_at(d: Dataset, k: int)
    requires
        0 <= k < 23,
        all_datasets()[k] == d,
    ensures
        dataset_index(d) == k,
{
}

/// Membership in the serial datasets is exactly `serial_load`.
proof fn lemma_filter_membership(names: Seq<String>, cached: Seq<Dataset>)
    ensures
        forall|d: Dataset|
            all_datasets().filter(|e: Dataset| serial_load(names, cached, e)).contains(d)
                == serial_load(names, cached, d),
{
    assert forall|d: Dataset|
        all_datasets().filter(|e: Dataset| serial_load(names, cached, e)).contains(d)
            == serial_load(names, cached, d) by {
        lemma_all_datasets_complete(d);
        let p = |e: Dataset| serial_load(names, cached, e);
        if all_datasets().filter(p).contains(d) {
            let i = choose|i: int| 0 <= i < all_datasets().filter(p).len() && all_datasets().filter(p)[i] == d;
            all_datasets().lemma_filter_pred(p, i);
        }
        if serial_load(names, cached, d) {
            all_datasets().lemma_filter_contains(|e: Dataset| serial_load(names, cached, e), dataset_index(d));
        }
    }
}

/// What the header or file info of a demo lacks.
#[derive(Clone, Copy, PartialEq, Eq, Structural, Debug)]
pub enum MetadataError {
    /// The file header has no build number.
    MissingBuild,
    /// The file header has no map name.
    MissingMapName,
    /// The file info has no playback tick count.
    MissingPlaybackTicks,
    /// The file info has no playback time.
    MissingPlaybackTime,
}

impl MetadataError {
    /// Whether the header (rather than the file info) is at fault.
    pub fn in_header(self) -> (r: bool)
        ensures
            r == (self is MissingBuild || self is MissingMapName),
    {
        match self {
            MetadataError::MissingBuild | MetadataError::MissingMapName => true,
            _ => false,
        }
    }

    /// The error's text.
    pub fn message(self) -> (r: &'static str)
        ensures
            r@ == match self {
                MetadataError::MissingBuild => "missing build number in file header"@,
                MetadataError::MissingMapName => "missing map name in file header"@,
                MetadataError::MissingPlaybackTicks => "missing playback ticks in file info"@,
                MetadataError::MissingPlaybackTime => "missing playback time in file info"@,
            },
    {
        match self {
            MetadataError::MissingBuild => "missing build number in file header",
            MetadataError::MissingMapName => "missing map name in file header",
            MetadataError::MissingPlaybackTicks => "missing playback ticks in file info",
            MetadataError::MissingPlaybackTime => "missing playback time in file info",
        }
    }
}

/// A demo opens with its build, map name and playback tick count, which it
/// must have, as must its playback time; they are checked in that order.
pub fn check_metadata(
    build: Option<i32>,
    map_name: Option<String>,
    playback_ticks: Option<i32>,
    has_playback_time: bool,
) -> (r: Result<(i32, String, i32), MetadataError>)
    ensures
        match r {
            Ok((b, m, t)) => build == Some(b) && map_name == Some(m) && playback_ticks == Some(t)
                && has_playback_time,
            Err(e) => e == if build is None {
                MetadataError::MissingBuild
            } else if map_name is None {
                MetadataError::MissingMapName
            } else if playback_ticks is None {
                MetadataError::MissingPlaybackTicks
            } else {
                MetadataError::MissingPlaybackTime
            } && !(build is Some && map_name is Some && playback_ticks is Some && has_playback_time),
        },
{
    let b = match build {
        Some(b) => b,
        None => return Err(MetadataError::MissingBuild),
    };
    let m = match map_name {
        Some(m) => m,
        None => return Err(MetadataError::MissingMapName),
    };
    let t = match playback_ticks {
        Some(t) => t,
        None => return Err(MetadataError::MissingPlaybackTicks),
    };
    if !has_playback_time {
        return Err(MetadataError::MissingPlaybackTime);
    }
    Ok((b, m, t))
}

} // verus!
