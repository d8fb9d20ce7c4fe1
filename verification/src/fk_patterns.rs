//! Which columns refer to which tables.
//!
//! Three kinds of rules say so: patterns on column names, the node that an
//! `Object` column belongs to, and single columns of single tables. Fallback
//! patterns stand last among the patterns.

use vstd::prelude::*;
use crate::text::text_eq;

verus! {

/// What a column that matches a pattern holds.
#[derive(Debug, Clone, Copy, PartialEq, Eq, Structural)]
pub enum FkType {
    SelfPk,
    Uuid,
    UuidSelf,
    Name,
    ContentUid,
    ContentUidVersioned,
    UuidUnresolved,
    TemplateUnresolved,
}

/// A rule on column names.
pub struct FkPattern {
    /// The regular expression that the column name is matched with.
    pub pattern: &'static str,
    pub target_table: Option<&'static str>,
    pub target_column: Option<&'static str>,
    pub fk_type: FkType,
}

/// What a rule on column names says.
pub struct FkRule {
    pub pattern: Seq<char>,
    pub target_table: Option<Seq<char>>,
    pub target_column: Option<Seq<char>>,
    pub fk_type: FkType,
}

impl DeepView for FkPattern {
    type V = FkRule;

    open spec fn deep_view(&self) -> FkRule {
        FkRule {
            pattern: self.pattern@,
            target_table: self.target_table.deep_view(),
            target_column: self.target_column.deep_view(),
            fk_type: self.fk_type,
        }
    }
}

/// Whether the regular expression `pattern` is valid and matches somewhere in
/// `text`: what `regex::Regex::new` and `regex::Regex::is_match` return.
pub uninterp spec fn regex_found(pattern: Seq<char>, text: Seq<char>) -> bool;

/// Calls `regex::Regex::new` and, where the pattern compiles,
/// `regex::Regex::is_match`. Which texts a pattern matches is left to the
/// regex crate; the result depends on the pattern and the text alone.
#[verifier::external_body]
pub(crate) fn regex_is_match(pattern: &str, text: &str) -> (r: bool)
    ensures
        r == regex_found(pattern@, text@),
{
    match regex::Regex::new(pattern) {
        Ok(re) => re.is_match(text),
        Err(_) => false,
    }
}

/// A rule from its parts.
pub open spec fn rule(
    pattern: Seq<char>,
    target_table: Option<Seq<char>>,
    target_column: Option<Seq<char>>,
    fk_type: FkType,
) -> FkRule {
    FkRule { pattern, target_table, target_column, fk_type }
}

/// The number of rules on column names.
pub const FK_PATTERN_COUNT: usize = 71;

/// The rules on column names, the most specific first.
pub open spec fn fk_rule(i: int) -> FkRule {
    match i as usize {
        0 => rule("(?i)^UUID$"@, None, None, FkType::SelfPk),
        1 => rule("(?i)^MapKey$"@, None, None, FkType::SelfPk),
        2 => rule("(?i)^ParentTemplateId$"@, Some("lsx__Templates__GameObjects"@), Some("MapKey"@), FkType::Uuid),
        3 => rule("(?i)^RootTemplate$"@, Some("lsx__Templates__GameObjects"@), Some("MapKey"@), FkType::Uuid),
        4 => rule("(?i)^TemplateId$"@, Some("lsx__Templates__GameObjects"@), Some("MapKey"@), FkType::Uuid),
        5 => rule("(?i)^GlobalTemplate$"@, None, None, FkType::UuidUnresolved),
        6 => rule("(?i)^CharacterTemplateUUID$"@, Some("lsx__Templates__GameObjects"@), Some("MapKey"@), FkType::Uuid),
        7 => rule("(?i)^RootTemplateId$"@, Some("lsx__Templates__GameObjects"@), Some("MapKey"@), FkType::Uuid),
        8 => rule("(?i)^DefaultsTemplate$"@, Some("lsx__Templates__GameObjects"@), Some("MapKey"@), FkType::Uuid),
        9 => rule("(?i)^FemaleRootTemplate$"@, Some("lsx__Templates__GameObjects"@), Some("MapKey"@), FkType::Uuid),
        10 => rule("(?i)^MaleRootTemplate$"@, Some("lsx__Templates__GameObjects"@), Some("MapKey"@), FkType::Uuid),
        11 => rule("(?i)^DragonbornFemaleRootTemplate$"@, Some("lsx__Templates__GameObjects"@), Some("MapKey"@), FkType::Uuid),
        12 => rule("(?i)^DragonbornMaleRootTemplate$"@, Some("lsx__Templates__GameObjects"@), Some("MapKey"@), FkType::Uuid),
        13 => rule("(?i)^EquipmentTemplate$"@, Some("lsx__Templates__GameObjects"@), Some("MapKey"@), FkType::Uuid),
        14 => rule("(?i)^ProjectileTemplateId$"@, Some("lsx__Templates__GameObjects"@), Some("MapKey"@), FkType::Uuid),
        15 => rule("(?i)^VisualTemplate$"@, None, None, FkType::UuidUnresolved),
        16 => rule("(?i)^PhysicsTemplate$"@, Some("lsx__PhysicsBank__Resource"@), Some("ID"@), FkType::Uuid),
        17 => rule("(?i)^RaceUUID$"@, Some("lsx__Races__Race"@), Some("UUID"@), FkType::Uuid),
        18 => rule("(?i)^SubRaceUUID$"@, Some("lsx__Races__Race"@), Some("UUID"@), FkType::Uuid),
        19 => rule("(?i)^DisplayTypeUUID$"@, Some("lsx__Races__Race"@), Some("UUID"@), FkType::Uuid),
        20 => rule("(?i)^ClassUUID$"@, Some("lsx__ClassDescriptions__ClassDescription"@), Some("UUID"@), FkType::Uuid),
        21 => rule("(?i)^SubclassUUID$"@, Some("lsx__ClassDescriptions__ClassDescription"@), Some("UUID"@), FkType::Uuid),
        22 => rule("(?i)^SubClassUUID$"@, Some("lsx__ClassDescriptions__ClassDescription"@), Some("UUID"@), FkType::Uuid),
        23 => rule("(?i)^PreferredClassUUID$"@, Some("lsx__ClassDescriptions__ClassDescription"@), Some("UUID"@), FkType::Uuid),
        24 => rule("(?i)^ClassId$"@, Some("lsx__ClassDescriptions__ClassDescription"@), Some("UUID"@), FkType::Uuid),
        25 => rule("(?i)^DummyClass$"@, Some("lsx__ClassDescriptions__ClassDescription"@), Some("UUID"@), FkType::Uuid),
        26 => rule("(?i)^BackgroundUUID$"@, Some("lsx__Backgrounds__Background"@), Some("UUID"@), FkType::Uuid),
        27 => rule("(?i)^ProgressionTableUUID$"@, Some("lsx__Progressions__Progression"@), Some("TableUUID"@), FkType::Uuid),
        28 => rule("(?i)^ProgressionTableId$"@, Some("lsx__Progressions__Progression"@), Some("TableUUID"@), FkType::Uuid),
        29 => rule("(?i)^ProgressionId$"@, Some("lsx__Progressions__Progression"@), Some("UUID"@), FkType::Uuid),
        30 => rule("(?i)^TableUUID$"@, Some("lsx__Progressions__Progression"@), Some("TableUUID"@), FkType::Uuid),
        31 => rule("(?i)^FeatId$"@, Some("lsx__Feats"@), Some("UUID"@), FkType::Uuid),
        32 => rule("(?i)^GodUUID$"@, Some("lsx__Gods__God"@), Some("UUID"@), FkType::Uuid),
        33 => rule("(?i)^OriginUUID$"@, Some("lsx__Origins__Origin"@), Some("UUID"@), FkType::Uuid),
        34 => rule("(?i)^ExcludesOriginUUID$"@, Some("lsx__Origins__Origin"@), Some("UUID"@), FkType::Uuid),
        35 => rule("(?i)^TagUUID$"@, Some("lsx__Tags__Tags"@), Some("UUID"@), FkType::Uuid),
        36 => rule("(?i)^SpellList$"@, Some("lsx__SpellLists"@), Some("UUID"@), FkType::Uuid),
        37 => rule("(?i)^MaterialPresetUUID$"@, None, None, FkType::UuidUnresolved),
        38 => rule("(?i)^ActiveMaterialPresetUUID$"@, None, None, FkType::UuidUnresolved),
        39 => rule("(?i)^InactiveMaterialPresetUUID$"@, None, None, FkType::UuidUnresolved),
        40 => rule("(?i)^HeadAppearanceUUID$"@, Some("lsx__CharacterCreationAppearanceVisuals__CharacterCreationAppearanceVisual"@), Some("UUID"@), FkType::Uuid),
        41 => rule("(?i)^CharacterCreationPose$"@, None, None, FkType::UuidUnresolved),
        42 => rule("(?i)^VoiceTableUUID$"@, None, None, FkType::UuidUnresolved),
        43 => rule("(?i)^VOLinesTableUUID$"@, Some("lsx__CharacterCreationVOLines"@), Some("UUID"@), FkType::Uuid),
        44 => rule("(?i)^SpeakerUUID$"@, Some("lsx__SpeakerGroups"@), Some("UUID"@), FkType::Uuid),
        45 => rule("(?i)^FlagUUID$"@, Some("lsx__Flags"@), Some("UUID"@), FkType::Uuid),
        46 => rule("(?i)^ValueUUID$"@, Some("lsx__GoldValues"@), Some("UUID"@), FkType::Uuid),
        47 => rule("(?i)^ExperienceReward$"@, Some("lsx__ExperienceRewards"@), Some("UUID"@), FkType::Uuid),
        48 => rule("(?i)^ExplorationReward$"@, Some("lsx__ExperienceRewards"@), Some("UUID"@), FkType::Uuid),
        49 => rule("(?i)^ParentUUID$"@, None, Some("UUID"@), FkType::UuidSelf),
        50 => rule("(?i)^ParentGuid$"@, None, Some("UUID"@), FkType::UuidSelf),
        51 => rule("(?i)^ParentGUID$"@, None, Some("MapKey"@), FkType::UuidSelf),
        52 => rule("(?i)^ActionResource$"@, Some("lsx__ActionResourceDefinitions"@), Some("UUID"@), FkType::Uuid),
        53 => rule("(?i)^DeathEffect$"@, Some("lsx__DeathEffects"@), Some("UUID"@), FkType::Uuid),
        54 => rule("(?i)^DisarmDifficultyClassID$"@, Some("lsx__DifficultyClasses"@), Some("UUID"@), FkType::Uuid),
        55 => rule("(?i)^LockDifficultyClassID$"@, Some("lsx__DifficultyClasses"@), Some("UUID"@), FkType::Uuid),
        56 => rule("(?i)^EquipmentTypeID$"@, Some("lsx__EquipmentTypes"@), Some("UUID"@), FkType::Uuid),
        57 => rule("(?i)^Faction$"@, Some("lsx__FactionContainer"@), Some("UUID"@), FkType::Uuid),
        58 => rule("(?i)^Modifier$"@, Some("lsx__RulesetModifiers"@), Some("UUID"@), FkType::Uuid),
        59 => rule("(?i)^Ruleset$"@, Some("lsx__Rulesets"@), Some("UUID"@), FkType::Uuid),
        60 => rule("(?i)^Rulesets$"@, Some("lsx__Rulesets"@), Some("UUID"@), FkType::Uuid),
        61 => rule("(?i)^CategoryGuid$"@, Some("lsx__ShortNameCategories"@), Some("UUID"@), FkType::Uuid),
        62 => rule("(?i)^CastEffect$"@, Some("lsx__MultiEffectInfos__MultiEffectInfos"@), Some("UUID"@), FkType::Uuid),
        63 => rule("(?i)^PrepareEffect$"@, Some("lsx__MultiEffectInfos__MultiEffectInfos"@), Some("UUID"@), FkType::Uuid),
        64 => rule("(?i)^MixedEffect$"@, Some("lsx__MultiEffectInfos__MultiEffectInfos"@), Some("UUID"@), FkType::Uuid),
        65 => rule("(?i)^NegativeEffect$"@, Some("lsx__MultiEffectInfos__MultiEffectInfos"@), Some("UUID"@), FkType::Uuid),
        66 => rule("(?i)^PositiveEffect$"@, Some("lsx__MultiEffectInfos__MultiEffectInfos"@), Some("UUID"@), FkType::Uuid),
        67 => rule("(?i)^RootSpellID$"@, Some("stats__SpellData"@), Some("_entry_name"@), FkType::Name),
        68 => rule("(?i)^ConcentrationSpellID$"@, Some("stats__SpellData"@), Some("_entry_name"@), FkType::Name),
        69 => rule("UUID$"@, None, None, FkType::UuidUnresolved),
        _ => rule("(?i)Template$"@, None, None, FkType::TemplateUnresolved),
    }
}

/// The rule on column names at a place of the list.
#[verifier::rlimit(60)]
pub fn fk_pattern(i: usize) -> (r: FkPattern)
    requires
        i < FK_PATTERN_COUNT,
    ensures
        r.deep_view() == fk_rule(i as int),
{
    match i {
        0 => FkPattern { pattern: "(?i)^UUID$", target_table: None, target_column: None, fk_type: FkType::SelfPk },
        1 => FkPattern { pattern: "(?i)^MapKey$", target_table: None, target_column: None, fk_type: FkType::SelfPk },
        2 => FkPattern { pattern: "(?i)^ParentTemplateId$", target_table: Some("lsx__Templates__GameObjects"), target_column: Some("MapKey"), fk_type: FkType::Uuid },
        3 => FkPattern { pattern: "(?i)^RootTemplate$", target_table: Some("lsx__Templates__GameObjects"), target_column: Some("MapKey"), fk_type: FkType::Uuid },
        4 => FkPattern { pattern: "(?i)^TemplateId$", target_table: Some("lsx__Templates__GameObjects"), target_column: Some("MapKey"), fk_type: FkType::Uuid },
        5 => FkPattern { pattern: "(?i)^GlobalTemplate$", target_table: None, target_column: None, fk_type: FkType::UuidUnresolved },
        6 => FkPattern { pattern: "(?i)^CharacterTemplateUUID$", target_table: Some("lsx__Templates__GameObjects"), target_column: Some("MapKey"), fk_type: FkType::Uuid },
        7 => FkPattern { pattern: "(?i)^RootTemplateId$", target_table: Some("lsx__Templates__GameObjects"), target_column: Some("MapKey"), fk_type: FkType::Uuid },
        8 => FkPattern { pattern: "(?i)^DefaultsTemplate$", target_table: Some("lsx__Templates__GameObjects"), target_column: Some("MapKey"), fk_type: FkType::Uuid },
        9 => FkPattern { pattern: "(?i)^FemaleRootTemplate$", target_table: Some("lsx__Templates__GameObjects"), target_column: Some("MapKey"), fk_type: FkType::Uuid },
        10 => FkPattern { pattern: "(?i)^MaleRootTemplate$", target_table: Some("lsx__Templates__GameObjects"), target_column: Some("MapKey"), fk_type: FkType::Uuid },
        11 => FkPattern { pattern: "(?i)^DragonbornFemaleRootTemplate$", target_table: Some("lsx__Templates__GameObjects"), target_column: Some("MapKey"), fk_type: FkType::Uuid },
        12 => FkPattern { pattern: "(?i)^DragonbornMaleRootTemplate$", target_table: Some("lsx__Templates__GameObjects"), target_column: Some("MapKey"), fk_type: FkType::Uuid },
        13 => FkPattern { pattern: "(?i)^EquipmentTemplate$", target_table: Some("lsx__Templates__GameObjects"), target_column: Some("MapKey"), fk_type: FkType::Uuid },
        14 => FkPattern { pattern: "(?i)^ProjectileTemplateId$", target_table: Some("lsx__Templates__GameObjects"), target_column: Some("MapKey"), fk_type: FkType::Uuid },
        15 => FkPattern { pattern: "(?i)^VisualTemplate$", target_table: None, target_column: None, fk_type: FkType::UuidUnresolved },
        16 => FkPattern { pattern: "(?i)^PhysicsTemplate$", target_table: Some("lsx__PhysicsBank__Resource"), target_column: Some("ID"), fk_type: FkType::Uuid },
        17 => FkPattern { pattern: "(?i)^RaceUUID$", target_table: Some("lsx__Races__Race"), target_column: Some("UUID"), fk_type: FkType::Uuid },
        18 => FkPattern { pattern: "(?i)^SubRaceUUID$", target_table: Some("lsx__Races__Race"), target_column: Some("UUID"), fk_type: FkType::Uuid },
        19 => FkPattern { pattern: "(?i)^DisplayTypeUUID$", target_table: Some("lsx__Races__Race"), target_column: Some("UUID"), fk_type: FkType::Uuid },
        20 => FkPattern { pattern: "(?i)^ClassUUID$", target_table: Some("lsx__ClassDescriptions__ClassDescription"), target_column: Some("UUID"), fk_type: FkType::Uuid },
        21 => FkPattern { pattern: "(?i)^SubclassUUID$", target_table: Some("lsx__ClassDescriptions__ClassDescription"), target_column: Some("UUID"), fk_type: FkType::Uuid },
        22 => FkPattern { pattern: "(?i)^SubClassUUID$", target_table: Some("lsx__ClassDescriptions__ClassDescription"), target_column: Some("UUID"), fk_type: FkType::Uuid },
        23 => FkPattern { pattern: "(?i)^PreferredClassUUID$", target_table: Some("lsx__ClassDescriptions__ClassDescription"), target_column: Some("UUID"), fk_type: FkType::Uuid },
        24 => FkPattern { pattern: "(?i)^ClassId$", target_table: Some("lsx__ClassDescriptions__ClassDescription"), target_column: Some("UUID"), fk_type: FkType::Uuid },
        25 => FkPattern { pattern: "(?i)^DummyClass$", target_table: Some("lsx__ClassDescriptions__ClassDescription"), target_column: Some("UUID"), fk_type: FkType::Uuid },
        26 => FkPattern { pattern: "(?i)^BackgroundUUID$", target_table: Some("lsx__Backgrounds__Background"), target_column: Some("UUID"), fk_type: FkType::Uuid },
        27 => FkPattern { pattern: "(?i)^ProgressionTableUUID$", target_table: Some("lsx__Progressions__Progression"), target_column: Some("TableUUID"), fk_type: FkType::Uuid },
        28 => FkPattern { pattern: "(?i)^ProgressionTableId$", target_table: Some("lsx__Progressions__Progression"), target_column: Some("TableUUID"), fk_type: FkType::Uuid },
        29 => FkPattern { pattern: "(?i)^ProgressionId$", target_table: Some("lsx__Progressions__Progression"), target_column: Some("UUID"), fk_type: FkType::Uuid },
        30 => FkPattern { pattern: "(?i)^TableUUID$", target_table: Some("lsx__Progressions__Progression"), target_column: Some("TableUUID"), fk_type: FkType::Uuid },
        31 => FkPattern { pattern: "(?i)^FeatId$", target_table: Some("lsx__Feats"), target_column: Some("UUID"), fk_type: FkType::Uuid },
        32 => FkPattern { pattern: "(?i)^GodUUID$", target_table: Some("lsx__Gods__God"), target_column: Some("UUID"), fk_type: FkType::Uuid },
        33 => FkPattern { pattern: "(?i)^OriginUUID$", target_table: Some("lsx__Origins__Origin"), target_column: Some("UUID"), fk_type: FkType::Uuid },
        34 => FkPattern { pattern: "(?i)^ExcludesOriginUUID$", target_table: Some("lsx__Origins__Origin"), target_column: Some("UUID"), fk_type: FkType::Uuid },
        35 => FkPattern { pattern: "(?i)^TagUUID$", target_table: Some("lsx__Tags__Tags"), target_column: Some("UUID"), fk_type: FkType::Uuid },
        36 => FkPattern { pattern: "(?i)^SpellList$", target_table: Some("lsx__SpellLists"), target_column: Some("UUID"), fk_type: FkType::Uuid },
        37 => FkPattern { pattern: "(?i)^MaterialPresetUUID$", target_table: None, target_column: None, fk_type: FkType::UuidUnresolved },
        38 => FkPattern { pattern: "(?i)^ActiveMaterialPresetUUID$", target_table: None, target_column: None, fk_type: FkType::UuidUnresolved },
        39 => FkPattern { pattern: "(?i)^InactiveMaterialPresetUUID$", target_table: None, target_column: None, fk_type: FkType::UuidUnresolved },
        40 => FkPattern { pattern: "(?i)^HeadAppearanceUUID$", target_table: Some("lsx__CharacterCreationAppearanceVisuals__CharacterCreationAppearanceVisual"), target_column: Some("UUID"), fk_type: FkType::Uuid },
        41 => FkPattern { pattern: "(?i)^CharacterCreationPose$", target_table: None, target_column: None, fk_type: FkType::UuidUnresolved },
        42 => FkPattern { pattern: "(?i)^VoiceTableUUID$", target_table: None, target_column: None, fk_type: FkType::UuidUnresolved },
        43 => FkPattern { pattern: "(?i)^VOLinesTableUUID$", target_table: Some("lsx__CharacterCreationVOLines"), target_column: Some("UUID"), fk_type: FkType::Uuid },
        44 => FkPattern { pattern: "(?i)^SpeakerUUID$", target_table: Some("lsx__SpeakerGroups"), target_column: Some("UUID"), fk_type: FkType::Uuid },
        45 => FkPattern { pattern: "(?i)^FlagUUID$", target_table: Some("lsx__Flags"), target_column: Some("UUID"), fk_type: FkType::Uuid },
        46 => FkPattern { pattern: "(?i)^ValueUUID$", target_table: Some("lsx__GoldValues"), target_column: Some("UUID"), fk_type: FkType::Uuid },
        47 => FkPattern { pattern: "(?i)^ExperienceReward$", target_table: Some("lsx__ExperienceRewards"), target_column: Some("UUID"), fk_type: FkType::Uuid },
        48 => FkPattern { pattern: "(?i)^ExplorationReward$", target_table: Some("lsx__ExperienceRewards"), target_column: Some("UUID"), fk_type: FkType::Uuid },
        49 => FkPattern { pattern: "(?i)^ParentUUID$", target_table: None, target_column: Some("UUID"), fk_type: FkType::UuidSelf },
        50 => FkPattern { pattern: "(?i)^ParentGuid$", target_table: None, target_column: Some("UUID"), fk_type: FkType::UuidSelf },
        51 => FkPattern { pattern: "(?i)^ParentGUID$", target_table: None, target_column: Some("MapKey"), fk_type: FkType::UuidSelf },
        52 => FkPattern { pattern: "(?i)^ActionResource$", target_table: Some("lsx__ActionResourceDefinitions"), target_column: Some("UUID"), fk_type: FkType::Uuid },
        53 => FkPattern { pattern: "(?i)^DeathEffect$", target_table: Some("lsx__DeathEffects"), target_column: Some("UUID"), fk_type: FkType::Uuid },
        54 => FkPattern { pattern: "(?i)^DisarmDifficultyClassID$", target_table: Some("lsx__DifficultyClasses"), target_column: Some("UUID"), fk_type: FkType::Uuid },
        55 => FkPattern { pattern: "(?i)^LockDifficultyClassID$", target_table: Some("lsx__DifficultyClasses"), target_column: Some("UUID"), fk_type: FkType::Uuid },
        56 => FkPattern { pattern: "(?i)^EquipmentTypeID$", target_table: Some("lsx__EquipmentTypes"), target_column: Some("UUID"), fk_type: FkType::Uuid },
        57 => FkPattern { pattern: "(?i)^Faction$", target_table: Some("lsx__FactionContainer"), target_column: Some("UUID"), fk_type: FkType::Uuid },
        58 => FkPattern { pattern: "(?i)^Modifier$", target_table: Some("lsx__RulesetModifiers"), target_column: Some("UUID"), fk_type: FkType::Uuid },
        59 => FkPattern { pattern: "(?i)^Ruleset$", target_table: Some("lsx__Rulesets"), target_column: Some("UUID"), fk_type: FkType::Uuid },
        60 => FkPattern { pattern: "(?i)^Rulesets$", target_table: Some("lsx__Rulesets"), target_column: Some("UUID"), fk_type: FkType::Uuid },
        61 => FkPattern { pattern: "(?i)^CategoryGuid$", target_table: Some("lsx__ShortNameCategories"), target_column: Some("UUID"), fk_type: FkType::Uuid },
        62 => FkPattern { pattern: "(?i)^CastEffect$", target_table: Some("lsx__MultiEffectInfos__MultiEffectInfos"), target_column: Some("UUID"), fk_type: FkType::Uuid },
        63 => FkPattern { pattern: "(?i)^PrepareEffect$", target_table: Some("lsx__MultiEffectInfos__MultiEffectInfos"), target_column: Some("UUID"), fk_type: FkType::Uuid },
        64 => FkPattern { pattern: "(?i)^MixedEffect$", target_table: Some("lsx__MultiEffectInfos__MultiEffectInfos"), target_column: Some("UUID"), fk_type: FkType::Uuid },
        65 => FkPattern { pattern: "(?i)^NegativeEffect$", target_table: Some("lsx__MultiEffectInfos__MultiEffectInfos"), target_column: Some("UUID"), fk_type: FkType::Uuid },
        66 => FkPattern { pattern: "(?i)^PositiveEffect$", target_table: Some("lsx__MultiEffectInfos__MultiEffectInfos"), target_column: Some("UUID"), fk_type: FkType::Uuid },
        67 => FkPattern { pattern: "(?i)^RootSpellID$", target_table: Some("stats__SpellData"), target_column: Some("_entry_name"), fk_type: FkType::Name },
        68 => FkPattern { pattern: "(?i)^ConcentrationSpellID$", target_table: Some("stats__SpellData"), target_column: Some("_entry_name"), fk_type: FkType::Name },
        69 => FkPattern { pattern: "UUID$", target_table: None, target_column: None, fk_type: FkType::UuidUnresolved },
        _ => FkPattern { pattern: "(?i)Template$", target_table: None, target_column: None, fk_type: FkType::TemplateUnresolved },
    }
}

/// The place of the first rule that is marked as found.
pub open spec fn first_found(found: Seq<bool>) -> Option<int>
    decreases found.len(),
{
    if found.len() == 0 {
        None
    } else {
        match first_found(found.drop_last()) {
            Some(i) => Some(i),
            None => if found.last() {
                Some(found.len() - 1)
            } else {
                None
            },
        }
    }
}

/// What a rule says of a column of the given type: the template fallback only
/// speaks of `guid` columns.
pub open spec fn rule_applied(r: FkRule, bg3_type: Seq<char>) -> Option<FkRule> {
    if r.fk_type == FkType::TemplateUnresolved && bg3_type != "guid"@ {
        None
    } else {
        Some(r)
    }
}

/// The rule for a column, given which of the patterns match its name.
pub open spec fn rule_for(found: Seq<bool>, bg3_type: Seq<char>) -> Option<FkRule> {
    match first_found(found) {
        Some(i) => rule_applied(fk_rule(i), bg3_type),
        None => None,
    }
}

/// Which of the patterns match a column name.
pub open spec fn found_in(col_name: Seq<char>) -> Seq<bool> {
    Seq::new(FK_PATTERN_COUNT as nat, |i: int| regex_found(fk_rule(i).pattern, col_name))
}

/// `first_found` is the first mark that is set.
pub proof fn lemma_first_found(found: Seq<bool>)
    ensures
        match first_found(found) {
            Some(i) => 0 <= i < found.len() && found[i] && (forall|k: int|
                0 <= k < i ==> !(#[trigger] found[k])),
            None => forall|k: int| 0 <= k < found.len() ==> !(#[trigger] found[k]),
        },
    decreases found.len(),
{
    if found.len() > 0 {
        lemma_first_found(found.drop_last());
        assert forall|k: int| 0 <= k < found.len() - 1 implies #[trigger] found[k]
            == found.drop_last()[k] by {}
    }
}

/// The rule for a column, given which of the patterns match its name.
#[verifier::loop_isolation(false)]
pub fn pattern_for(found: &Vec<bool>, bg3_type: &str) -> (r: Option<FkPattern>)
    requires
        found@.len() <= FK_PATTERN_COUNT,
    ensures
        r.deep_view() == rule_for(found@, bg3_type@),
{
    let mut i: usize = 0;
    proof {
        lemma_first_found(found@);
    }
    while i < found.len()
        invariant
            i <= found@.len(),
            forall|k: int| 0 <= k < i ==> !found@[k],
        decreases found@.len() - i,
    {
        if found[i] {
            assert(first_found(found@) == Some(i as int));
            let p = fk_pattern(i);
            if p.fk_type == FkType::TemplateUnresolved && !text_eq(bg3_type, "guid") {
                return None;
            }
            return Some(p);
        }
        i += 1;
    }
    None
}

/// The rule for a column of the given name and type: that of the first pattern
/// that matches the name.
#[verifier::loop_isolation(false)]
pub fn match_fk_pattern(col_name: &str, bg3_type: &str) -> (r: Option<FkPattern>)
    ensures
        r.deep_view() == rule_for(found_in(col_name@), bg3_type@),
{
    let mut found: Vec<bool> = Vec::new();
    let mut i: usize = 0;
    while i < FK_PATTERN_COUNT
        invariant
            i <= FK_PATTERN_COUNT,
            found@ == found_in(col_name@).take(i as int),
        decreases FK_PATTERN_COUNT - i,
    {
        let p = fk_pattern(i);
        found.push(regex_is_match(p.pattern, col_name));
        i += 1;
        assert(found@ =~= found_in(col_name@).take(i as int));
    }
    assert(found_in(col_name@).take(i as int) =~= found_in(col_name@));
    pattern_for(&found, bg3_type)
}

/// The table that the `Object` column of a node refers to, by its `UUID`.
pub open spec fn object_target(node_id: Seq<char>) -> Option<Seq<char>> {
    if node_id == "Tags"@ || node_id == "Tag"@ || node_id == "ExcludedTags"@ || node_id == "TagsFilter"@ || node_id == "TagsAdd"@ || node_id == "TagsRemove"@ || node_id == "ReallyTags"@ || node_id == "AppearanceTags"@ || node_id == "InteractionFilter"@ {
        Some("lsx__Tags__Tags"@)
    } else if node_id == "ExcludedGods"@ || node_id == "Gods"@ {
        Some("lsx__Gods__God"@)
    } else if node_id == "SubClass"@ {
        Some("lsx__ClassDescriptions__ClassDescription"@)
    } else if node_id == "VisualUUIDs"@ || node_id == "Visuals"@ {
        Some("lsx__CharacterCreationSharedVisuals"@)
    } else if node_id == "AccessorySetUUIDs"@ {
        Some("lsx__CharacterCreationAccessorySets__CharacterCreationAccessorySet"@)
    } else if node_id == "AppearanceMaterialUUIDs"@ || node_id == "ColorMaterialUUIDs"@ {
        Some("lsx__CharacterCreationAppearanceMaterials"@)
    } else if node_id == "ClothsColors"@ || node_id == "ClothsPatterns"@ {
        Some("lsx__CrowdCharacterMaterialPresets"@)
    } else if node_id == "EyeColors"@ {
        Some("lsx__CharacterCreationEyeColors"@)
    } else if node_id == "SkinColors"@ {
        Some("lsx__CharacterCreationSkinColors"@)
    } else if node_id == "HairColors"@ {
        Some("lsx__CharacterCreationHairColors"@)
    } else if node_id == "HairGrayingColors"@ || node_id == "HairHighlightColors"@ || node_id == "HornColors"@ || node_id == "HornTipColors"@ || node_id == "LipsMakeupColors"@ || node_id == "MakeupColors"@ || node_id == "TattooColors"@ {
        Some("lsx__ColorDefinitions"@)
    } else if node_id == "AnimationsList"@ {
        Some("lsx__EmoteAnimations"@)
    } else if node_id == "PosesList"@ {
        Some("lsx__EmotePoses"@)
    } else if node_id == "FaceExpressionsList"@ {
        Some("lsx__FaceExpressions__FaceExpression"@)
    } else if node_id == "ParameterUUIDs"@ {
        Some("lsx__ScriptMaterialOverrideParameters"@)
    } else if node_id == "PrerequisiteUUIDs"@ {
        Some("lsx__TadpolePowersTree__TadpolePowerNode"@)
    } else {
        None
    }
}

/// A target table with the column `UUID`.
pub open spec fn by_uuid(table: Option<Seq<char>>) -> Option<(Seq<char>, Seq<char>)> {
    match table {
        Some(t) => Some((t, "UUID"@)),
        None => None,
    }
}

/// The table and column that the `Object` column of a node refers to.
pub fn object_fk_for_node(node_id: &str) -> (r: Option<(&'static str, &'static str)>)
    ensures
        r.deep_view() == by_uuid(object_target(node_id@)),
{
    if text_eq(node_id, "Tags") || text_eq(node_id, "Tag") || text_eq(node_id, "ExcludedTags") || text_eq(node_id, "TagsFilter") || text_eq(node_id, "TagsAdd") || text_eq(node_id, "TagsRemove") || text_eq(node_id, "ReallyTags") || text_eq(node_id, "AppearanceTags") || text_eq(node_id, "InteractionFilter") {
        Some(("lsx__Tags__Tags", "UUID"))
    } else if text_eq(node_id, "ExcludedGods") || text_eq(node_id, "Gods") {
        Some(("lsx__Gods__God", "UUID"))
    } else if text_eq(node_id, "SubClass") {
        Some(("lsx__ClassDescriptions__ClassDescription", "UUID"))
    } else if text_eq(node_id, "VisualUUIDs") || text_eq(node_id, "Visuals") {
        Some(("lsx__CharacterCreationSharedVisuals", "UUID"))
    } else if text_eq(node_id, "AccessorySetUUIDs") {
        Some(("lsx__CharacterCreationAccessorySets__CharacterCreationAccessorySet", "UUID"))
    } else if text_eq(node_id, "AppearanceMaterialUUIDs") || text_eq(node_id, "ColorMaterialUUIDs") {
        Some(("lsx__CharacterCreationAppearanceMaterials", "UUID"))
    } else if text_eq(node_id, "ClothsColors") || text_eq(node_id, "ClothsPatterns") {
        Some(("lsx__CrowdCharacterMaterialPresets", "UUID"))
    } else if text_eq(node_id, "EyeColors") {
        Some(("lsx__CharacterCreationEyeColors", "UUID"))
    } else if text_eq(node_id, "SkinColors") {
        Some(("lsx__CharacterCreationSkinColors", "UUID"))
    } else if text_eq(node_id, "HairColors") {
        Some(("lsx__CharacterCreationHairColors", "UUID"))
    } else if text_eq(node_id, "HairGrayingColors") || text_eq(node_id, "HairHighlightColors") || text_eq(node_id, "HornColors") || text_eq(node_id, "HornTipColors") || text_eq(node_id, "LipsMakeupColors") || text_eq(node_id, "MakeupColors") || text_eq(node_id, "TattooColors") {
        Some(("lsx__ColorDefinitions", "UUID"))
    } else if text_eq(node_id, "AnimationsList") {
        Some(("lsx__EmoteAnimations", "UUID"))
    } else if text_eq(node_id, "PosesList") {
        Some(("lsx__EmotePoses", "UUID"))
    } else if text_eq(node_id, "FaceExpressionsList") {
        Some(("lsx__FaceExpressions__FaceExpression", "UUID"))
    } else if text_eq(node_id, "ParameterUUIDs") {
        Some(("lsx__ScriptMaterialOverrideParameters", "UUID"))
    } else if text_eq(node_id, "PrerequisiteUUIDs") {
        Some(("lsx__TadpolePowersTree__TadpolePowerNode", "UUID"))
    } else {
        None
    }
}

/// The table that a column of a table refers to, by its `UUID`, where the
/// column's name alone does not tell.
pub open spec fn specific_target(table_name: Seq<char>, col_name: Seq<char>) -> Option<Seq<char>> {
    if table_name == "lsx__FactionManager"@ && (col_name == "Source"@ || col_name == "Target"@) {
        Some("lsx__FactionContainer"@)
    } else if table_name == "lsx__Crime__Property"@ && (col_name == "Properties"@) {
        Some("lsx__DisturbanceProperties"@)
    } else if table_name == "lsx__Reactions"@ && (col_name == "id"@) {
        Some("lsx__Origins__Origin"@)
    } else if table_name == "lsx__MultiEffectInfos__SourceIgnoreTag"@ && (col_name == "Value"@) {
        Some("lsx__Tags__Tags"@)
    } else if table_name == "lsx__MultiEffectInfos__SourceTag"@ && (col_name == "Value"@) {
        Some("lsx__Tags__Tags"@)
    } else if table_name == "lsx__MultiEffectInfos__TargetIgnoreTag"@ && (col_name == "Value"@) {
        Some("lsx__Tags__Tags"@)
    } else if table_name == "lsx__MultiEffectInfos__TargetTag"@ && (col_name == "Value"@) {
        Some("lsx__Tags__Tags"@)
    } else if table_name == "lsx__DeathEffects"@ && (col_name == "Acid"@ || col_name == "Chasm"@ || col_name == "CinematicDeath"@ || col_name == "Cold"@ || col_name == "Disintegrate"@ || col_name == "DoT"@ || col_name == "Electrocution"@ || col_name == "Explode"@ || col_name == "Fallback"@ || col_name == "Falling"@ || col_name == "Incinerate"@ || col_name == "KnockedDown"@ || col_name == "Lifetime"@ || col_name == "Necrotic"@ || col_name == "Physical"@ || col_name == "Psychic"@ || col_name == "Radiant"@) {
        Some("lsx__MultiEffectInfos__MultiEffectInfos"@)
    } else {
        None
    }
}

/// The table and column that a column of a table refers to, where the column's
/// name alone does not tell.
pub fn table_specific_fk(table_name: &str, col_name: &str) -> (r: Option<(&'static str, &'static str)>)
    ensures
        r.deep_view() == by_uuid(specific_target(table_name@, col_name@)),
{
    if text_eq(table_name, "lsx__FactionManager") && (text_eq(col_name, "Source") || text_eq(col_name, "Target")) {
        Some(("lsx__FactionContainer", "UUID"))
    } else if text_eq(table_name, "lsx__Crime__Property") && (text_eq(col_name, "Properties")) {
        Some(("lsx__DisturbanceProperties", "UUID"))
    } else if text_eq(table_name, "lsx__Reactions") && (text_eq(col_name, "id")) {
        Some(("lsx__Origins__Origin", "UUID"))
    } else if text_eq(table_name, "lsx__MultiEffectInfos__SourceIgnoreTag") && (text_eq(col_name, "Value")) {
        Some(("lsx__Tags__Tags", "UUID"))
    } else if text_eq(table_name, "lsx__MultiEffectInfos__SourceTag") && (text_eq(col_name, "Value")) {
        Some(("lsx__Tags__Tags", "UUID"))
    } else if text_eq(table_name, "lsx__MultiEffectInfos__TargetIgnoreTag") && (text_eq(col_name, "Value")) {
        Some(("lsx__Tags__Tags", "UUID"))
    } else if text_eq(table_name, "lsx__MultiEffectInfos__TargetTag") && (text_eq(col_name, "Value")) {
        Some(("lsx__Tags__Tags", "UUID"))
    } else if text_eq(table_name, "lsx__DeathEffects") && (text_eq(col_name, "Acid") || text_eq(col_name, "Chasm") || text_eq(col_name, "CinematicDeath") || text_eq(col_name, "Cold") || text_eq(col_name, "Disintegrate") || text_eq(col_name, "DoT") || text_eq(col_name, "Electrocution") || text_eq(col_name, "Explode") || text_eq(col_name, "Fallback") || text_eq(col_name, "Falling") || text_eq(col_name, "Incinerate") || text_eq(col_name, "KnockedDown") || text_eq(col_name, "Lifetime") || text_eq(col_name, "Necrotic") || text_eq(col_name, "Physical") || text_eq(col_name, "Psychic") || text_eq(col_name, "Radiant")) {
        Some(("lsx__MultiEffectInfos__MultiEffectInfos", "UUID"))
    } else {
        None
    }
}

} // verus!
