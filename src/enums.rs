//! The closed sets of values a lookup is parameterised by, with the names
//! under which the web service and the command line know them.

use vstd::prelude::*;

verus! {
/// A group of game versions that share move sets.
#[derive(Copy, Clone, PartialEq, Eq, Structural, PartialOrd, Ord, Debug)]
pub enum VersionGroup {
    RedBlue,
    Yellow,
    GoldSilver,
    Crystal,
    RubySapphire,
    Emerald,
    FireredLeafgreen,
    Colusseum,
    XD,
    DiamondPearl,
    Platinum,
    HeartgoldSoulsilver,
    BlackWhite,
    Black2White2,
    XY,
    OmegaRubyAlphaSapphire,
    SunMoon,
    UltraSunUltraMoon,
    LetsGoPikachuLetsGoEevee,
    SwordShield,
    TheIsleOfArmor,
    TheCrownTundra,
    BrilliantDiamondShiningPearl,
    LegendsArceus,
    ScarletViolet,
    TheTealMask,
    TheIndigoDisk,
    LegendsZA,
    MegaDimension,
}

impl VersionGroup {
    /// The name of the value: its identifier in lower case, with a `-`
    /// between words.
    pub open spec fn spec_name(self) -> Seq<char> {
        match self {
            VersionGroup::RedBlue => "red-blue"@,
            VersionGroup::Yellow => "yellow"@,
            VersionGroup::GoldSilver => "gold-silver"@,
            VersionGroup::Crystal => "crystal"@,
            VersionGroup::RubySapphire => "ruby-sapphire"@,
            VersionGroup::Emerald => "emerald"@,
            VersionGroup::FireredLeafgreen => "firered-leafgreen"@,
            VersionGroup::Colusseum => "colusseum"@,
            VersionGroup::XD => "xd"@,
            VersionGroup::DiamondPearl => "diamond-pearl"@,
            VersionGroup::Platinum => "platinum"@,
            VersionGroup::HeartgoldSoulsilver => "heartgold-soulsilver"@,
            VersionGroup::BlackWhite => "black-white"@,
            VersionGroup::Black2White2 => "black2-white2"@,
            VersionGroup::XY => "xy"@,
            VersionGroup::OmegaRubyAlphaSapphire => "omega-ruby-alpha-sapphire"@,
            VersionGroup::SunMoon => "sun-moon"@,
            VersionGroup::UltraSunUltraMoon => "ultra-sun-ultra-moon"@,
            VersionGroup::LetsGoPikachuLetsGoEevee => "lets-go-pikachu-lets-go-eevee"@,
            VersionGroup::SwordShield => "sword-shield"@,
            VersionGroup::TheIsleOfArmor => "the-isle-of-armor"@,
            VersionGroup::TheCrownTundra => "the-crown-tundra"@,
            VersionGroup::BrilliantDiamondShiningPearl => "brilliant-diamond-shining-pearl"@,
            VersionGroup::LegendsArceus => "legends-arceus"@,
            VersionGroup::ScarletViolet => "scarlet-violet"@,
            VersionGroup::TheTealMask => "the-teal-mask"@,
            VersionGroup::TheIndigoDisk => "the-indigo-disk"@,
            VersionGroup::LegendsZA => "legends-za"@,
            VersionGroup::MegaDimension => "mega-dimension"@,
        }
    }

    /// The name of the value: its identifier in lower case, with a `-`
    /// between words.
    pub fn name(&self) -> (r: &'static str)
        ensures
            r@ == self.spec_name(),
    {
        match self {
            VersionGroup::RedBlue => "red-blue",
            VersionGroup::Yellow => "yellow",
            VersionGroup::GoldSilver => "gold-silver",
            VersionGroup::Crystal => "crystal",
            VersionGroup::RubySapphire => "ruby-sapphire",
            VersionGroup::Emerald => "emerald",
            VersionGroup::FireredLeafgreen => "firered-leafgreen",
            VersionGroup::Colusseum => "colusseum",
            VersionGroup::XD => "xd",
            VersionGroup::DiamondPearl => "diamond-pearl",
            VersionGroup::Platinum => "platinum",
            VersionGroup::HeartgoldSoulsilver => "heartgold-soulsilver",
            VersionGroup::BlackWhite => "black-white",
            VersionGroup::Black2White2 => "black2-white2",
            VersionGroup::XY => "xy",
            VersionGroup::OmegaRubyAlphaSapphire => "omega-ruby-alpha-sapphire",
            VersionGroup::SunMoon => "sun-moon",
            VersionGroup::UltraSunUltraMoon => "ultra-sun-ultra-moon",
            VersionGroup::LetsGoPikachuLetsGoEevee => "lets-go-pikachu-lets-go-eevee",
            VersionGroup::SwordShield => "sword-shield",
            VersionGroup::TheIsleOfArmor => "the-isle-of-armor",
            VersionGroup::TheCrownTundra => "the-crown-tundra",
            VersionGroup::BrilliantDiamondShiningPearl => "brilliant-diamond-shining-pearl",
            VersionGroup::LegendsArceus => "legends-arceus",
            VersionGroup::ScarletViolet => "scarlet-violet",
            VersionGroup::TheTealMask => "the-teal-mask",
            VersionGroup::TheIndigoDisk => "the-indigo-disk",
            VersionGroup::LegendsZA => "legends-za",
            VersionGroup::MegaDimension => "mega-dimension",
        }
    }
}

/// A game version.
#[derive(Copy, Clone, PartialEq, Eq, Structural, PartialOrd, Ord, Debug)]
pub enum Version {
    Red,
    Blue,
    Yellow,
    Gold,
    Silver,
    Crystal,
    Ruby,
    Sapphire,
    Emerald,
    Firered,
    Leafgreen,
    Diamond,
    Pearl,
    Platinum,
    Heartgold,
    Soulsilver,
    Black,
    White,
    Colosseum,
    XD,
    Black2,
    White2,
    X,
    Y,
    OmegaRuby,
    AlphaSapphire,
    Sun,
    Moon,
    UltraSun,
    UltraMoon,
    LetsGoPikachu,
    LetsGoEevee,
    Sword,
    Shield,
    TheIsleOfArmor,
    TheCrownTundra,
    BrilliantDiamond,
    ShiningPearl,
    LegendsArceus,
    Scarlet,
    Violet,
    TheTealMask,
    TheIndigoDisk,
    LegendsZA,
    MegaDimension,
}

impl Version {
    /// The name of the value: its identifier in lower case, with a `-`
    /// between words.
    pub open spec fn spec_name(self) -> Seq<char> {
        match self {
            Version::Red => "red"@,
            Version::Blue => "blue"@,
            Version::Yellow => "yellow"@,
            Version::Gold => "gold"@,
            Version::Silver => "silver"@,
            Version::Crystal => "crystal"@,
            Version::Ruby => "ruby"@,
            Version::Sapphire => "sapphire"@,
            Version::Emerald => "emerald"@,
            Version::Firered => "firered"@,
            Version::Leafgreen => "leafgreen"@,
            Version::Diamond => "diamond"@,
            Version::Pearl => "pearl"@,
            Version::Platinum => "platinum"@,
            Version::Heartgold => "heartgold"@,
            Version::Soulsilver => "soulsilver"@,
            Version::Black => "black"@,
            Version::White => "white"@,
            Version::Colosseum => "colosseum"@,
            Version::XD => "xd"@,
            Version::Black2 => "black2"@,
            Version::White2 => "white2"@,
            Version::X => "x"@,
            Version::Y => "y"@,
            Version::OmegaRuby => "omega-ruby"@,
            Version::AlphaSapphire => "alpha-sapphire"@,
            Version::Sun => "sun"@,
            Version::Moon => "moon"@,
            Version::UltraSun => "ultra-sun"@,
            Version::UltraMoon => "ultra-moon"@,
            Version::LetsGoPikachu => "lets-go-pikachu"@,
            Version::LetsGoEevee => "lets-go-eevee"@,
            Version::Sword => "sword"@,
            Version::Shield => "shield"@,
            Version::TheIsleOfArmor => "the-isle-of-armor"@,
            Version::TheCrownTundra => "the-crown-tundra"@,
            Version::BrilliantDiamond => "brilliant-diamond"@,
            Version::ShiningPearl => "shining-pearl"@,
            Version::LegendsArceus => "legends-arceus"@,
            Version::Scarlet => "scarlet"@,
            Version::Violet => "violet"@,
            Version::TheTealMask => "the-teal-mask"@,
            Version::TheIndigoDisk => "the-indigo-disk"@,
            Version::LegendsZA => "legends-za"@,
            Version::MegaDimension => "mega-dimension"@,
        }
    }

    /// The name of the value: its identifier in lower case, with a `-`
    /// between words.
    pub fn name(&self) -> (r: &'static str)
        ensures
            r@ == self.spec_name(),
    {
        match self {
            Version::Red => "red",
            Version::Blue => "blue",
            Version::Yellow => "yellow",
            Version::Gold => "gold",
            Version::Silver => "silver",
            Version::Crystal => "crystal",
            Version::Ruby => "ruby",
            Version::Sapphire => "sapphire",
            Version::Emerald => "emerald",
            Version::Firered => "firered",
            Version::Leafgreen => "leafgreen",
            Version::Diamond => "diamond",
            Version::Pearl => "pearl",
            Version::Platinum => "platinum",
            Version::Heartgold => "heartgold",
            Version::Soulsilver => "soulsilver",
            Version::Black => "black",
            Version::White => "white",
            Version::Colosseum => "colosseum",
            Version::XD => "xd",
            Version::Black2 => "black2",
            Version::White2 => "white2",
            Version::X => "x",
            Version::Y => "y",
            Version::OmegaRuby => "omega-ruby",
            Version::AlphaSapphire => "alpha-sapphire",
            Version::Sun => "sun",
            Version::Moon => "moon",
            Version::UltraSun => "ultra-sun",
            Version::UltraMoon => "ultra-moon",
            Version::LetsGoPikachu => "lets-go-pikachu",
            Version::LetsGoEevee => "lets-go-eevee",
            Version::Sword => "sword",
            Version::Shield => "shield",
            Version::TheIsleOfArmor => "the-isle-of-armor",
            Version::TheCrownTundra => "the-crown-tundra",
            Version::BrilliantDiamond => "brilliant-diamond",
            Version::ShiningPearl => "shining-pearl",
            Version::LegendsArceus => "legends-arceus",
            Version::Scarlet => "scarlet",
            Version::Violet => "violet",
            Version::TheTealMask => "the-teal-mask",
            Version::TheIndigoDisk => "the-indigo-disk",
            Version::LegendsZA => "legends-za",
            Version::MegaDimension => "mega-dimension",
        }
    }
}

/// An elemental type.
#[derive(Copy, Clone, PartialEq, Eq, Structural, PartialOrd, Ord, Debug)]
pub enum Type {
    Normal,
    Fighting,
    Flying,
    Poison,
    Ground,
    Rock,
    Bug,
    GhostType,
    Steel,
    Fire,
    Water,
    Grass,
    Electric,
    Psychic,
    Ice,
    Dragon,
    Dark,
    Fairy,
}

impl Type {
    /// The name of the value: its identifier in lower case, with a `-`
    /// between words.
    pub open spec fn spec_name(self) -> Seq<char> {
        match self {
            Type::Normal => "normal"@,
            Type::Fighting => "fighting"@,
            Type::Flying => "flying"@,
            Type::Poison => "poison"@,
            Type::Ground => "ground"@,
            Type::Rock => "rock"@,
            Type::Bug => "bug"@,
            Type::GhostType => "ghost"@,
            Type::Steel => "steel"@,
            Type::Fire => "fire"@,
            Type::Water => "water"@,
            Type::Grass => "grass"@,
            Type::Electric => "electric"@,
            Type::Psychic => "psychic"@,
            Type::Ice => "ice"@,
            Type::Dragon => "dragon"@,
            Type::Dark => "dark"@,
            Type::Fairy => "fairy"@,
        }
    }

    /// The name of the value: its identifier in lower case, with a `-`
    /// between words.
    pub fn name(&self) -> (r: &'static str)
        ensures
            r@ == self.spec_name(),
    {
        match self {
            Type::Normal => "normal",
            Type::Fighting => "fighting",
            Type::Flying => "flying",
            Type::Poison => "poison",
            Type::Ground => "ground",
            Type::Rock => "rock",
            Type::Bug => "bug",
            Type::GhostType => "ghost",
            Type::Steel => "steel",
            Type::Fire => "fire",
            Type::Water => "water",
            Type::Grass => "grass",
            Type::Electric => "electric",
            Type::Psychic => "psychic",
            Type::Ice => "ice",
            Type::Dragon => "dragon",
            Type::Dark => "dark",
            Type::Fairy => "fairy",
        }
    }
}

/// A language in which names can be shown.
#[derive(Copy, Clone, PartialEq, Eq, Structural, PartialOrd, Ord, Debug)]
pub enum LanguageId {
    JaHrkt,
    Roomaji,
    Ko,
    ZhHant,
    Fr,
    De,
    Es,
    It,
    En,
    Cs,
    Ja,
    ZhHans,
    PtBR,
}

impl LanguageId {
    /// The name of the value: its identifier in lower case, with a `-`
    /// between words.
    pub open spec fn spec_name(self) -> Seq<char> {
        match self {
            LanguageId::JaHrkt => "ja-hrkt"@,
            LanguageId::Roomaji => "roomaji"@,
            LanguageId::Ko => "ko"@,
            LanguageId::ZhHant => "zh-hant"@,
            LanguageId::Fr => "fr"@,
            LanguageId::De => "de"@,
            LanguageId::Es => "es"@,
            LanguageId::It => "it"@,
            LanguageId::En => "en"@,
            LanguageId::Cs => "cs"@,
            LanguageId::Ja => "ja"@,
            LanguageId::ZhHans => "zh-hans"@,
            LanguageId::PtBR => "pt-br"@,
        }
    }

    /// The name of the value: its identifier in lower case, with a `-`
    /// between words.
    pub fn name(&self) -> (r: &'static str)
        ensures
            r@ == self.spec_name(),
    {
        match self {
            LanguageId::JaHrkt => "ja-hrkt",
            LanguageId::Roomaji => "roomaji",
            LanguageId::Ko => "ko",
            LanguageId::ZhHant => "zh-hant",
            LanguageId::Fr => "fr",
            LanguageId::De => "de",
            LanguageId::Es => "es",
            LanguageId::It => "it",
            LanguageId::En => "en",
            LanguageId::Cs => "cs",
            LanguageId::Ja => "ja",
            LanguageId::ZhHans => "zh-hans",
            LanguageId::PtBR => "pt-br",
        }
    }
}

} // verus!
