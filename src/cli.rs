//! The command line's arguments as plain values.

use vstd::prelude::*;
pub use crate::enums::{LanguageId, Type, Version, VersionGroup};

verus! {

/// The arguments of one run: where responses are cached, and the lookup.
pub struct Args {
    pub cache_dir: Option<String>,
    pub command: SubArgs,
}

/// The lookup to run, with its parameters.
pub enum SubArgs {
    /// The varieties of a species.
    ListCmd { pokemon: String, fast: bool, lang: LanguageId },
    /// The types of a creature, or of its whole family.
    TypeCmd { pokemon: String, fast: bool, lang: LanguageId, recursive: bool },
    /// The abilities of a creature, or of its whole family.
    AbilityCmd { pokemon: String, fast: bool, lang: LanguageId, recursive: bool },
    /// The level-up moves of a creature in a version group, up to a level.
    MoveCmd {
        pokemon: String,
        fast: bool,
        lang: LanguageId,
        vgroup: VersionGroup,
        level: Option<i64>,
    },
    /// The egg groups of a species.
    EggCmd { pokemon: String, fast: bool, lang: LanguageId },
    /// The gender ratio of a species.
    GenderCmd { pokemon: String, fast: bool, lang: LanguageId },
    /// Where a creature, or its whole family, is found in a version.
    EncounterCmd {
        version: Version,
        pokemon: String,
        fast: bool,
        lang: LanguageId,
        recursive: bool,
    },
    /// The evolution chain of a species.
    EvolutionCmd { pokemon: String, fast: bool, lang: LanguageId, secret: bool, all: bool },
    /// The damage multipliers against a type or a pair of types.
    MatchupCmd {
        primary: Type,
        secondary: Option<Type>,
        list: bool,
        fast: bool,
        lang: LanguageId,
    },
    /// A reference web page for one endpoint.
    DexCmd { endpoint: Endpoints, area: Option<String>, generation: Option<i64> },
}

/// The endpoint of a reference page; the command line accepts exactly one.
pub struct Endpoints {
    pub pokemon: Option<String>,
    pub region: Option<String>,
    pub move_: Option<String>,
    pub ability: Option<String>,
    pub item: Option<String>,
}

/// Which reference page to open, and for what.
pub enum DexMode {
    Pokedex(String),
    Pokearth(String),
    Attackdex(String),
    Abilitydex(String),
    Itemdex(String),
}

/// The page for the endpoint given, taken in the order creature, region,
/// move, ability, item; `None` when no endpoint is given.
pub open spec fn endpoint_mode(e: Endpoints) -> Option<DexMode> {
    match e.pokemon {
        Some(p) => Some(DexMode::Pokedex(p)),
        None => match e.region {
            Some(p) => Some(DexMode::Pokearth(p)),
            None => match e.move_ {
                Some(p) => Some(DexMode::Attackdex(p)),
                None => match e.ability {
                    Some(p) => Some(DexMode::Abilitydex(p)),
                    None => match e.item {
                        Some(p) => Some(DexMode::Itemdex(p)),
                        None => None,
                    },
                },
            },
        },
    }
}

impl Endpoints {
    /// The page for the endpoint given, taken in the order creature, region,
    /// move, ability, item; `None` when no endpoint is given.
    pub fn get_mode(&self) -> (r: Option<DexMode>)
        ensures
            r == endpoint_mode(*self),
    {
        if let Some(p) = &self.pokemon {
            Some(DexMode::Pokedex(p.clone()))
        } else if let Some(p) = &self.region {
            Some(DexMode::Pokearth(p.clone()))
        } else if let Some(p) = &self.move_ {
            Some(DexMode::Attackdex(p.clone()))
        } else if let Some(p) = &self.ability {
            Some(DexMode::Abilitydex(p.clone()))
        } else if let Some(p) = &self.item {
            Some(DexMode::Itemdex(p.clone()))
        } else {
            None
        }
    }
}

/// The name of the program, as its help and error messages give it.
pub fn get_appname() -> (r: String)
    ensures
        r@ == "pokelookup"@,
{
    String::from_str("pokelookup")
}

} // verus!
