use pokelookup::enums::{LanguageId, Type};
use pokelookup::matchups::{combine, pad_buckets, print_matchups, DamageRelations, TypeRecord};
use pokelookup::names::{LocalName, Named};

fn type_named(slug: &str) -> Named {
    let (en, es) = match slug {
        "normal" => ("Normal", "Normal"),
        "fighting" => ("Fighting", "Lucha"),
        "flying" => ("Flying", "Volador"),
        "poison" => ("Poison", "Veneno"),
        "ground" => ("Ground", "Tierra"),
        "rock" => ("Rock", "Roca"),
        "bug" => ("Bug", "Bicho"),
        "ghost" => ("Ghost", "Fantasma"),
        "steel" => ("Steel", "Acero"),
        "fire" => ("Fire", "Fuego"),
        "water" => ("Water", "Agua"),
        "grass" => ("Grass", "Planta"),
        "electric" => ("Electric", "Eléctrico"),
        "psychic" => ("Psychic", "Psíquico"),
        "ice" => ("Ice", "Hielo"),
        "dragon" => ("Dragon", "Dragón"),
        "dark" => ("Dark", "Siniestro"),
        _ => ("Fairy", "Hada"),
    };
    Named {
        slug: slug.to_string(),
        names: vec![
            LocalName { language: Some("en".to_string()), name: en.to_string() },
            LocalName { language: Some("es".to_string()), name: es.to_string() },
        ],
    }
}

fn types(slugs: &[&str]) -> Vec<Named> {
    slugs.iter().map(|s| type_named(s)).collect()
}

fn record(t: Type) -> TypeRecord {
    let (no, half, double): (&[&str], &[&str], &[&str]) = match t {
        Type::Fairy => (&["dragon"], &["fighting", "bug", "dark"], &["poison", "steel"]),
        Type::Electric => (&[], &["flying", "steel", "electric"], &["ground"]),
        Type::Ground => (&["electric"], &["poison", "rock"], &["water", "grass", "ice"]),
        Type::Steel => (
            &["poison"],
            &["normal", "flying", "rock", "bug", "steel", "grass", "psychic", "ice", "dragon", "fairy"],
            &["fighting", "ground", "fire"],
        ),
        Type::Water => (&[], &["steel", "fire", "water", "ice"], &["grass", "electric"]),
        _ => (&[], &[], &[]),
    };
    TypeRecord {
        name: type_named(t.name()),
        relations: DamageRelations {
            no_damage_from: types(no),
            half_damage_from: types(half),
            double_damage_from: types(double),
        },
    }
}

#[test]
fn test_matchups() {
    let success = vec![
        "     *0          *0.5          *2     ",
        "------------ ------------ ------------",
        "Dragon       Fighting     Poison      ",
        "             Bug          Steel       ",
        "             Dark                     ",
    ];
    let primary = Type::Fairy;
    let secondary: Option<Type> = None;
    let fast = false;
    let lang = LanguageId::En;
    let list = false;
    let res = print_matchups(&record(primary), &secondary.map(record), list, fast, lang.name());
    assert_eq!(res, success);
}

#[test]
fn test_matchups_dual() {
    let success = vec![
        "     *0         *0.25         *0.5          *2           *4     ",
        "------------ ------------ ------------ ------------ ------------",
        "Electric                  Flying       Ground                   ",
        "                          Steel        Water                    ",
        "                          Poison       Grass                    ",
        "                          Rock         Ice                      ",
    ];
    let primary = Type::Electric;
    let secondary = Some(Type::Ground);
    let res = print_matchups(&record(primary), &secondary.map(record), false, false, LanguageId::En.name());
    assert_eq!(res, success);
}

#[test]
fn test_matchups_list() {
    let success = vec![
        "Hada/Acero:", " - 0x:", "   * Dragón", "   * Veneno", "", " - 0.25x:", "   * Bicho", "",
        " - 0.5x:", "   * Siniestro", "   * Normal", "   * Volador", "   * Roca", "   * Planta",
        "   * Psíquico", "   * Hielo", "   * Hada", "", " - 2x:", "   * Tierra", "   * Fuego",
    ];
    let primary = Type::Fairy;
    let secondary = Some(Type::Steel);
    let res = print_matchups(&record(primary), &secondary.map(record), true, false, LanguageId::Es.name());
    assert_eq!(res, success);
}

#[test]
fn single_type_list() {
    let res = print_matchups(&record(Type::Fairy), &None, true, false, "en");
    assert_eq!(
        res,
        vec![
            "Fairy:", " - 0x:", "   * Dragon", "", " - 0.5x:", "   * Fighting", "   * Bug", "   * Dark", "",
            " - 2x:", "   * Poison", "   * Steel",
        ]
    );
}

#[test]
fn fast_list_uses_slugs() {
    let res = print_matchups(&record(Type::Fairy), &None, true, true, "en");
    assert_eq!(res[0], "fairy:");
    assert_eq!(res[2], "   * dragon");
}

#[test]
fn dual_types_land_in_one_bucket_each() {
    let b = combine(&record(Type::Electric), &Some(record(Type::Ground)), "en", false);
    assert_eq!(b.zero, vec!["Electric"]);
    assert!(b.quarter.is_empty());
    assert_eq!(b.half, vec!["Flying", "Steel", "Poison", "Rock"]);
    assert_eq!(b.double, vec!["Ground", "Water", "Grass", "Ice"]);
    assert!(b.quad.is_empty());
    let mut all: Vec<&String> = b.zero.iter().chain(&b.quarter).chain(&b.half).chain(&b.double).chain(&b.quad).collect();
    let n = all.len();
    all.sort();
    all.dedup();
    assert_eq!(all.len(), n);
}

#[test]
fn ground_alone_is_immune_to_electric() {
    let b = combine(&record(Type::Ground), &None, "en", false);
    assert_eq!(b.zero, vec!["Electric"]);
}

#[test]
fn weaknesses_and_resistances_multiply() {
    let b = combine(&record(Type::Water), &Some(record(Type::Ground)), "en", true);
    assert_eq!(b.zero, vec!["electric"]);
    assert_eq!(b.quarter, Vec::<String>::new());
    assert_eq!(b.half, vec!["steel", "fire", "poison", "rock"]);
    assert_eq!(b.double, Vec::<String>::new());
    assert_eq!(b.quad, vec!["grass"]);
    let b = combine(&record(Type::Water), &Some(record(Type::Steel)), "en", true);
    assert_eq!(b.quarter, vec!["steel", "ice"]);
}

#[test]
fn padding_reaches_the_longest_bucket() {
    let mut b = combine(&record(Type::Fairy), &None, "en", false);
    pad_buckets(&mut b);
    assert_eq!(b.zero, vec!["Dragon", "", ""]);
    assert_eq!(b.quarter, vec!["", "", ""]);
    assert_eq!(b.double, vec!["Poison", "Steel", ""]);
}

#[test]
fn type_without_relations_gives_only_the_header() {
    let res = print_matchups(&record(Type::Normal), &None, false, false, "en");
    assert_eq!(res.len(), 2);
    let res = print_matchups(&record(Type::Normal), &None, true, false, "en");
    assert_eq!(res, vec!["Normal:"]);
}

#[test]
fn fast_mode_matches_types_named_by_slug() {
    let slugged = |s: &str| Named {
        slug: s.to_string(),
        names: vec![LocalName { language: Some("en".to_string()), name: s.to_string() }],
    };
    let rec = || TypeRecord {
        name: slugged("fairy"),
        relations: DamageRelations {
            no_damage_from: vec![slugged("dragon")],
            half_damage_from: vec![slugged("bug")],
            double_damage_from: vec![slugged("steel")],
        },
    };
    assert_eq!(print_matchups(&rec(), &None, true, true, "en"), print_matchups(&rec(), &None, true, false, "en"));
}

#[test]
fn quarter_entries_all_show_in_the_table() {
    let rec = |slug: &str, half: &[&str]| TypeRecord {
        name: type_named(slug),
        relations: DamageRelations {
            no_damage_from: vec![],
            half_damage_from: types(half),
            double_damage_from: vec![],
        },
    };
    let res = print_matchups(&rec("steel", &["bug", "rock"]), &Some(rec("water", &["bug", "rock"])), false, false, "en");
    assert_eq!(
        res,
        vec![
            "     *0         *0.25         *0.5          *2           *4     ",
            "------------ ------------ ------------ ------------ ------------",
            "             Bug                                                ",
            "             Rock                                               ",
        ]
    );
    let mut b = combine(&rec("steel", &["bug", "rock"]), &Some(rec("water", &["bug", "rock"])), "en", false);
    pad_buckets(&mut b);
    assert_eq!(b.quarter, vec!["Bug", "Rock"]);
    assert_eq!(b.zero, vec!["", ""]);
}
