use pokelookup::enums::LanguageId;
use pokelookup::evolution::{
    chain_exception, chain_lines, forces_all_methods, get_evolution_details, get_evolution_name,
    hide_names, latest_methods, line_texts, method_text, path_of, print_evolutions, ChainException,
    EvolutionDetail, EvolutionNode,
};
use pokelookup::names::{LocalName, Named};

fn local(lang: &str, name: &str) -> LocalName {
    LocalName { language: Some(lang.to_string()), name: name.to_string() }
}

fn named(slug: &str, names: &[(&str, &str)]) -> Named {
    Named { slug: slug.to_string(), names: names.iter().map(|(l, n)| local(l, n)).collect() }
}

fn detail(trigger: Named) -> EvolutionDetail {
    EvolutionDetail {
        trigger,
        item: None,
        gender: None,
        known_move: None,
        known_move_type: None,
        location: None,
        min_level: None,
        min_happiness: None,
        min_beauty: None,
        min_affection: None,
        needs_overworld_rain: false,
        party_species: None,
        party_type: None,
        relative_physical_stats: None,
        time_of_day: String::new(),
        trade_species: None,
        turn_upside_down: false,
    }
}

fn use_item() -> Named {
    named("use-item", &[("en", "Use item")])
}

fn level_up() -> Named {
    named("level-up", &[("en", "Level up")])
}

fn with_item(slug: &str, en: &str, es: &str) -> EvolutionDetail {
    let mut d = detail(use_item());
    d.item = Some(named(slug, &[("en", en), ("es", es)]));
    d
}

fn at_location(slug: &str, names: &[(&str, &str)]) -> EvolutionDetail {
    let mut d = detail(level_up());
    d.location = Some(named(slug, names));
    d
}

fn happy_at(time: &str) -> EvolutionDetail {
    let mut d = detail(level_up());
    d.min_happiness = Some(160);
    d.time_of_day = time.to_string();
    d
}

fn fairy_move(affection: Option<i64>, happiness: Option<i64>) -> EvolutionDetail {
    let mut d = detail(level_up());
    d.known_move_type = Some(named("fairy", &[("en", "Fairy"), ("es", "Hada")]));
    d.min_affection = affection;
    d.min_happiness = happiness;
    d
}

fn node(species: Named, details: Vec<EvolutionDetail>, evolves_to: Vec<EvolutionNode>) -> EvolutionNode {
    EvolutionNode { species, details, evolves_to }
}

fn mon(slug: &str, en: &str) -> Named {
    named(slug, &[("en", en), ("es", en)])
}

fn eevee_chain() -> EvolutionNode {
    node(
        mon("eevee", "Eevee"),
        vec![],
        vec![
            node(mon("vaporeon", "Vaporeon"), vec![with_item("water-stone", "Water Stone", "Piedra Agua")], vec![]),
            node(
                mon("jolteon", "Jolteon"),
                vec![with_item("thunder-stone", "Thunder Stone", "Piedra Trueno")],
                vec![],
            ),
            node(mon("flareon", "Flareon"), vec![with_item("fire-stone", "Fire Stone", "Piedra Fuego")], vec![]),
            node(mon("espeon", "Espeon"), vec![happy_at("day")], vec![]),
            node(mon("umbreon", "Umbreon"), vec![happy_at("night")], vec![]),
            node(
                mon("leafeon", "Leafeon"),
                vec![
                    at_location("eterna-forest", &[("en", "Eterna Forest")]),
                    at_location("pinwheel-forest", &[("en", "Pinwheel Forest")]),
                    at_location("kalos-route-20", &[("en", "Route 20"), ("es", "Ruta 20")]),
                    with_item("leaf-stone", "Leaf Stone", "Piedra Hoja"),
                ],
                vec![],
            ),
            node(
                mon("glaceon", "Glaceon"),
                vec![
                    at_location("sinnoh-route-217", &[("en", "Route 217")]),
                    at_location("twist-mountain", &[("en", "Twist Mountain")]),
                    at_location("frost-cavern", &[("en", "Frost Cavern"), ("es", "Gruta Helada")]),
                    with_item("ice-stone", "Ice Stone", "Piedra Hielo"),
                ],
                vec![],
            ),
            node(
                mon("sylveon", "Sylveon"),
                vec![fairy_move(Some(2), None), fairy_move(None, Some(160))],
                vec![],
            ),
        ],
    )
}

fn eevee_species() -> Named {
    mon("eevee", "Eevee")
}

#[test]
fn test_evolutions() {
    let success = vec![
        vec![
            "eevee -> use-item (item: water-stone) -> vaporeon",
            "eevee -> use-item (item: thunder-stone) -> jolteon",
            "eevee -> use-item (item: fire-stone) -> flareon",
            "eevee -> level-up (min_happiness: 160, time_of_day: day) -> espeon",
            "eevee -> level-up (min_happiness: 160, time_of_day: night) -> umbreon",
            "eevee -> level-up (location: eterna-forest) -> leafeon",
            "eevee -> level-up (location: pinwheel-forest) -> leafeon",
            "eevee -> level-up (location: kalos-route-20) -> leafeon",
            "eevee -> use-item (item: leaf-stone) -> leafeon",
            "eevee -> level-up (location: sinnoh-route-217) -> glaceon",
            "eevee -> level-up (location: twist-mountain) -> glaceon",
            "eevee -> level-up (location: frost-cavern) -> glaceon",
            "eevee -> use-item (item: ice-stone) -> glaceon",
            "eevee -> level-up (known_move_type: fairy, min_affection: 2) -> sylveon",
            "eevee -> level-up (known_move_type: fairy, min_happiness: 160) -> sylveon",
        ],
        vec![
            "Eevee -> Use item (item: Water Stone) -> Vaporeon",
            "Eevee -> Use item (item: Thunder Stone) -> Jolteon",
            "Eevee -> Use item (item: Fire Stone) -> Flareon",
            "Eevee -> Level up (min_happiness: 160, time_of_day: day) -> Espeon",
            "Eevee -> Level up (min_happiness: 160, time_of_day: night) -> Umbreon",
            "Eevee -> Level up (location: Eterna Forest) -> Leafeon",
            "Eevee -> Level up (location: Pinwheel Forest) -> Leafeon",
            "Eevee -> Level up (location: Route 20) -> Leafeon",
            "Eevee -> Use item (item: Leaf Stone) -> Leafeon",
            "Eevee -> Level up (location: Route 217) -> Glaceon",
            "Eevee -> Level up (location: Twist Mountain) -> Glaceon",
            "Eevee -> Level up (location: Frost Cavern) -> Glaceon",
            "Eevee -> Use item (item: Ice Stone) -> Glaceon",
            "Eevee -> Level up (known_move_type: Fairy, min_affection: 2) -> Sylveon",
            "Eevee -> Level up (known_move_type: Fairy, min_happiness: 160) -> Sylveon",
        ],
    ];

    for (idx, vals) in success.into_iter().enumerate() {
        let fast = idx == 0;
        let lang = LanguageId::En;
        let secret = false;
        let all = true;
        let res = print_evolutions(&eevee_species(), &Some(eevee_chain()), lang.name(), fast, secret, all);
        assert_eq!(res, vals);
        assert_eq!(res.len(), 15);
    }
}

#[test]
fn test_evolutions_secret() {
    let success = vec![
        "MON -> use-item (item: water-stone) -> MON",
        "MON -> use-item (item: thunder-stone) -> MON",
        "MON -> use-item (item: fire-stone) -> MON",
        "MON -> level-up (min_happiness: 160, time_of_day: day) -> MON",
        "MON -> level-up (min_happiness: 160, time_of_day: night) -> MON",
        "MON -> level-up (location: eterna-forest) -> MON",
        "MON -> level-up (location: pinwheel-forest) -> MON",
        "MON -> level-up (location: kalos-route-20) -> MON",
        "MON -> use-item (item: leaf-stone) -> MON",
        "MON -> level-up (location: sinnoh-route-217) -> MON",
        "MON -> level-up (location: twist-mountain) -> MON",
        "MON -> level-up (location: frost-cavern) -> MON",
        "MON -> use-item (item: ice-stone) -> MON",
        "MON -> level-up (known_move_type: fairy, min_affection: 2) -> MON",
        "MON -> level-up (known_move_type: fairy, min_happiness: 160) -> MON",
    ];
    let fast = true;
    let lang = LanguageId::En;
    let secret = true;
    let all = true;
    let res = print_evolutions(&eevee_species(), &Some(eevee_chain()), lang.name(), fast, secret, all);
    assert_eq!(res, success);
}

#[test]
fn test_evolutions_language() {
    let success = vec![
        "Eevee -> use-item (item: Piedra Agua) -> Vaporeon",
        "Eevee -> use-item (item: Piedra Trueno) -> Jolteon",
        "Eevee -> use-item (item: Piedra Fuego) -> Flareon",
        "Eevee -> level-up (min_happiness: 160, time_of_day: day) -> Espeon",
        "Eevee -> level-up (min_happiness: 160, time_of_day: night) -> Umbreon",
        "Eevee -> level-up (location: eterna-forest) -> Leafeon",
        "Eevee -> level-up (location: pinwheel-forest) -> Leafeon",
        "Eevee -> level-up (location: Ruta 20) -> Leafeon",
        "Eevee -> use-item (item: Piedra Hoja) -> Leafeon",
        "Eevee -> level-up (location: sinnoh-route-217) -> Glaceon",
        "Eevee -> level-up (location: twist-mountain) -> Glaceon",
        "Eevee -> level-up (location: Gruta Helada) -> Glaceon",
        "Eevee -> use-item (item: Piedra Hielo) -> Glaceon",
        "Eevee -> level-up (known_move_type: Hada, min_affection: 2) -> Sylveon",
        "Eevee -> level-up (known_move_type: Hada, min_happiness: 160) -> Sylveon",
    ];
    let fast = false;
    let lang = LanguageId::Es;
    let secret = false;
    let all = true;
    let res = print_evolutions(&eevee_species(), &Some(eevee_chain()), lang.name(), fast, secret, all);
    assert_eq!(res, success);
}

#[test]
fn test_evolutions_no_all() {
    let success = vec![
        "Eevee -> Use item (item: Water Stone) -> Vaporeon",
        "Eevee -> Use item (item: Thunder Stone) -> Jolteon",
        "Eevee -> Use item (item: Fire Stone) -> Flareon",
        "Eevee -> Level up (min_happiness: 160, time_of_day: day) -> Espeon",
        "Eevee -> Level up (min_happiness: 160, time_of_day: night) -> Umbreon",
        "Eevee -> Use item (item: Leaf Stone) -> Leafeon",
        "Eevee -> Use item (item: Ice Stone) -> Glaceon",
        "Eevee -> Level up (known_move_type: Fairy, min_happiness: 160) -> Sylveon",
    ];
    let res = print_evolutions(&eevee_species(), &Some(eevee_chain()), LanguageId::En.name(), false, false, false);
    assert_eq!(res, success);
}

#[test]
fn test_evolutions_exceptions() {
    let success = vec![
        "Farfetch’d",
        "Farfetch’d -> Land three critical hits in a battle -> Sirfetch’d",
    ];
    let species = named("farfetchd", &[("en", "Farfetch’d")]);
    let chain = node(
        named("farfetchd", &[("en", "Farfetch’d")]),
        vec![],
        vec![node(
            named("sirfetchd", &[("en", "Sirfetch’d")]),
            vec![detail(named("three-critical-hits", &[("en", "Land three critical hits in a battle")]))],
            vec![],
        )],
    );
    let res = print_evolutions(&species, &Some(chain), LanguageId::En.name(), false, false, false);
    assert_eq!(res, success);
}

#[test]
fn test_evolutions_regional_forms() {
    let success = vec![
        "Rattata -> Level up (min_level: 20) -> Raticate",
        "Rattata -> Level up (min_level: 20, time_of_day: night) -> Raticate",
    ];
    let mut by_level = detail(level_up());
    by_level.min_level = Some(20);
    let mut at_night = detail(level_up());
    at_night.min_level = Some(20);
    at_night.time_of_day = "night".to_string();
    let chain = node(
        mon("rattata", "Rattata"),
        vec![],
        vec![node(mon("raticate", "Raticate"), vec![by_level, at_night], vec![])],
    );
    let res = print_evolutions(&mon("rattata", "Rattata"), &Some(chain), LanguageId::En.name(), false, false, false);
    assert_eq!(res, success);
}

#[test]
fn eevee_leafeon_methods_collapse_to_the_last() {
    let res = print_evolutions(&eevee_species(), &Some(eevee_chain()), "en", false, false, false);
    let leafeon: Vec<&String> = res.iter().filter(|l| l.ends_with("Leafeon")).collect();
    assert_eq!(leafeon, vec!["Eevee -> Use item (item: Leaf Stone) -> Leafeon"]);
}

#[test]
fn collapsing_twice_changes_nothing() {
    let lines = chain_lines(&eevee_chain(), "en", false);
    let once = latest_methods(&lines);
    let twice = latest_methods(&once);
    assert_eq!(line_texts(&once), line_texts(&twice));
    assert_eq!(once.len(), 8);
}

#[test]
fn collapsing_no_lines_gives_no_lines() {
    let none: Vec<Vec<String>> = Vec::new();
    assert!(latest_methods(&none).is_empty());
}

#[test]
fn collapsing_keeps_every_distinct_path() {
    let lines = vec![
        vec!["a".to_string(), "m".to_string(), "b".to_string()],
        vec!["".to_string()],
        vec!["a".to_string(), "n".to_string(), "c".to_string()],
    ];
    assert_eq!(line_texts(&latest_methods(&lines)), vec!["a -> m -> b", "", "a -> n -> c"]);
}

#[test]
fn collapsing_merges_paths_that_are_not_neighbours() {
    let mut l16 = detail(named("level-up", &[]));
    l16.min_level = Some(16);
    let stone = with_item("moon-stone", "Moon Stone", "Piedra Lunar");
    let mut l30 = detail(named("level-up", &[]));
    l30.min_level = Some(30);
    let mut l40 = detail(named("level-up", &[]));
    l40.min_level = Some(40);
    let chain = node(
        named("a", &[]),
        vec![],
        vec![node(
            named("c", &[]),
            vec![l16, stone],
            vec![node(named("g1", &[]), vec![l30], vec![]), node(named("g2", &[]), vec![l40], vec![])],
        )],
    );
    let lines = chain_lines(&chain, "en", true);
    assert_eq!(
        line_texts(&lines),
        vec![
            "a -> level-up (min_level: 16) -> c -> level-up (min_level: 30) -> g1",
            "a -> level-up (min_level: 16) -> c -> level-up (min_level: 40) -> g2",
            "a -> use-item (item: moon-stone) -> c -> level-up (min_level: 30) -> g1",
            "a -> use-item (item: moon-stone) -> c -> level-up (min_level: 40) -> g2",
        ]
    );
    assert_eq!(
        print_evolutions(&named("a", &[]), &Some(chain), "en", true, false, false),
        vec![
            "a -> use-item (item: moon-stone) -> c -> level-up (min_level: 30) -> g1",
            "a -> use-item (item: moon-stone) -> c -> level-up (min_level: 40) -> g2",
        ]
    );
}

#[test]
fn secrecy_hides_species_and_keeps_methods() {
    let lines = vec![
        vec!["eevee".to_string(), "use-item (item: water-stone)".to_string(), "vaporeon".to_string()],
        vec!["eevee".to_string()],
    ];
    assert_eq!(
        line_texts(&hide_names(&lines)),
        vec!["MON -> use-item (item: water-stone) -> MON", "MON"]
    );
}

#[test]
fn secrecy_with_localized_details() {
    let res = print_evolutions(&eevee_species(), &Some(eevee_chain()), "en", false, true, true);
    assert_eq!(res[0], "MON -> Use item (item: Water Stone) -> MON");
    assert_eq!(res.len(), 15);
}

#[test]
fn species_without_chain_is_listed_alone() {
    let species = mon("tauros", "Tauros");
    assert_eq!(print_evolutions(&species, &None, "en", false, false, false), vec!["Tauros"]);
    assert_eq!(print_evolutions(&species, &None, "en", true, false, false), vec!["tauros"]);
    assert_eq!(print_evolutions(&species, &None, "en", false, true, false), vec!["MON"]);
}

#[test]
fn chain_without_evolutions_lists_the_root() {
    let chain = node(mon("ditto", "Ditto"), vec![], vec![]);
    assert_eq!(print_evolutions(&mon("ditto", "Ditto"), &Some(chain), "en", false, false, true), vec!["Ditto"]);
}

#[test]
fn unknown_method_is_marked() {
    let chain = node(mon("a", "A"), vec![], vec![node(mon("b", "B"), vec![], vec![])]);
    assert_eq!(print_evolutions(&mon("a", "A"), &Some(chain), "en", false, false, true), vec!["A -> ??? -> B"]);
}

#[test]
fn second_stage_extends_and_repeats_the_first() {
    let mut l16 = detail(level_up());
    l16.min_level = Some(16);
    let mut l36 = detail(level_up());
    l36.min_level = Some(36);
    let stone = with_item("dusk-stone", "Dusk Stone", "Piedra Noche");
    let chain = node(
        mon("x", "X"),
        vec![],
        vec![node(
            mon("y", "Y"),
            vec![l16],
            vec![node(mon("z", "Z"), vec![l36, stone], vec![]), node(mon("w", "W"), vec![], vec![])],
        )],
    );
    assert_eq!(
        print_evolutions(&mon("x", "X"), &Some(chain), "en", false, false, true),
        vec![
            "X -> Level up (min_level: 16) -> Y -> Level up (min_level: 36) -> Z",
            "X -> Level up (min_level: 16) -> Y -> Use item (item: Dusk Stone) -> Z",
        ]
    );
}

#[test]
fn mr_mime_line_moves_ahead_and_the_next_stage_continues_from_it() {
    let mut d1 = detail(named("level-up", &[]));
    d1.known_move = Some(named("mimic", &[]));
    let d2 = detail(named("level-up", &[]));
    let chain = node(
        named("mime-jr", &[]),
        vec![],
        vec![node(named("mr-mime", &[]), vec![d1], vec![node(named("mr-rime", &[]), vec![d2], vec![])])],
    );
    assert_eq!(
        print_evolutions(&named("mime-jr", &[]), &Some(chain), "en", false, false, true),
        vec!["mime-jr -> level-up (known_move: mimic) -> mr-mime", "mr-mime -> level-up -> mr-rime"]
    );
}

#[test]
fn linoone_line_is_also_listed_first() {
    let mut d = detail(named("level-up", &[]));
    d.min_level = Some(20);
    let chain = node(named("zigzagoon", &[]), vec![], vec![node(named("linoone", &[]), vec![d], vec![])]);
    assert_eq!(
        print_evolutions(&named("zigzagoon", &[]), &Some(chain), "en", false, false, true),
        vec!["zigzagoon -> level-up (min_level: 20) -> linoone", "zigzagoon -> level-up (min_level: 20) -> linoone"]
    );
}

#[test]
fn exceptions_by_species() {
    assert_eq!(chain_exception(&"cursola".to_string()), Some(ChainException::PrependRoot));
    assert_eq!(chain_exception(&"mr-mime".to_string()), Some(ChainException::RelabelFinal));
    assert_eq!(chain_exception(&"linoone".to_string()), Some(ChainException::DuplicateFirst));
    assert_eq!(chain_exception(&"eevee".to_string()), None);
    assert!(forces_all_methods(&"darumaka".to_string()));
    assert!(!forces_all_methods(&"eevee".to_string()));
}

#[test]
fn details_render_every_condition_in_order() {
    let mut d = detail(named("trade", &[]));
    d.item = Some(named("metal-coat", &[]));
    d.gender = Some(1);
    d.known_move = Some(named("ancient-power", &[]));
    d.known_move_type = Some(named("fairy", &[]));
    d.location = Some(named("mt-coronet", &[]));
    d.min_level = Some(30);
    d.min_happiness = Some(160);
    d.min_beauty = Some(171);
    d.min_affection = Some(2);
    d.needs_overworld_rain = true;
    d.party_species = Some(named("remoraid", &[]));
    d.party_type = Some(named("dark", &[]));
    d.relative_physical_stats = Some(-1);
    d.time_of_day = "night".to_string();
    d.trade_species = Some(named("shelmet", &[]));
    d.turn_upside_down = true;
    assert_eq!(
        get_evolution_details(&d, "en", true),
        Some(
            "item: metal-coat, gender: 1, known_move: ancient-power, known_move_type: fairy, \
             location: mt-coronet, min_level: 30, min_happiness: 160, min_beauty: 171, \
             min_affection: 2, needs_overworld_rain, party_species: remoraid, party_type: dark, \
             relative_physical_stats: -1, time_of_day: night, trade_species: shelmet, turn_upside_down"
                .to_string()
        )
    );
    assert_eq!(get_evolution_details(&detail(named("trade", &[])), "en", true), None);
    assert_eq!(method_text(&detail(named("trade", &[("en", "Trade")])), "en", false), "Trade");
}

#[test]
fn evolution_names_fall_back_to_slugs() {
    let n = named("eevee", &[("fr", "Évoli")]);
    assert_eq!(get_evolution_name(&n, "en", false), "eevee");
    assert_eq!(get_evolution_name(&n, "fr", false), "Évoli");
    assert_eq!(get_evolution_name(&n, "fr", true), "eevee");
}

#[test]
fn species_path_drops_method_tokens() {
    let line: Vec<String> = ["a", "m", "b", "n", "c"].iter().map(|s| s.to_string()).collect();
    assert_eq!(path_of(&line), vec!["a", "b", "c"]);
    let short: Vec<String> = ["a"].iter().map(|s| s.to_string()).collect();
    assert_eq!(path_of(&short), vec!["a"]);
}

#[test]
fn fast_mode_matches_chain_named_by_slug() {
    let slugged = |s: &str| named(s, &[("en", s)]);
    let chain = || {
        let mut d = detail(slugged("use-item"));
        d.item = Some(slugged("water-stone"));
        node(slugged("eevee"), vec![], vec![node(slugged("vaporeon"), vec![d], vec![])])
    };
    let fast = print_evolutions(&slugged("eevee"), &Some(chain()), "en", true, false, false);
    let slow = print_evolutions(&slugged("eevee"), &Some(chain()), "en", false, false, false);
    assert_eq!(fast, slow);
    assert_eq!(fast, vec!["eevee -> use-item (item: water-stone) -> vaporeon"]);
}

#[test]
fn secrecy_keeps_the_lines_of_the_plain_output() {
    let chain = || {
        node(
            named("a", &[("en", "A")]),
            vec![],
            vec![
                node(named("b1", &[("en", "Same")]), vec![detail(named("level-up", &[]))], vec![]),
                node(named("b2", &[("en", "Same")]), vec![detail(named("level-up", &[]))], vec![]),
            ],
        )
    };
    let plain = print_evolutions(&named("a", &[]), &Some(chain()), "en", false, false, false);
    assert_eq!(plain, vec!["A -> level-up -> Same"]);
    let hidden = print_evolutions(&named("a", &[]), &Some(chain()), "en", false, true, false);
    assert_eq!(hidden, vec!["MON -> level-up -> MON"]);
}
