//! The blocks of text of the lookups other than evolutions and matchups.
//!
//! Each lookup takes the records its caller fetched, as plain values, and
//! lays them out; names are shown in the requested language, or as slugs in
//! fast mode.

use vstd::prelude::*;
use crate::enums::{Version, VersionGroup};
use crate::evolution::EvolutionNode;
use crate::names::{
    Named, PokemonNames, shown, shown_all, pokemon_shown, display_name, display_names,
    pokemon_display_name, named_as_slug, pokemon_named_as_slug, all_named_as_slugs,
    lemma_shown_all_fast,
};
use crate::text::{
    views, joined, decimal, digits, pad_left_spec, concat, concat3, join, signed_text,
    unsigned_text, pad_left, lemma_views_push,
};

verus! {

/// One way a move is learned: the learn method's slug, the version group's
/// slug, and the level.
pub struct MoveLearn {
    pub method: String,
    pub version_group: String,
    pub level: i64,
}

/// A move a creature can learn, with each way it learns it.
pub struct MoveEntry {
    pub move_: Named,
    pub version_details: Vec<MoveLearn>,
}

/// A move learned by levelling up: its shown name and level.
pub struct LearnedMove {
    pub name: String,
    pub level: i64,
}

/// One ability slot of a creature.
pub struct AbilitySlot {
    pub ability: Named,
    pub hidden: bool,
}

/// A creature and its abilities.
pub struct MonAbilities {
    pub pokemon: PokemonNames,
    pub abilities: Vec<AbilitySlot>,
}

/// A creature and its types.
pub struct MonTypes {
    pub pokemon: PokemonNames,
    pub types: Vec<Named>,
}

/// An area where a creature is found, and the slugs of the versions in which
/// it is found there.
pub struct Encounter {
    pub area: Named,
    pub versions: Vec<String>,
}

/// A creature and where it is found.
pub struct MonEncounters {
    pub pokemon: PokemonNames,
    pub encounters: Vec<Encounter>,
}

/// A block's heading: a name followed by `:`.
pub open spec fn heading(name: Seq<char>) -> Seq<char> {
    name + ":"@
}

/// A list entry: ` - ` and the text.
pub open spec fn dash_entry(s: Seq<char>) -> Seq<char> {
    " - "@ + s
}

// ---------------------------------------------------------------------------
// Moves

/// The name and level of a learned move.
pub open spec fn learned_views(v: Seq<LearnedMove>) -> Seq<(Seq<char>, i64)> {
    v.map_values(|m: LearnedMove| (m.name@, m.level))
}

/// Whether `d` teaches the move by level-up in `vgroup`, at or below `level`
/// when one is given.
pub open spec fn counts(d: MoveLearn, vgroup: Seq<char>, level: Option<i64>) -> bool {
    &&& d.method@ == "level-up"@
    &&& d.version_group@ == vgroup
    &&& match level {
        Some(x) => d.level <= x,
        None => true,
    }
}

/// The levels at which the move `name` is learned by the ways `ds`.
pub open spec fn learned_from(name: Seq<char>, ds: Seq<MoveLearn>, vgroup: Seq<char>, level: Option<i64>) -> Seq<
    (Seq<char>, i64),
>
    decreases ds.len(),
{
    if ds.len() == 0 {
        Seq::empty()
    } else {
        learned_from(name, ds.drop_last(), vgroup, level) + if counts(ds.last(), vgroup, level) {
            seq![(name, ds.last().level)]
        } else {
            Seq::empty()
        }
    }
}

/// The moves learned by level-up, in the order of the records.
pub open spec fn learnset(
    ms: Seq<MoveEntry>,
    vgroup: Seq<char>,
    level: Option<i64>,
    lang: Seq<char>,
    fast: bool,
) -> Seq<(Seq<char>, i64)>
    decreases ms.len(),
{
    if ms.len() == 0 {
        Seq::empty()
    } else {
        learnset(ms.drop_last(), vgroup, level, lang, fast) + learned_from(
            shown(ms.last().move_, lang, fast),
            ms.last().version_details@,
            vgroup,
            level,
        )
    }
}

/// `x` placed after the leading moves of level at least its own.
pub open spec fn insert_by_level(s: Seq<(Seq<char>, i64)>, x: (Seq<char>, i64)) -> Seq<
    (Seq<char>, i64),
>
    decreases s.len(),
{
    if s.len() == 0 {
        seq![x]
    } else if s[0].1 >= x.1 {
        seq![s[0]] + insert_by_level(s.drop_first(), x)
    } else {
        seq![x] + s
    }
}

/// The moves by descending level; moves of equal level keep their order.
pub open spec fn sorted_by_level(s: Seq<(Seq<char>, i64)>) -> Seq<(Seq<char>, i64)>
    decreases s.len(),
{
    if s.len() == 0 {
        s
    } else {
        insert_by_level(sorted_by_level(s.drop_last()), s.last())
    }
}

/// The moves shown: by descending level, only the four latest when a level
/// is given, then in ascending order.
pub open spec fn moveset(
    ms: Seq<MoveEntry>,
    vgroup: Seq<char>,
    level: Option<i64>,
    lang: Seq<char>,
    fast: bool,
) -> Seq<(Seq<char>, i64)> {
    let sorted = sorted_by_level(learnset(ms, vgroup, level, lang, fast));
    let kept = if level is Some && sorted.len() > 4 {
        sorted.take(4)
    } else {
        sorted
    };
    kept.reverse()
}

/// A move's line: its name and level.
pub open spec fn move_line(m: (Seq<char>, i64)) -> Seq<char> {
    dash_entry(m.0 + " ("@ + decimal(m.1 as int) + ")"@)
}

/// The block for a creature's level-up moves.
pub open spec fn moves_text(
    pokemon: PokemonNames,
    ms: Seq<MoveEntry>,
    vgroup: VersionGroup,
    level: Option<i64>,
    lang: Seq<char>,
    fast: bool,
) -> Seq<Seq<char>> {
    seq![heading(pokemon_shown(pokemon, lang, fast))] + moveset(
        ms,
        vgroup.spec_name(),
        level,
        lang,
        fast,
    ).map_values(|m: (Seq<char>, i64)| move_line(m))
}

fn level_up(d: &MoveLearn, vgroup: &String, level: Option<i64>) -> (r: bool)
    ensures
        r == counts(*d, vgroup@, level),
{
    let method = String::from_str("level-up");
    d.method == method && d.version_group == *vgroup && match level {
        Some(x) => d.level <= x,
        None => true,
    }
}

fn push_learned(out: &mut Vec<LearnedMove>, m: LearnedMove)
    ensures
        learned_views(final(out)@) == learned_views(old(out)@).push((m.name@, m.level)),
{
    let ghost v = m;
    out.push(m);
    assert(learned_views(final(out)@) =~= learned_views(old(out)@).push((v.name@, v.level)));
}

/// The moves learned by level-up in `vgroup`, at or below `level` if given,
/// in the order of the records.
pub fn learned_moves(
    moves: &Vec<MoveEntry>,
    vgroup: &String,
    level: Option<i64>,
    lang: &str,
    fast: bool,
) -> (r: Vec<LearnedMove>)
    ensures
        learned_views(r@) == learnset(moves@, vgroup@, level, lang@, fast),
{
    let mut r: Vec<LearnedMove> = Vec::new();
    let mut i: usize = 0;
    while i < moves.len()
        invariant
            0 <= i <= moves.len(),
            learned_views(r@) == learnset(moves@.take(i as int), vgroup@, level, lang@, fast),
        decreases moves.len() - i,
    {
        assert(moves@.take(i + 1).drop_last() =~= moves@.take(i as int));
        let entry = &moves[i];
        let name = display_name(&entry.move_, lang, fast);
        let ghost before = learned_views(r@);
        let ds = &entry.version_details;
        let mut j: usize = 0;
        while j < ds.len()
            invariant
                0 <= j <= ds.len(),
                ds == moves@[i as int].version_details,
                name@ == shown(moves@[i as int].move_, lang@, fast),
                learned_views(r@) == before + learned_from(name@, ds@.take(j as int), vgroup@, level),
            decreases ds.len() - j,
        {
            assert(ds@.take(j + 1).drop_last() =~= ds@.take(j as int));
            if level_up(&ds[j], vgroup, level) {
                push_learned(&mut r, LearnedMove { name: name.clone(), level: ds[j].level });
                assert(learned_views(r@) =~= before + learned_from(
                    name@,
                    ds@.take(j + 1),
                    vgroup@,
                    level,
                ));
            } else {
                assert(learned_views(r@) =~= before + learned_from(
                    name@,
                    ds@.take(j + 1),
                    vgroup@,
                    level,
                ));
            }
            j = j + 1;
        }
        assert(ds@.take(ds.len() as int) =~= ds@);
        i = i + 1;
    }
    assert(moves@.take(moves.len() as int) =~= moves@);
    r
}

proof fn lemma_insert_at(s: Seq<(Seq<char>, i64)>, x: (Seq<char>, i64), k: int)
    requires
        0 <= k <= s.len(),
        forall|i: int| 0 <= i < k ==> s[i].1 >= x.1,
        k == s.len() || s[k].1 < x.1,
    ensures
        insert_by_level(s, x) == s.insert(k, x),
    decreases s.len(),
{
    if s.len() == 0 {
        assert(s.insert(0, x) =~= seq![x]);
    } else if k == 0 {
        assert(seq![x] + s =~= s.insert(0, x));
    } else {
        let rest = s.drop_first();
        assert forall|i: int| 0 <= i < k - 1 implies rest[i].1 >= x.1 by {
            assert(rest[i] == s[i + 1]);
        }
        if k - 1 < rest.len() {
            assert(rest[k - 1] == s[k]);
        }
        lemma_insert_at(rest, x, k - 1);
        assert(seq![s[0]] + rest.insert(k - 1, x) =~= s.insert(k, x));
    }
}

/// Sorts moves by descending level; moves of equal level keep their order.
pub fn sort_by_level(moves: &Vec<LearnedMove>) -> (r: Vec<LearnedMove>)
    ensures
        learned_views(r@) == sorted_by_level(learned_views(moves@)),
{
    let ghost all = learned_views(moves@);
    let mut sorted: Vec<LearnedMove> = Vec::new();
    let mut i: usize = 0;
    assert(all.take(0) =~= Seq::<(Seq<char>, i64)>::empty());
    assert(learned_views(sorted@) =~= Seq::<(Seq<char>, i64)>::empty());
    while i < moves.len()
        invariant
            0 <= i <= moves.len(),
            all == learned_views(moves@),
            learned_views(sorted@) == sorted_by_level(all.take(i as int)),
        decreases moves.len() - i,
    {
        let m = LearnedMove { name: moves[i].name.clone(), level: moves[i].level };
        let ghost x = (m.name@, m.level);
        assert(x == all[i as int]);
        let ghost sv = learned_views(sorted@);
        let mut k: usize = 0;
        while k < sorted.len() && sorted[k].level >= m.level
            invariant
                0 <= k <= sorted.len(),
                sv == learned_views(sorted@),
                forall|j: int| 0 <= j < k ==> sv[j].1 >= x.1,
                x == (m.name@, m.level),
            decreases sorted.len() - k,
        {
            k = k + 1;
        }
        proof {
            lemma_insert_at(sv, x, k as int);
            assert(all.take(i + 1).drop_last() =~= all.take(i as int));
            assert(all.take(i + 1).last() == x);
        }
        sorted.insert(k, m);
        assert(learned_views(sorted@) =~= sv.insert(k as int, x));
        i = i + 1;
    }
    assert(all.take(moves.len() as int) =~= all);
    sorted
}

/// The lines of a creature's level-up moves in `vgroup`: by ascending level,
/// and only the four latest at or below `level` when it is given. Moves of
/// equal level are listed in the reverse of their record order.
pub fn print_moves(
    pokemon: &PokemonNames,
    moves: &Vec<MoveEntry>,
    vgroup: VersionGroup,
    level: Option<i64>,
    lang: &str,
    fast: bool,
) -> (r: Vec<String>)
    ensures
        views(r@) == moves_text(*pokemon, moves@, vgroup, level, lang@, fast),
{
    let group = String::from_str(vgroup.name());
    let learned = learned_moves(moves, &group, level, lang, fast);
    let mut sorted = sort_by_level(&learned);
    let ghost sv = learned_views(sorted@);
    if level.is_some() && sorted.len() > 4 {
        sorted.truncate(4);
        assert(learned_views(sorted@) =~= sv.take(4));
    }
    let ghost kept = learned_views(sorted@);
    let mut out: Vec<String> = Vec::new();
    let name = pokemon_display_name(pokemon, lang, fast);
    let head = concat(name.as_str(), ":");
    proof {
        lemma_views_push(out@, head);
    }
    out.push(head);
    let ghost lines = kept.reverse().map_values(|m: (Seq<char>, i64)| move_line(m));
    let mut i: usize = sorted.len();
    while i > 0
        invariant
            0 <= i <= sorted.len(),
            kept == learned_views(sorted@),
            lines == kept.reverse().map_values(|m: (Seq<char>, i64)| move_line(m)),
            views(out@) =~= seq![heading(pokemon_shown(*pokemon, lang@, fast))] + lines.take(
                (sorted.len() - i) as int,
            ),
        decreases i,
    {
        i = i - 1;
        let m = &sorted[i];
        let lvl = signed_text(m.level);
        let mut line = concat3(" - ", m.name.as_str(), " (");
        line.append(lvl.as_str());
        line.append(")");
        assert(line@ =~= lines[(sorted.len() - 1 - i) as int]);
        proof {
            lemma_views_push(out@, line);
        }
        out.push(line);
        assert(lines.take((sorted.len() - i) as int) =~= lines.take(
            (sorted.len() - 1 - i) as int,
        ).push(line@));
    }
    assert(lines.take(sorted.len() as int) =~= lines);
    out
}

// ---------------------------------------------------------------------------
// Varieties, egg groups and gender ratio of a species

/// The block listing a species' varieties by slug.
pub open spec fn varieties_text(species: Named, varieties: Seq<String>, lang: Seq<char>, fast: bool) -> Seq<
    Seq<char>,
> {
    seq![heading(shown(species, lang, fast))] + views(varieties).map_values(
        |v: Seq<char>| dash_entry(v),
    )
}

/// The block listing a species' egg groups.
pub open spec fn eggs_text(species: Named, groups: Seq<Named>, lang: Seq<char>, fast: bool) -> Seq<
    Seq<char>,
> {
    seq![heading(shown(species, lang, fast))] + shown_all(groups, lang, fast).map_values(
        |g: Seq<char>| dash_entry(g),
    )
}

/// A number of tenths with one decimal: `12.5` for 125.
pub open spec fn tenths(t: int) -> Seq<char> {
    let a = if t < 0 {
        -t
    } else {
        t
    };
    (if t < 0 {
        "-"@
    } else {
        Seq::empty()
    }) + digits((a / 10) as nat) + "."@ + digits((a % 10) as nat)
}

/// A percentage right-aligned in five columns with one decimal, from tenths.
pub open spec fn percent(t: int) -> Seq<char> {
    pad_left_spec(tenths(t), 5) + "%"@
}

/// The block of a species' gender ratio, from its female share in eighths:
/// a negative share means the species has no gender.
pub open spec fn genders_text(species: Named, gender_rate: i64, lang: Seq<char>, fast: bool) -> Seq<
    Seq<char>,
> {
    seq![heading(shown(species, lang, fast))] + if gender_rate < 0 {
        seq![" Genderless"@]
    } else {
        seq![
            " M: "@ + percent(1000 - 125 * gender_rate),
            " F: "@ + percent(125 * gender_rate),
        ]
    }
}

fn push_dashed(out: &mut Vec<String>, items: &Vec<String>)
    ensures
        views(final(out)@) == views(old(out)@) + views(items@).map_values(
            |v: Seq<char>| dash_entry(v),
        ),
{
    let ghost start = views(out@);
    let ghost lines = views(items@).map_values(|v: Seq<char>| dash_entry(v));
    let mut i: usize = 0;
    while i < items.len()
        invariant
            0 <= i <= items.len(),
            lines == views(items@).map_values(|v: Seq<char>| dash_entry(v)),
            views(out@) =~= start + lines.take(i as int),
        decreases items.len() - i,
    {
        let line = concat(" - ", items[i].as_str());
        proof {
            lemma_views_push(out@, line);
        }
        out.push(line);
        assert(lines.take(i + 1) =~= lines.take(i as int).push(line@));
        i = i + 1;
    }
    assert(lines.take(items.len() as int) =~= lines);
}

fn headed(name: &String) -> (r: Vec<String>)
    ensures
        views(r@) == seq![heading(name@)],
{
    let mut out: Vec<String> = Vec::new();
    let head = concat(name.as_str(), ":");
    proof {
        lemma_views_push(out@, head);
    }
    out.push(head);
    assert(views(out@) =~= seq![heading(name@)]);
    out
}

/// The lines listing a species' varieties by slug.
pub fn print_varieties(species: &Named, varieties: &Vec<String>, lang: &str, fast: bool) -> (r: Vec<
    String,
>)
    ensures
        views(r@) == varieties_text(*species, varieties@, lang@, fast),
{
    let name = display_name(species, lang, fast);
    let mut out = headed(&name);
    push_dashed(&mut out, varieties);
    out
}

/// The lines listing a species' egg groups.
pub fn print_eggs(species: &Named, groups: &Vec<Named>, lang: &str, fast: bool) -> (r: Vec<String>)
    ensures
        views(r@) == eggs_text(*species, groups@, lang@, fast),
{
    let name = display_name(species, lang, fast);
    let mut out = headed(&name);
    let names = display_names(groups, lang, fast);
    push_dashed(&mut out, &names);
    out
}

fn tenths_text(t: i128) -> (r: String)
    requires
        -1_000_000_000_000_000_000_000_000 <= t <= 1_000_000_000_000_000_000_000_000,
    ensures
        r@ == tenths(t as int),
{
    let a: u128 = if t < 0 {
        (0 - t) as u128
    } else {
        t as u128
    };
    let mut r = if t < 0 {
        String::from_str("-")
    } else {
        String::new()
    };
    let whole = unsigned_text(a / 10);
    let part = unsigned_text(a % 10);
    r.append(whole.as_str());
    r.append(".");
    r.append(part.as_str());
    r
}

fn percent_text(t: i128) -> (r: String)
    requires
        -1_000_000_000_000_000_000_000_000 <= t <= 1_000_000_000_000_000_000_000_000,
    ensures
        r@ == percent(t as int),
{
    let s = tenths_text(t);
    let mut r = pad_left(s.as_str(), 5);
    r.append("%");
    r
}

/// The lines of a species' gender ratio, from its female share in eighths
/// (`gender_rate`): the male and female percentages, or `Genderless` when
/// the share is negative.
pub fn print_genders(species: &Named, gender_rate: i64, lang: &str, fast: bool) -> (r: Vec<String>)
    ensures
        views(r@) == genders_text(*species, gender_rate, lang@, fast),
{
    let name = display_name(species, lang, fast);
    let mut out = headed(&name);
    let ghost start = views(out@);
    if gender_rate < 0 {
        let line = String::from_str(" Genderless");
        proof {
            lemma_views_push(out@, line);
        }
        out.push(line);
    } else {
        let female: i128 = 125 * (gender_rate as i128);
        let m = percent_text(1000 - female);
        let f = percent_text(female);
        let ml = concat(" M: ", m.as_str());
        let fl = concat(" F: ", f.as_str());
        proof {
            lemma_views_push(out@, ml);
        }
        out.push(ml);
        proof {
            lemma_views_push(out@, fl);
        }
        out.push(fl);
    }
    assert(views(out@) =~= genders_text(*species, gender_rate, lang@, fast));
    out
}

// ---------------------------------------------------------------------------
// Types, abilities and encounters of one or more creatures

/// The block of one creature's types, joined by `/`.
pub open spec fn mon_types_text(m: MonTypes, lang: Seq<char>, fast: bool) -> Seq<Seq<char>> {
    seq![
        heading(pokemon_shown(m.pokemon, lang, fast)),
        "  "@ + joined(shown_all(m.types@, lang, fast), "/"@),
    ]
}

/// The blocks of several creatures' types, in order.
pub open spec fn types_text(mons: Seq<MonTypes>, lang: Seq<char>, fast: bool) -> Seq<Seq<char>>
    decreases mons.len(),
{
    if mons.len() == 0 {
        Seq::empty()
    } else {
        types_text(mons.drop_last(), lang, fast) + mon_types_text(mons.last(), lang, fast)
    }
}

/// The marker after a hidden ability's name.
pub open spec fn hidden_mark(hidden: bool, fast: bool) -> Seq<char> {
    if !hidden {
        Seq::empty()
    } else if fast {
        " (hidden)"@
    } else {
        " (Hidden)"@
    }
}

/// An ability's line: its number, counted from one, its name and marker.
pub open spec fn ability_line(i: int, a: AbilitySlot, lang: Seq<char>, fast: bool) -> Seq<char> {
    " "@ + digits((i + 1) as nat) + ". "@ + shown(a.ability, lang, fast) + hidden_mark(a.hidden, fast)
}

/// The block of one creature's abilities.
pub open spec fn mon_abilities_text(m: MonAbilities, lang: Seq<char>, fast: bool) -> Seq<Seq<char>> {
    seq![heading(pokemon_shown(m.pokemon, lang, fast))] + Seq::new(
        m.abilities@.len(),
        |i: int| ability_line(i, m.abilities@[i], lang, fast),
    )
}

/// The blocks of several creatures' abilities, in order.
pub open spec fn abilities_text(mons: Seq<MonAbilities>, lang: Seq<char>, fast: bool) -> Seq<Seq<char>>
    decreases mons.len(),
{
    if mons.len() == 0 {
        Seq::empty()
    } else {
        abilities_text(mons.drop_last(), lang, fast) + mon_abilities_text(mons.last(), lang, fast)
    }
}

/// Whether an area lists the version named `version`.
pub open spec fn found_in(e: Encounter, version: Seq<char>) -> bool {
    exists|k: int| 0 <= k < e.versions@.len() && (#[trigger] e.versions@[k])@ == version
}

/// The shown names of the areas, among `es`, where the creature is found in
/// `version`.
pub open spec fn areas_in(es: Seq<Encounter>, version: Seq<char>, lang: Seq<char>, fast: bool) -> Seq<
    Seq<char>,
>
    decreases es.len(),
{
    if es.len() == 0 {
        Seq::empty()
    } else {
        areas_in(es.drop_last(), version, lang, fast) + if found_in(es.last(), version) {
            seq![shown(es.last().area, lang, fast)]
        } else {
            Seq::empty()
        }
    }
}

/// The block of one creature's areas in `version`; nothing when there is none.
pub open spec fn mon_encounters_text(m: MonEncounters, version: Seq<char>, lang: Seq<char>, fast: bool) -> Seq<
    Seq<char>,
> {
    let areas = areas_in(m.encounters@, version, lang, fast);
    if areas.len() == 0 {
        Seq::empty()
    } else {
        seq![heading(pokemon_shown(m.pokemon, lang, fast))] + areas.map_values(
            |a: Seq<char>| dash_entry(a),
        )
    }
}

/// The blocks of several creatures' areas, in order.
pub open spec fn encounters_text(mons: Seq<MonEncounters>, version: Seq<char>, lang: Seq<char>, fast: bool) -> Seq<
    Seq<char>,
>
    decreases mons.len(),
{
    if mons.len() == 0 {
        Seq::empty()
    } else {
        encounters_text(mons.drop_last(), version, lang, fast) + mon_encounters_text(
            mons.last(),
            version,
            lang,
            fast,
        )
    }
}

fn push_all(out: &mut Vec<String>, more: Vec<String>)
    ensures
        views(final(out)@) == views(old(out)@) + views(more@),
{
    let ghost start = views(out@);
    let mut i: usize = 0;
    while i < more.len()
        invariant
            0 <= i <= more.len(),
            views(out@) =~= start + views(more@).take(i as int),
        decreases more.len() - i,
    {
        let line = more[i].clone();
        proof {
            lemma_views_push(out@, line);
        }
        out.push(line);
        assert(views(more@).take(i + 1) =~= views(more@).take(i as int).push(line@));
        i = i + 1;
    }
    assert(views(more@).take(more.len() as int) =~= views(more@));
}

fn mon_types_lines(m: &MonTypes, lang: &str, fast: bool) -> (r: Vec<String>)
    ensures
        views(r@) == mon_types_text(*m, lang@, fast),
{
    let name = pokemon_display_name(&m.pokemon, lang, fast);
    let mut out = headed(&name);
    let names = display_names(&m.types, lang, fast);
    let joined_names = join(&names, "/");
    let line = concat("  ", joined_names.as_str());
    proof {
        lemma_views_push(out@, line);
    }
    out.push(line);
    assert(views(out@) =~= mon_types_text(*m, lang@, fast));
    out
}

/// The lines of each creature's types, joined by `/`.
pub fn print_types(mons: &Vec<MonTypes>, lang: &str, fast: bool) -> (r: Vec<String>)
    ensures
        views(r@) == types_text(mons@, lang@, fast),
{
    let mut out: Vec<String> = Vec::new();
    let mut i: usize = 0;
    while i < mons.len()
        invariant
            0 <= i <= mons.len(),
            views(out@) == types_text(mons@.take(i as int), lang@, fast),
        decreases mons.len() - i,
    {
        assert(mons@.take(i + 1).drop_last() =~= mons@.take(i as int));
        let block = mon_types_lines(&mons[i], lang, fast);
        push_all(&mut out, block);
        i = i + 1;
    }
    assert(mons@.take(mons.len() as int) =~= mons@);
    out
}

fn mon_abilities_lines(m: &MonAbilities, lang: &str, fast: bool) -> (r: Vec<String>)
    ensures
        views(r@) == mon_abilities_text(*m, lang@, fast),
{
    let name = pokemon_display_name(&m.pokemon, lang, fast);
    let mut out = headed(&name);
    let ghost start = views(out@);
    let ghost lines = Seq::new(
        m.abilities@.len(),
        |i: int| ability_line(i, m.abilities@[i], lang@, fast),
    );
    let mut i: usize = 0;
    while i < m.abilities.len()
        invariant
            0 <= i <= m.abilities.len(),
            lines == Seq::new(
                m.abilities@.len(),
                |i: int| ability_line(i, m.abilities@[i], lang@, fast),
            ),
            views(out@) =~= start + lines.take(i as int),
        decreases m.abilities.len() - i,
    {
        let slot = &m.abilities[i];
        let number = unsigned_text((i + 1) as u128);
        let ability = display_name(&slot.ability, lang, fast);
        let mut line = concat3(" ", number.as_str(), ". ");
        line.append(ability.as_str());
        if slot.hidden {
            if fast {
                line.append(" (hidden)");
            } else {
                line.append(" (Hidden)");
            }
        }
        assert(line@ =~= lines[i as int]);
        proof {
            lemma_views_push(out@, line);
        }
        out.push(line);
        assert(lines.take(i + 1) =~= lines.take(i as int).push(lines[i as int]));
        i = i + 1;
    }
    assert(lines.take(m.abilities.len() as int) =~= lines);
    out
}

/// The lines of each creature's abilities, numbered from one, hidden ones
/// marked.
pub fn print_abilities(mons: &Vec<MonAbilities>, lang: &str, fast: bool) -> (r: Vec<String>)
    ensures
        views(r@) == abilities_text(mons@, lang@, fast),
{
    let mut out: Vec<String> = Vec::new();
    let mut i: usize = 0;
    while i < mons.len()
        invariant
            0 <= i <= mons.len(),
            views(out@) == abilities_text(mons@.take(i as int), lang@, fast),
        decreases mons.len() - i,
    {
        assert(mons@.take(i + 1).drop_last() =~= mons@.take(i as int));
        let block = mon_abilities_lines(&mons[i], lang, fast);
        push_all(&mut out, block);
        i = i + 1;
    }
    assert(mons@.take(mons.len() as int) =~= mons@);
    out
}

fn listed_in(e: &Encounter, version: &String) -> (r: bool)
    ensures
        r == found_in(*e, version@),
{
    let mut k: usize = 0;
    while k < e.versions.len()
        invariant
            0 <= k <= e.versions.len(),
            forall|j: int| 0 <= j < k ==> (#[trigger] e.versions@[j])@ != version@,
        decreases e.versions.len() - k,
    {
        if e.versions[k] == *version {
            return true;
        }
        k = k + 1;
    }
    false
}

fn mon_encounter_lines(m: &MonEncounters, version: &String, lang: &str, fast: bool) -> (r: Vec<String>)
    ensures
        views(r@) == mon_encounters_text(*m, version@, lang@, fast),
{
    let mut areas: Vec<String> = Vec::new();
    let mut i: usize = 0;
    while i < m.encounters.len()
        invariant
            0 <= i <= m.encounters.len(),
            views(areas@) == areas_in(m.encounters@.take(i as int), version@, lang@, fast),
        decreases m.encounters.len() - i,
    {
        assert(m.encounters@.take(i + 1).drop_last() =~= m.encounters@.take(i as int));
        let e = &m.encounters[i];
        if listed_in(e, version) {
            let name = display_name(&e.area, lang, fast);
            proof {
                lemma_views_push(areas@, name);
            }
            areas.push(name);
        }
        i = i + 1;
    }
    assert(m.encounters@.take(m.encounters.len() as int) =~= m.encounters@);
    if areas.len() == 0 {
        let out: Vec<String> = Vec::new();
        assert(views(out@) =~= Seq::<Seq<char>>::empty());
        return out;
    }
    let name = pokemon_display_name(&m.pokemon, lang, fast);
    let mut out = headed(&name);
    push_dashed(&mut out, &areas);
    out
}

/// The lines of the areas where each creature is found in `version`; a
/// creature found nowhere in it gets no lines.
pub fn print_encounters(mons: &Vec<MonEncounters>, version: Version, lang: &str, fast: bool) -> (r: Vec<
    String,
>)
    ensures
        views(r@) == encounters_text(mons@, version.spec_name(), lang@, fast),
{
    let v = String::from_str(version.name());
    let mut out: Vec<String> = Vec::new();
    let mut i: usize = 0;
    while i < mons.len()
        invariant
            0 <= i <= mons.len(),
            v@ == version.spec_name(),
            views(out@) == encounters_text(mons@.take(i as int), v@, lang@, fast),
        decreases mons.len() - i,
    {
        assert(mons@.take(i + 1).drop_last() =~= mons@.take(i as int));
        let block = mon_encounter_lines(&mons[i], &v, lang, fast);
        push_all(&mut out, block);
        i = i + 1;
    }
    assert(mons@.take(mons.len() as int) =~= mons@);
    out
}

// ---------------------------------------------------------------------------
// The members of an evolution family

/// The slugs of a stage-two species and of what it evolves into.
pub open spec fn branch_members(c: EvolutionNode) -> Seq<Seq<char>> {
    seq![c.species.slug@] + c.evolves_to@.map_values(|g: EvolutionNode| g.species.slug@)
}

/// The slugs of the branches `cs`, in order.
pub open spec fn branches_members(cs: Seq<EvolutionNode>) -> Seq<Seq<char>>
    decreases cs.len(),
{
    if cs.len() == 0 {
        Seq::empty()
    } else {
        branches_members(cs.drop_last()) + branch_members(cs.last())
    }
}

/// The slugs of the first three stages of a family: the base species, then
/// each second stage followed by its own evolutions.
pub open spec fn family_members(root: EvolutionNode) -> Seq<Seq<char>> {
    seq![root.species.slug@] + branches_members(root.evolves_to@)
}

/// The species slugs of the first three stages of an evolution family, in
/// the order their creatures are looked up.
pub fn chain_members(root: &EvolutionNode) -> (r: Vec<String>)
    ensures
        views(r@) == family_members(*root),
{
    let mut out: Vec<String> = Vec::new();
    let first = root.species.slug.clone();
    proof {
        lemma_views_push(out@, first);
    }
    out.push(first);
    let mut i: usize = 0;
    assert(views(out@) =~= seq![root.species.slug@] + branches_members(root.evolves_to@.take(0)));
    while i < root.evolves_to.len()
        invariant
            0 <= i <= root.evolves_to.len(),
            views(out@) == seq![root.species.slug@] + branches_members(root.evolves_to@.take(i as int)),
        decreases root.evolves_to.len() - i,
    {
        assert(root.evolves_to@.take(i + 1).drop_last() =~= root.evolves_to@.take(i as int));
        let c = &root.evolves_to[i];
        let ghost before = views(out@);
        let s = c.species.slug.clone();
        proof {
            lemma_views_push(out@, s);
        }
        out.push(s);
        let mut j: usize = 0;
        while j < c.evolves_to.len()
            invariant
                0 <= j <= c.evolves_to.len(),
                views(out@) =~= before + seq![c.species.slug@] + c.evolves_to@.take(
                    j as int,
                ).map_values(|g: EvolutionNode| g.species.slug@),
            decreases c.evolves_to.len() - j,
        {
            let g = c.evolves_to[j].species.slug.clone();
            proof {
                lemma_views_push(out@, g);
            }
            out.push(g);
            assert(c.evolves_to@.take(j + 1).map_values(|g: EvolutionNode| g.species.slug@)
                =~= c.evolves_to@.take(j as int).map_values(|g: EvolutionNode| g.species.slug@).push(
                g@,
            ));
            j = j + 1;
        }
        assert(c.evolves_to@.take(c.evolves_to.len() as int) =~= c.evolves_to@);
        assert(views(out@) =~= before + branch_members(*c));
        i = i + 1;
    }
    assert(root.evolves_to@.take(root.evolves_to.len() as int) =~= root.evolves_to@);
    out
}

// ---------------------------------------------------------------------------
// Fast mode

/// Fast mode only swaps display names for slugs: where the creatures and
/// their types show their slugs as display names, fast and localized type
/// listings agree.
pub proof fn lemma_types_fast_is_slugs(mons: Seq<MonTypes>, lang: Seq<char>)
    requires
        forall|i: int|
            0 <= i < mons.len() ==> pokemon_named_as_slug(#[trigger] mons[i].pokemon, lang)
                && all_named_as_slugs(mons[i].types@, lang),
    ensures
        types_text(mons, lang, true) == types_text(mons, lang, false),
    decreases mons.len(),
{
    if mons.len() > 0 {
        let rest = mons.drop_last();
        assert forall|i: int| 0 <= i < rest.len() implies pokemon_named_as_slug(
            #[trigger] rest[i].pokemon,
            lang,
        ) && all_named_as_slugs(rest[i].types@, lang) by {
            assert(rest[i] == mons[i]);
        }
        lemma_types_fast_is_slugs(rest, lang);
        let m = mons.last();
        assert(pokemon_named_as_slug(m.pokemon, lang) && all_named_as_slugs(m.types@, lang)) by {
            assert(mons[mons.len() - 1] == m);
        }
        lemma_shown_all_fast(m.types@, lang);
    }
}

/// Fast mode only swaps display names for slugs, for a species' varieties.
pub proof fn lemma_varieties_fast_is_slugs(species: Named, varieties: Seq<String>, lang: Seq<char>)
    requires
        named_as_slug(species, lang),
    ensures
        varieties_text(species, varieties, lang, true) == varieties_text(species, varieties, lang, false),
{
}

/// Fast mode only swaps display names for slugs, for a species' egg groups.
pub proof fn lemma_eggs_fast_is_slugs(species: Named, groups: Seq<Named>, lang: Seq<char>)
    requires
        named_as_slug(species, lang),
        all_named_as_slugs(groups, lang),
    ensures
        eggs_text(species, groups, lang, true) == eggs_text(species, groups, lang, false),
{
    lemma_shown_all_fast(groups, lang);
}

/// Fast mode only swaps display names for slugs, for a species' gender ratio.
pub proof fn lemma_genders_fast_is_slugs(species: Named, gender_rate: i64, lang: Seq<char>)
    requires
        named_as_slug(species, lang),
    ensures
        genders_text(species, gender_rate, lang, true) == genders_text(species, gender_rate, lang, false),
{
}

proof fn lemma_learned_fast(ms: Seq<MoveEntry>, vgroup: Seq<char>, level: Option<i64>, lang: Seq<char>)
    requires
        forall|i: int| 0 <= i < ms.len() ==> named_as_slug(#[trigger] ms[i].move_, lang),
    ensures
        learnset(ms, vgroup, level, lang, true) == learnset(ms, vgroup, level, lang, false),
    decreases ms.len(),
{
    if ms.len() > 0 {
        let rest = ms.drop_last();
        assert forall|i: int| 0 <= i < rest.len() implies named_as_slug(#[trigger] rest[i].move_, lang) by {
            assert(rest[i] == ms[i]);
        }
        lemma_learned_fast(rest, vgroup, level, lang);
        assert(named_as_slug(ms[ms.len() - 1].move_, lang));
    }
}

/// Fast mode only swaps display names for slugs, for a creature's moves.
pub proof fn lemma_moves_fast_is_slugs(
    pokemon: PokemonNames,
    ms: Seq<MoveEntry>,
    vgroup: VersionGroup,
    level: Option<i64>,
    lang: Seq<char>,
)
    requires
        pokemon_named_as_slug(pokemon, lang),
        forall|i: int| 0 <= i < ms.len() ==> named_as_slug(#[trigger] ms[i].move_, lang),
    ensures
        moves_text(pokemon, ms, vgroup, level, lang, true) == moves_text(
            pokemon,
            ms,
            vgroup,
            level,
            lang,
            false,
        ),
{
    lemma_learned_fast(ms, vgroup.spec_name(), level, lang);
}

proof fn lemma_areas_fast(es: Seq<Encounter>, version: Seq<char>, lang: Seq<char>)
    requires
        forall|i: int| 0 <= i < es.len() ==> named_as_slug(#[trigger] es[i].area, lang),
    ensures
        areas_in(es, version, lang, true) == areas_in(es, version, lang, false),
    decreases es.len(),
{
    if es.len() > 0 {
        let rest = es.drop_last();
        assert forall|i: int| 0 <= i < rest.len() implies named_as_slug(#[trigger] rest[i].area, lang) by {
            assert(rest[i] == es[i]);
        }
        lemma_areas_fast(rest, version, lang);
        assert(named_as_slug(es[es.len() - 1].area, lang));
    }
}

/// Fast mode only swaps display names for slugs, for where creatures are
/// found.
pub proof fn lemma_encounters_fast_is_slugs(mons: Seq<MonEncounters>, version: Seq<char>, lang: Seq<char>)
    requires
        forall|i: int|
            0 <= i < mons.len() ==> pokemon_named_as_slug(#[trigger] mons[i].pokemon, lang) && forall|
                k: int,
            |
                0 <= k < mons[i].encounters@.len() ==> named_as_slug(
                    #[trigger] mons[i].encounters@[k].area,
                    lang,
                ),
    ensures
        encounters_text(mons, version, lang, true) == encounters_text(mons, version, lang, false),
    decreases mons.len(),
{
    if mons.len() > 0 {
        let rest = mons.drop_last();
        assert forall|i: int| 0 <= i < rest.len() implies pokemon_named_as_slug(
            #[trigger] rest[i].pokemon,
            lang,
        ) && forall|k: int|
            0 <= k < rest[i].encounters@.len() ==> named_as_slug(
                #[trigger] rest[i].encounters@[k].area,
                lang,
            ) by {
            assert(rest[i] == mons[i]);
        }
        lemma_encounters_fast_is_slugs(rest, version, lang);
        let m = mons[mons.len() - 1];
        assert(pokemon_named_as_slug(mons[mons.len() - 1].pokemon, lang));
        assert forall|k: int| 0 <= k < m.encounters@.len() implies named_as_slug(
            #[trigger] m.encounters@[k].area,
            lang,
        ) by {
            assert(named_as_slug(mons[mons.len() - 1].encounters@[k].area, lang));
        }
        lemma_areas_fast(m.encounters@, version, lang);
    }
}

/// Fast mode only swaps display names for slugs, for abilities none of
/// which is hidden (the hidden marker is spelt in lower case in fast mode).
pub proof fn lemma_abilities_fast_is_slugs(mons: Seq<MonAbilities>, lang: Seq<char>)
    requires
        forall|i: int|
            0 <= i < mons.len() ==> pokemon_named_as_slug(#[trigger] mons[i].pokemon, lang) && forall|
                k: int,
            |
                0 <= k < mons[i].abilities@.len() ==> named_as_slug(
                    #[trigger] mons[i].abilities@[k].ability,
                    lang,
                ) && !mons[i].abilities@[k].hidden,
    ensures
        abilities_text(mons, lang, true) == abilities_text(mons, lang, false),
    decreases mons.len(),
{
    if mons.len() > 0 {
        let rest = mons.drop_last();
        assert forall|i: int| 0 <= i < rest.len() implies pokemon_named_as_slug(
            #[trigger] rest[i].pokemon,
            lang,
        ) && forall|k: int|
            0 <= k < rest[i].abilities@.len() ==> named_as_slug(
                #[trigger] rest[i].abilities@[k].ability,
                lang,
            ) && !rest[i].abilities@[k].hidden by {
            assert(rest[i] == mons[i]);
        }
        lemma_abilities_fast_is_slugs(rest, lang);
        let m = mons[mons.len() - 1];
        assert(mon_abilities_text(m, lang, true) =~= mon_abilities_text(m, lang, false));
    }
}

/// `b` is the creature `a` with every display name replaced by its slug:
/// the same slugs, each of which is also its display name in `lang`.
pub open spec fn types_slugged(b: MonTypes, a: MonTypes, lang: Seq<char>) -> bool {
    &&& b.pokemon.slug@ == a.pokemon.slug@
    &&& pokemon_named_as_slug(b.pokemon, lang)
    &&& b.types@.len() == a.types@.len()
    &&& forall|i: int|
        0 <= i < b.types@.len() ==> (#[trigger] b.types@[i]).slug@ == a.types@[i].slug@
            && named_as_slug(b.types@[i], lang)
}

/// The fast listing of creatures' types is the localized listing of the same
/// creatures with every display name replaced by its slug.
pub proof fn lemma_types_fast_shows_slugs(a: Seq<MonTypes>, b: Seq<MonTypes>, lang: Seq<char>)
    requires
        a.len() == b.len(),
        forall|i: int| 0 <= i < a.len() ==> types_slugged(#[trigger] b[i], a[i], lang),
    ensures
        types_text(a, lang, true) == types_text(b, lang, false),
    decreases a.len(),
{
    if a.len() > 0 {
        let (ra, rb) = (a.drop_last(), b.drop_last());
        assert forall|i: int| 0 <= i < ra.len() implies types_slugged(#[trigger] rb[i], ra[i], lang) by {
            assert(rb[i] == b[i] && ra[i] == a[i]);
        }
        lemma_types_fast_shows_slugs(ra, rb, lang);
        let (x, y) = (a.last(), b.last());
        assert(types_slugged(b[b.len() - 1], a[a.len() - 1], lang));
        assert(shown_all(x.types@, lang, true) =~= shown_all(y.types@, lang, false)) by {
            assert forall|i: int| 0 <= i < x.types@.len() implies shown_all(x.types@, lang, true)[i]
                == shown_all(y.types@, lang, false)[i] by {
                assert(y.types@[i].slug@ == x.types@[i].slug@ && named_as_slug(y.types@[i], lang));
            }
        }
        assert(mon_types_text(x, lang, true) == mon_types_text(y, lang, false));
    }
}

/// Moves by non-increasing level.
pub open spec fn by_descending_level(s: Seq<(Seq<char>, i64)>) -> bool {
    forall|i: int, j: int| 0 <= i < j < s.len() ==> #[trigger] s[i].1 >= #[trigger] s[j].1
}

proof fn lemma_insert_by_level_at(s: Seq<(Seq<char>, i64)>, x: (Seq<char>, i64)) -> (k: int)
    ensures
        0 <= k <= s.len(),
        insert_by_level(s, x) == s.insert(k, x),
        forall|i: int| 0 <= i < k ==> s[i].1 >= x.1,
        k < s.len() ==> s[k].1 < x.1,
    decreases s.len(),
{
    if s.len() == 0 {
        assert(s.insert(0, x) =~= seq![x]);
        0
    } else if s[0].1 >= x.1 {
        let rest = s.drop_first();
        let k1 = lemma_insert_by_level_at(rest, x);
        assert(seq![s[0]] + rest.insert(k1, x) =~= s.insert(k1 + 1, x));
        assert forall|i: int| 0 <= i < k1 + 1 implies s[i].1 >= x.1 by {
            if i > 0 {
                assert(s[i] == rest[i - 1]);
            }
        }
        if k1 + 1 < s.len() {
            assert(s[k1 + 1] == rest[k1]);
        }
        k1 + 1
    } else {
        assert(seq![x] + s =~= s.insert(0, x));
        0
    }
}

/// Sorting by level orders the moves by non-increasing level and keeps
/// every move: the result is a permutation of its input.
pub proof fn lemma_sorted_by_level(s: Seq<(Seq<char>, i64)>)
    ensures
        by_descending_level(sorted_by_level(s)),
        sorted_by_level(s).to_multiset() == s.to_multiset(),
    decreases s.len(),
{
    broadcast use vstd::seq_lib::group_to_multiset_ensures;

    if s.len() > 0 {
        let pre = s.drop_last();
        let x = s.last();
        lemma_sorted_by_level(pre);
        let t = sorted_by_level(pre);
        let k = lemma_insert_by_level_at(t, x);
        let out = t.insert(k, x);
        assert forall|i: int, j: int| 0 <= i < j < out.len() implies #[trigger] out[i].1
            >= #[trigger] out[j].1 by {
            if j < k {
                assert(out[i] == t[i] && out[j] == t[j]);
            } else if j == k {
                assert(out[i] == t[i]);
            } else if i < k {
                assert(out[i] == t[i] && out[j] == t[j - 1]);
                assert(t[i].1 >= t[j - 1].1);
            } else if i == k {
                assert(out[j] == t[j - 1]);
                assert(t[k].1 >= t[j - 1].1);
            } else {
                assert(out[i] == t[i - 1] && out[j] == t[j - 1]);
            }
        }
        assert(pre.push(x) =~= s);
    }
}

proof fn lemma_learned_from_bounded(name: Seq<char>, ds: Seq<MoveLearn>, vgroup: Seq<char>, x: i64)
    ensures
        forall|i: int|
            0 <= i < learned_from(name, ds, vgroup, Some(x)).len() ==> (#[trigger] learned_from(
                name,
                ds,
                vgroup,
                Some(x),
            )[i]).1 <= x,
    decreases ds.len(),
{
    if ds.len() > 0 {
        lemma_learned_from_bounded(name, ds.drop_last(), vgroup, x);
        let a = learned_from(name, ds.drop_last(), vgroup, Some(x));
        let b: Seq<(Seq<char>, i64)> = if counts(ds.last(), vgroup, Some(x)) {
            seq![(name, ds.last().level)]
        } else {
            Seq::empty()
        };
        assert(learned_from(name, ds, vgroup, Some(x)) == a + b);
        assert forall|i: int| 0 <= i < (a + b).len() implies (#[trigger] (a + b)[i]).1 <= x by {
            if i >= a.len() {
                assert((a + b)[i] == b[i - a.len()]);
            } else {
                assert((a + b)[i] == a[i]);
            }
        }
    }
}

proof fn lemma_learnset_bounded(ms: Seq<MoveEntry>, vgroup: Seq<char>, x: i64, lang: Seq<char>, fast: bool)
    ensures
        forall|i: int|
            0 <= i < learnset(ms, vgroup, Some(x), lang, fast).len() ==> (#[trigger] learnset(
                ms,
                vgroup,
                Some(x),
                lang,
                fast,
            )[i]).1 <= x,
    decreases ms.len(),
{
    if ms.len() > 0 {
        lemma_learnset_bounded(ms.drop_last(), vgroup, x, lang, fast);
        lemma_learned_from_bounded(
            shown(ms.last().move_, lang, fast),
            ms.last().version_details@,
            vgroup,
            x,
        );
        let a = learnset(ms.drop_last(), vgroup, Some(x), lang, fast);
        let b = learned_from(shown(ms.last().move_, lang, fast), ms.last().version_details@, vgroup, Some(x));
        assert forall|i: int| 0 <= i < (a + b).len() implies (#[trigger] (a + b)[i]).1 <= x by {
            if i >= a.len() {
                assert((a + b)[i] == b[i - a.len()]);
            } else {
                assert((a + b)[i] == a[i]);
            }
        }
    }
}

/// The moves shown are the most recent ones: every learned move is at or
/// below the level given, the moves shown rise in level, and with a level
/// given they are the (at most) four of highest level, none of the left-out
/// moves being more recent than any shown one. The sorted moves are a
/// permutation of the learned ones.
pub proof fn lemma_moveset_latest(
    ms: Seq<MoveEntry>,
    vgroup: Seq<char>,
    level: Option<i64>,
    lang: Seq<char>,
    fast: bool,
)
    ensures
        ({
            let learned = learnset(ms, vgroup, level, lang, fast);
            let sorted = sorted_by_level(learned);
            let shown = moveset(ms, vgroup, level, lang, fast);
            &&& sorted.to_multiset() == learned.to_multiset()
            &&& level matches Some(x) ==> forall|i: int| 0 <= i < learned.len() ==> (#[trigger] learned[i]).1 <= x
            &&& forall|i: int, j: int| 0 <= i < j < shown.len() ==> #[trigger] shown[i].1 <= #[trigger] shown[j].1
            &&& level is Some ==> shown.len() == if learned.len() > 4 {
                4
            } else {
                learned.len()
            }
            &&& level is None ==> shown.len() == learned.len()
            &&& level is Some ==> forall|i: int, j: int|
                0 <= i < shown.len() && 4 <= j < sorted.len() ==> #[trigger] shown[i].1 >= #[trigger] sorted[j].1
        }),
{
    broadcast use vstd::seq_lib::group_to_multiset_ensures;

    let learned = learnset(ms, vgroup, level, lang, fast);
    lemma_sorted_by_level(learned);
    let sorted = sorted_by_level(learned);
    assert(sorted.len() == learned.len()) by {
        assert(sorted.to_multiset().len() == learned.to_multiset().len());
    }
    match level {
        Some(x) => {
            lemma_learnset_bounded(ms, vgroup, x, lang, fast);
        },
        None => {},
    }
    let kept = if level is Some && sorted.len() > 4 {
        sorted.take(4)
    } else {
        sorted
    };
    let shown = kept.reverse();
    assert(shown == moveset(ms, vgroup, level, lang, fast));
    assert forall|i: int, j: int| 0 <= i < j < shown.len() implies #[trigger] shown[i].1
        <= #[trigger] shown[j].1 by {
        assert(shown[i] == kept[kept.len() - 1 - i] && shown[j] == kept[kept.len() - 1 - j]);
        assert(kept[kept.len() - 1 - j] == sorted[kept.len() - 1 - j]);
        assert(kept[kept.len() - 1 - i] == sorted[kept.len() - 1 - i]);
    }
    if level is Some {
        assert forall|i: int, j: int| 0 <= i < shown.len() && 4 <= j < sorted.len() implies #[trigger] shown[i].1
            >= #[trigger] sorted[j].1 by {
            assert(shown[i] == kept[kept.len() - 1 - i]);
            assert(kept[kept.len() - 1 - i] == sorted[kept.len() - 1 - i]);
        }
    }
}

} // verus!
