//! Turning an evolution tree into lines of text.
//!
//! A line is first built as a sequence of tokens that alternate between a
//! species name and an evolution method; rendering joins the tokens with
//! ` -> `. The optional passes (keeping only the latest method per species
//! path, hiding species names) work on the tokens.

use vstd::prelude::*;
use crate::names::{Named, named_as_slug, shown, display_name, speaks, lemma_fallback_to_slug};
use crate::text::{
    views, joined, decimal, signed_text, join, concat, lemma_views_push, lemma_views_remove,
};

verus! {

/// One way to evolve: the trigger, and whichever conditions apply.
pub struct EvolutionDetail {
    pub trigger: Named,
    pub item: Option<Named>,
    pub gender: Option<i64>,
    pub known_move: Option<Named>,
    pub known_move_type: Option<Named>,
    pub location: Option<Named>,
    pub min_level: Option<i64>,
    pub min_happiness: Option<i64>,
    pub min_beauty: Option<i64>,
    pub min_affection: Option<i64>,
    pub needs_overworld_rain: bool,
    pub party_species: Option<Named>,
    pub party_type: Option<Named>,
    pub relative_physical_stats: Option<i64>,
    pub time_of_day: String,
    pub trade_species: Option<Named>,
    pub turn_upside_down: bool,
}

/// A node of an evolution tree: a species, the ways to reach it from its
/// parent, and the species it evolves into.
pub struct EvolutionNode {
    pub species: Named,
    pub details: Vec<EvolutionDetail>,
    pub evolves_to: Vec<EvolutionNode>,
}

/// How a chain whose data reads ambiguously is shown, by the evolved species.
#[derive(PartialEq, Eq, Structural, Clone, Copy, Debug)]
pub enum ChainException {
    /// The base species is also listed alone, ahead of the other lines.
    PrependRoot,
    /// The line moves to the front, and the evolved species alone takes its
    /// place, so that a further stage continues from it.
    RelabelFinal,
    /// The line is also listed ahead of the other lines.
    DuplicateFirst,
}

/// The tokens of one line.
pub type Tokens = Seq<Seq<char>>;

/// The token views of a sequence of lines.
pub open spec fn line_views(v: Seq<Vec<String>>) -> Seq<Tokens> {
    v.map_values(|l: Vec<String>| views(l@))
}

/// Pushing a line adds its tokens at the end of the lines' tokens.
pub proof fn lemma_line_views_push(s: Seq<Vec<String>>, x: Vec<String>)
    ensures
        line_views(s.push(x)) == line_views(s).push(views(x@)),
{
    assert(line_views(s.push(x)) =~= line_views(s).push(views(x@)));
}

/// `key` and the shown name of `v`, when there is one.
pub open spec fn named_part(key: Seq<char>, v: Option<Named>, lang: Seq<char>, fast: bool) -> Seq<
    Seq<char>,
> {
    match v {
        Some(n) => seq![key + shown(n, lang, fast)],
        None => Seq::empty(),
    }
}

/// `key` and the decimal form of `v`, when there is one.
pub open spec fn number_part(key: Seq<char>, v: Option<i64>) -> Seq<Seq<char>> {
    match v {
        Some(x) => seq![key + decimal(x as int)],
        None => Seq::empty(),
    }
}

/// `key` alone, when `b` holds.
pub open spec fn flag_part(key: Seq<char>, b: bool) -> Seq<Seq<char>> {
    if b {
        seq![key]
    } else {
        Seq::empty()
    }
}

/// `key` and `v`, when `v` is not empty.
pub open spec fn text_part(key: Seq<char>, v: Seq<char>) -> Seq<Seq<char>> {
    if v.len() != 0 {
        seq![key + v]
    } else {
        Seq::empty()
    }
}

/// The conditions of `d`, each as `key: value` (a flag as its bare key), in
/// their fixed order.
pub open spec fn condition_parts(d: EvolutionDetail, lang: Seq<char>, fast: bool) -> Seq<Seq<char>> {
    named_part("item: "@, d.item, lang, fast) + number_part("gender: "@, d.gender) + named_part(
        "known_move: "@,
        d.known_move,
        lang,
        fast,
    ) + named_part("known_move_type: "@, d.known_move_type, lang, fast) + named_part(
        "location: "@,
        d.location,
        lang,
        fast,
    ) + number_part("min_level: "@, d.min_level) + number_part(
        "min_happiness: "@,
        d.min_happiness,
    ) + number_part("min_beauty: "@, d.min_beauty) + number_part(
        "min_affection: "@,
        d.min_affection,
    ) + flag_part("needs_overworld_rain"@, d.needs_overworld_rain) + named_part(
        "party_species: "@,
        d.party_species,
        lang,
        fast,
    ) + named_part("party_type: "@, d.party_type, lang, fast) + number_part(
        "relative_physical_stats: "@,
        d.relative_physical_stats,
    ) + text_part("time_of_day: "@, d.time_of_day@) + named_part(
        "trade_species: "@,
        d.trade_species,
        lang,
        fast,
    ) + flag_part("turn_upside_down"@, d.turn_upside_down)
}

/// The method token of `d`: the trigger's name, then the conditions in
/// parentheses when there are any.
pub open spec fn method_token(d: EvolutionDetail, lang: Seq<char>, fast: bool) -> Seq<char> {
    let parts = condition_parts(d, lang, fast);
    if parts.len() == 0 {
        shown(d.trigger, lang, fast)
    } else {
        shown(d.trigger, lang, fast) + " ("@ + joined(parts, ", "@) + ")"@
    }
}

/// The exception that applies to a chain reaching the species `slug`.
pub open spec fn exception_of(slug: Seq<char>) -> Option<ChainException> {
    if slug == "sirfetchd"@ || slug == "overqwil"@ || slug == "cursola"@ || slug
        == "basculegion"@ {
        Some(ChainException::PrependRoot)
    } else if slug == "mr-mime"@ {
        Some(ChainException::RelabelFinal)
    } else if slug == "linoone"@ {
        Some(ChainException::DuplicateFirst)
    } else {
        None
    }
}

/// Whether every method of a chain rooted at the species `slug` is shown.
pub open spec fn shows_all_methods(slug: Seq<char>) -> bool {
    slug == "rattata"@ || slug == "sandshrew"@ || slug == "vulpix"@ || slug == "meowth"@ || slug
        == "cubone"@ || slug == "slowpoke"@ || slug == "darumaka"@
}

/// The shown name of a species within a chain: its slug when `fast`, else
/// its display name in `lang`.
pub open spec fn species_token(n: Named, lang: Seq<char>, fast: bool) -> Seq<char> {
    shown(n, lang, fast)
}

/// The second-stage segments below `g`: a method token and `g`'s name, once
/// for each way to reach `g`.
pub open spec fn node_tails(g: EvolutionNode, lang: Seq<char>, fast: bool) -> Seq<
    Tokens,
> {
    g.details@.map_values(
        |d: EvolutionDetail| seq![method_token(d, lang, fast), species_token(g.species, lang, fast)],
    )
}

/// The second-stage segments below each of `gs`, in order.
pub open spec fn tails_of(gs: Seq<EvolutionNode>, lang: Seq<char>, fast: bool) -> Seq<
    Tokens,
>
    decreases gs.len(),
{
    if gs.len() == 0 {
        Seq::empty()
    } else {
        tails_of(gs.drop_last(), lang, fast) + node_tails(gs.last(), lang, fast)
    }
}

/// `head` continued by each of `tails`, or `head` alone when there are none.
pub open spec fn extended(head: Tokens, tails: Seq<Tokens>) -> Seq<Tokens> {
    if tails.len() == 0 {
        seq![head]
    } else {
        tails.map_values(|t: Tokens| head + t)
    }
}

/// The lines of one way `d` to go from `root` to `c`: the lines put ahead of
/// all others, and the lines appended in turn.
pub open spec fn method_lines(
    root: Named,
    c: EvolutionNode,
    d: EvolutionDetail,
    lang: Seq<char>,
    fast: bool,
) -> (Seq<Tokens>, Seq<Tokens>) {
    let base = seq![
        species_token(root, lang, fast),
        method_token(d, lang, fast),
        species_token(c.species, lang, fast),
    ];
    let tails = tails_of(c.evolves_to@, lang, fast);
    match exception_of(c.species.slug@) {
        Some(ChainException::PrependRoot) => (seq![seq![shown(root, lang, fast)]], extended(base, tails)),
        Some(ChainException::RelabelFinal) => (
            seq![base],
            extended(seq![shown(c.species, lang, fast)], tails),
        ),
        Some(ChainException::DuplicateFirst) => (seq![base], extended(base, tails)),
        None => (Seq::empty(), extended(base, tails)),
    }
}

/// The lines of the ways `ds` to go from `root` to `c`, in order.
pub open spec fn details_lines(
    root: Named,
    c: EvolutionNode,
    ds: Seq<EvolutionDetail>,
    lang: Seq<char>,
    fast: bool,
) -> (Seq<Tokens>, Seq<Tokens>)
    decreases ds.len(),
{
    if ds.len() == 0 {
        (Seq::empty(), Seq::empty())
    } else {
        let prev = details_lines(root, c, ds.drop_last(), lang, fast);
        let next = method_lines(root, c, ds.last(), lang, fast);
        (prev.0 + next.0, prev.1 + next.1)
    }
}

/// The lines for the child `c` of `root`; a child reached by no known
/// method gives one line with `???` in the method's place.
pub open spec fn child_lines(root: Named, c: EvolutionNode, lang: Seq<char>, fast: bool) -> (
    Seq<Tokens>,
    Seq<Tokens>,
) {
    if c.details@.len() == 0 {
        (
            Seq::empty(),
            seq![
                seq![
                    species_token(root, lang, fast),
                    "???"@,
                    species_token(c.species, lang, fast),
                ],
            ],
        )
    } else {
        details_lines(root, c, c.details@, lang, fast)
    }
}

/// The lines for the children `cs` of `root`, in order.
pub open spec fn children_lines(
    root: Named,
    cs: Seq<EvolutionNode>,
    lang: Seq<char>,
    fast: bool,
) -> (Seq<Tokens>, Seq<Tokens>)
    decreases cs.len(),
{
    if cs.len() == 0 {
        (Seq::empty(), Seq::empty())
    } else {
        let prev = children_lines(root, cs.drop_last(), lang, fast);
        let next = child_lines(root, cs.last(), lang, fast);
        (prev.0 + next.0, prev.1 + next.1)
    }
}

/// The lines of a chain: the root's name alone when nothing evolves from it;
/// otherwise one line per path and method, where each line put ahead of the
/// others lands before those put ahead earlier.
pub open spec fn chain_tokens(root: EvolutionNode, lang: Seq<char>, fast: bool) -> Seq<
    Tokens,
> {
    if root.evolves_to@.len() == 0 {
        seq![seq![species_token(root.species, lang, fast)]]
    } else {
        let parts = children_lines(root.species, root.evolves_to@, lang, fast);
        parts.0.reverse() + parts.1
    }
}

// ---------------------------------------------------------------------------
// Executable construction of the lines.

fn copy_tokens(t: &Vec<String>) -> (r: Vec<String>)
    ensures
        views(r@) == views(t@),
{
    let mut r: Vec<String> = Vec::new();
    let mut i: usize = 0;
    while i < t.len()
        invariant
            0 <= i <= t.len(),
            views(r@) =~= views(t@).take(i as int),
        decreases t.len() - i,
    {
        proof {
            lemma_views_push(r@, t[i as int]);
        }
        r.push(t[i].clone());
        assert(views(t@).take(i + 1) =~= views(t@).take(i as int).push(t[i as int]@));
        i = i + 1;
    }
    assert(views(t@).take(t.len() as int) =~= views(t@));
    r
}

fn cat_tokens(a: &Vec<String>, b: &Vec<String>) -> (r: Vec<String>)
    ensures
        views(r@) == views(a@) + views(b@),
{
    let mut r = copy_tokens(a);
    let mut i: usize = 0;
    while i < b.len()
        invariant
            0 <= i <= b.len(),
            views(r@) =~= views(a@) + views(b@).take(i as int),
        decreases b.len() - i,
    {
        proof {
            lemma_views_push(r@, b[i as int]);
        }
        r.push(b[i].clone());
        assert(views(b@).take(i + 1) =~= views(b@).take(i as int).push(b[i as int]@));
        i = i + 1;
    }
    assert(views(b@).take(b.len() as int) =~= views(b@));
    r
}

fn one_token(a: String) -> (r: Vec<String>)
    ensures
        views(r@) == seq![a@],
{
    let mut r: Vec<String> = Vec::new();
    r.push(a);
    assert(views(r@) =~= seq![a@]);
    r
}

fn three_tokens(a: String, b: String, c: String) -> (r: Vec<String>)
    ensures
        views(r@) == seq![a@, b@, c@],
{
    let mut r: Vec<String> = Vec::new();
    r.push(a);
    r.push(b);
    r.push(c);
    assert(views(r@) =~= seq![a@, b@, c@]);
    r
}

fn push_named(parts: &mut Vec<String>, key: &str, v: &Option<Named>, lang: &str, fast: bool)
    ensures
        views(final(parts)@) == views(old(parts)@) + named_part(key@, *v, lang@, fast),
{
    match v {
        Some(n) => {
            let name = display_name(n, lang, fast);
            parts.push(concat(key, name.as_str()));
        },
        None => {},
    }
    assert(views(final(parts)@) =~= views(old(parts)@) + named_part(key@, *v, lang@, fast));
}

fn push_number(parts: &mut Vec<String>, key: &str, v: Option<i64>)
    ensures
        views(final(parts)@) == views(old(parts)@) + number_part(key@, v),
{
    match v {
        Some(x) => {
            let digits = signed_text(x);
            parts.push(concat(key, digits.as_str()));
        },
        None => {},
    }
    assert(views(final(parts)@) =~= views(old(parts)@) + number_part(key@, v));
}

fn push_flag(parts: &mut Vec<String>, key: &str, b: bool)
    ensures
        views(final(parts)@) == views(old(parts)@) + flag_part(key@, b),
{
    if b {
        parts.push(String::from_str(key));
    }
    assert(views(final(parts)@) =~= views(old(parts)@) + flag_part(key@, b));
}

fn push_text(parts: &mut Vec<String>, key: &str, v: &String)
    ensures
        views(final(parts)@) == views(old(parts)@) + text_part(key@, v@),
{
    if v.unicode_len() != 0 {
        parts.push(concat(key, v.as_str()));
    }
    assert(views(final(parts)@) =~= views(old(parts)@) + text_part(key@, v@));
}

/// The conditions of an evolution method, joined by `, `; `None` when it has
/// none. Named conditions are shown in `lang`, or as slugs when `fast`.
pub fn get_evolution_details(details: &EvolutionDetail, lang: &str, fast: bool) -> (r: Option<
    String,
>)
    ensures
        r is None <==> condition_parts(*details, lang@, fast).len() == 0,
        r matches Some(s) ==> s@ == joined(condition_parts(*details, lang@, fast), ", "@),
{
    let d = details;
    let mut parts: Vec<String> = Vec::new();
    push_named(&mut parts, "item: ", &d.item, lang, fast);
    push_number(&mut parts, "gender: ", d.gender);
    push_named(&mut parts, "known_move: ", &d.known_move, lang, fast);
    push_named(&mut parts, "known_move_type: ", &d.known_move_type, lang, fast);
    push_named(&mut parts, "location: ", &d.location, lang, fast);
    push_number(&mut parts, "min_level: ", d.min_level);
    push_number(&mut parts, "min_happiness: ", d.min_happiness);
    push_number(&mut parts, "min_beauty: ", d.min_beauty);
    push_number(&mut parts, "min_affection: ", d.min_affection);
    push_flag(&mut parts, "needs_overworld_rain", d.needs_overworld_rain);
    push_named(&mut parts, "party_species: ", &d.party_species, lang, fast);
    push_named(&mut parts, "party_type: ", &d.party_type, lang, fast);
    push_number(&mut parts, "relative_physical_stats: ", d.relative_physical_stats);
    push_text(&mut parts, "time_of_day: ", &d.time_of_day);
    push_named(&mut parts, "trade_species: ", &d.trade_species, lang, fast);
    push_flag(&mut parts, "turn_upside_down", d.turn_upside_down);
    assert(views(parts@) =~= condition_parts(*d, lang@, fast));
    if parts.len() == 0 {
        None
    } else {
        Some(join(&parts, ", "))
    }
}

/// The shown name of a species in a chain: its slug when `fast`, else its
/// display name in `lang`.
pub fn get_evolution_name(species: &Named, lang: &str, fast: bool) -> (r: String)
    ensures
        r@ == shown(*species, lang@, fast),
{
    display_name(species, lang, fast)
}

/// The method token of an evolution method: the trigger's name, followed by
/// its conditions in parentheses when it has any.
pub fn method_text(details: &EvolutionDetail, lang: &str, fast: bool) -> (r: String)
    ensures
        r@ == method_token(*details, lang@, fast),
{
    let mut r = display_name(&details.trigger, lang, fast);
    match get_evolution_details(details, lang, fast) {
        Some(s) => {
            r.append(" (");
            r.append(s.as_str());
            r.append(")");
        },
        None => {},
    }
    r
}

fn is_slug(slug: &String, lit: &str) -> (r: bool)
    ensures
        r == (slug@ == lit@),
{
    *slug == String::from_str(lit)
}

/// The exception that applies to a chain reaching the species `slug`, if any.
pub fn chain_exception(slug: &String) -> (r: Option<ChainException>)
    ensures
        r == exception_of(slug@),
{
    if is_slug(slug, "sirfetchd") || is_slug(slug, "overqwil") || is_slug(slug, "cursola")
        || is_slug(slug, "basculegion") {
        Some(ChainException::PrependRoot)
    } else if is_slug(slug, "mr-mime") {
        Some(ChainException::RelabelFinal)
    } else if is_slug(slug, "linoone") {
        Some(ChainException::DuplicateFirst)
    } else {
        None
    }
}

/// Whether every method is shown for a chain rooted at the species `slug`,
/// whose regional forms evolve by methods that would otherwise be merged.
pub fn forces_all_methods(slug: &String) -> (r: bool)
    ensures
        r == shows_all_methods(slug@),
{
    is_slug(slug, "rattata") || is_slug(slug, "sandshrew") || is_slug(slug, "vulpix") || is_slug(
        slug,
        "meowth",
    ) || is_slug(slug, "cubone") || is_slug(slug, "slowpoke") || is_slug(slug, "darumaka")
}

fn node_tail_lines(g: &EvolutionNode, lang: &str, fast: bool, out: &mut Vec<
    Vec<String>,
>)
    ensures
        line_views(final(out)@) == line_views(old(out)@) + node_tails(*g, lang@, fast),
{
    let ghost start = line_views(out@);
    let ghost all = node_tails(*g, lang@, fast);
    let name = display_name(&g.species, lang, fast);
    let mut j: usize = 0;
    while j < g.details.len()
        invariant
            0 <= j <= g.details.len(),
            name@ == species_token(g.species, lang@, fast),
            all == node_tails(*g, lang@, fast),
            line_views(out@) =~= start + all.take(j as int),
        decreases g.details.len() - j,
    {
        let m = method_text(&g.details[j], lang, fast);
        let mut t: Vec<String> = Vec::new();
        t.push(m);
        t.push(name.clone());
        assert(views(t@) =~= all[j as int]);
        proof {
            lemma_line_views_push(out@, t);
        }
        out.push(t);
        assert(all.take(j + 1) =~= all.take(j as int).push(all[j as int]));
        j = j + 1;
    }
    assert(all.take(g.details.len() as int) =~= all);
}

fn second_stage(c: &EvolutionNode, lang: &str, fast: bool) -> (r: Vec<Vec<String>>)
    ensures
        line_views(r@) == tails_of(c.evolves_to@, lang@, fast),
{
    let mut r: Vec<Vec<String>> = Vec::new();
    let mut i: usize = 0;
    while i < c.evolves_to.len()
        invariant
            0 <= i <= c.evolves_to.len(),
            line_views(r@) == tails_of(c.evolves_to@.take(i as int), lang@, fast),
        decreases c.evolves_to.len() - i,
    {
        assert(c.evolves_to@.take(i + 1).drop_last() =~= c.evolves_to@.take(i as int));
        node_tail_lines(&c.evolves_to[i], lang, fast, &mut r);
        i = i + 1;
    }
    assert(c.evolves_to@.take(c.evolves_to.len() as int) =~= c.evolves_to@);
    r
}

fn push_extended(out: &mut Vec<Vec<String>>, head: &Vec<String>, tails: &Vec<Vec<String>>)
    ensures
        line_views(final(out)@) == line_views(old(out)@) + extended(views(head@), line_views(tails@)),
{
    let ghost start = line_views(out@);
    let ghost all = extended(views(head@), line_views(tails@));
    if tails.len() == 0 {
        out.push(copy_tokens(head));
        assert(line_views(out@) =~= start + all);
    } else {
        let mut k: usize = 0;
        while k < tails.len()
            invariant
                0 <= k <= tails.len(),
                tails.len() > 0,
                all == extended(views(head@), line_views(tails@)),
                line_views(out@) =~= start + all.take(k as int),
            decreases tails.len() - k,
        {
            let t = cat_tokens(head, &tails[k]);
            proof {
                lemma_line_views_push(out@, t);
            }
            out.push(t);
            assert(all.take(k + 1) =~= all.take(k as int).push(all[k as int]));
            k = k + 1;
        }
        assert(all.take(tails.len() as int) =~= all);
    }
}

fn push_method_lines(
    root: &Named,
    c: &EvolutionNode,
    d: &EvolutionDetail,
    tails: &Vec<Vec<String>>,
    lang: &str,
    fast: bool,
    ahead: &mut Vec<Vec<String>>,
    after: &mut Vec<Vec<String>>,
)
    requires
        line_views(tails@) == tails_of(c.evolves_to@, lang@, fast),
    ensures
        line_views(final(ahead)@) == line_views(old(ahead)@) + method_lines(
            *root,
            *c,
            *d,
            lang@,
            fast,
        ).0,
        line_views(final(after)@) == line_views(old(after)@) + method_lines(
            *root,
            *c,
            *d,
            lang@,
            fast,
        ).1,
{
    let ghost a0 = line_views(ahead@);
    let root_name = display_name(root, lang, fast);
    let method = method_text(d, lang, fast);
    let child_name = display_name(&c.species, lang, fast);
    let base = three_tokens(root_name, method, child_name);
    match chain_exception(&c.species.slug) {
        Some(ChainException::PrependRoot) => {
            ahead.push(one_token(display_name(root, lang, fast)));
            push_extended(after, &base, tails);
        },
        Some(ChainException::RelabelFinal) => {
            ahead.push(copy_tokens(&base));
            let head = one_token(display_name(&c.species, lang, fast));
            push_extended(after, &head, tails);
        },
        Some(ChainException::DuplicateFirst) => {
            ahead.push(copy_tokens(&base));
            push_extended(after, &base, tails);
        },
        None => {
            push_extended(after, &base, tails);
        },
    }
    assert(line_views(ahead@) =~= a0 + method_lines(*root, *c, *d, lang@, fast).0);
}

proof fn lemma_details_step(
    root: Named,
    c: EvolutionNode,
    ds: Seq<EvolutionDetail>,
    j: int,
    lang: Seq<char>,
    fast: bool,
)
    requires
        0 <= j < ds.len(),
    ensures
        details_lines(root, c, ds.take(j + 1), lang, fast) == (
            details_lines(root, c, ds.take(j), lang, fast).0 + method_lines(
                root,
                c,
                ds[j],
                lang,
                fast,
            ).0,
            details_lines(root, c, ds.take(j), lang, fast).1 + method_lines(
                root,
                c,
                ds[j],
                lang,
                fast,
            ).1,
        ),
{
    assert(ds.take(j + 1).drop_last() =~= ds.take(j));
    assert(ds.take(j + 1).last() == ds[j]);
}

fn push_child_lines(
    root: &Named,
    c: &EvolutionNode,
    lang: &str,
    fast: bool,
    ahead: &mut Vec<Vec<String>>,
    after: &mut Vec<Vec<String>>,
)
    ensures
        line_views(final(ahead)@) == line_views(old(ahead)@) + child_lines(
            *root,
            *c,
            lang@,
            fast,
        ).0,
        line_views(final(after)@) == line_views(old(after)@) + child_lines(
            *root,
            *c,
            lang@,
            fast,
        ).1,
{
    let ghost a0 = line_views(ahead@);
    let ghost b0 = line_views(after@);
    if c.details.len() == 0 {
        let root_name = display_name(root, lang, fast);
        let child_name = display_name(&c.species, lang, fast);
        let unknown = String::from_str("???");
        after.push(three_tokens(root_name, unknown, child_name));
        assert(line_views(ahead@) =~= a0 + child_lines(*root, *c, lang@, fast).0);
        assert(line_views(after@) =~= b0 + child_lines(*root, *c, lang@, fast).1);
    } else {
        let tails = second_stage(c, lang, fast);
        let mut j: usize = 0;
        while j < c.details.len()
            invariant
                0 <= j <= c.details.len(),
                line_views(tails@) == tails_of(c.evolves_to@, lang@, fast),
                line_views(ahead@) == a0 + details_lines(
                    *root,
                    *c,
                    c.details@.take(j as int),
                    lang@,
                    fast,
                ).0,
                line_views(after@) == b0 + details_lines(
                    *root,
                    *c,
                    c.details@.take(j as int),
                    lang@,
                    fast,
                ).1,
            decreases c.details.len() - j,
        {
            let ghost prev = details_lines(*root, *c, c.details@.take(j as int), lang@, fast);
            let ghost next = method_lines(*root, *c, c.details@[j as int], lang@, fast);
            proof {
                lemma_details_step(*root, *c, c.details@, j as int, lang@, fast);
            }
            push_method_lines(root, c, &c.details[j], &tails, lang, fast, ahead, after);
            assert(a0 + prev.0 + next.0 =~= a0 + (prev.0 + next.0));
            assert(b0 + prev.1 + next.1 =~= b0 + (prev.1 + next.1));
            j = j + 1;
        }
        assert(c.details@.take(c.details.len() as int) =~= c.details@);
    }
}

fn reversed_lines(v: &Vec<Vec<String>>) -> (r: Vec<Vec<String>>)
    ensures
        line_views(r@) == line_views(v@).reverse(),
{
    let mut r: Vec<Vec<String>> = Vec::new();
    let mut i: usize = v.len();
    while i > 0
        invariant
            0 <= i <= v.len(),
            line_views(r@) =~= line_views(v@).skip(i as int).reverse(),
        decreases i,
    {
        i = i - 1;
        let t = copy_tokens(&v[i]);
        proof {
            lemma_line_views_push(r@, t);
        }
        r.push(t);
        assert(line_views(v@).skip(i as int).reverse() =~= line_views(v@).skip(i + 1).reverse().push(
            views(v[i as int]@),
        ));
    }
    assert(line_views(v@).skip(0) =~= line_views(v@));
    r
}

/// The lines of an evolution chain, as tokens, before the optional passes.
///
/// Species and methods are shown as slugs when `fast`, else in `lang`.
pub fn chain_lines(root: &EvolutionNode, lang: &str, fast: bool) -> (r: Vec<
    Vec<String>,
>)
    ensures
        line_views(r@) == chain_tokens(*root, lang@, fast),
{
    if root.evolves_to.len() == 0 {
        let mut r: Vec<Vec<String>> = Vec::new();
        r.push(one_token(display_name(&root.species, lang, fast)));
        assert(line_views(r@) =~= chain_tokens(*root, lang@, fast));
        return r;
    }
    let mut ahead: Vec<Vec<String>> = Vec::new();
    let mut after: Vec<Vec<String>> = Vec::new();
    let mut i: usize = 0;
    while i < root.evolves_to.len()
        invariant
            0 <= i <= root.evolves_to.len(),
            line_views(ahead@) == children_lines(
                root.species,
                root.evolves_to@.take(i as int),
                lang@,
                fast,
            ).0,
            line_views(after@) == children_lines(
                root.species,
                root.evolves_to@.take(i as int),
                lang@,
                fast,
            ).1,
        decreases root.evolves_to.len() - i,
    {
        assert(root.evolves_to@.take(i + 1).drop_last() =~= root.evolves_to@.take(i as int));
        push_child_lines(&root.species, &root.evolves_to[i], lang, fast, &mut ahead, &mut after);
        i = i + 1;
    }
    assert(root.evolves_to@.take(root.evolves_to.len() as int) =~= root.evolves_to@);
    let mut r = reversed_lines(&ahead);
    let ghost r0 = line_views(r@);
    let mut k: usize = 0;
    while k < after.len()
        invariant
            0 <= k <= after.len(),
            line_views(r@) =~= r0 + line_views(after@).take(k as int),
        decreases after.len() - k,
    {
        let t = copy_tokens(&after[k]);
        proof {
            lemma_line_views_push(r@, t);
        }
        r.push(t);
        assert(line_views(after@).take(k + 1) =~= line_views(after@).take(k as int).push(
            views(after[k as int]@),
        ));
        k = k + 1;
    }
    assert(line_views(after@).take(after.len() as int) =~= line_views(after@));
    r
}

/// The species names of a line: the line without its method tokens, which
/// stand second and fourth.
pub open spec fn species_path(t: Tokens) -> Tokens {
    let t1 = if t.len() > 3 {
        t.remove(3)
    } else {
        t
    };
    if t1.len() > 1 {
        t1.remove(1)
    } else {
        t1
    }
}

/// The text of a line: its tokens joined by ` -> `.
pub open spec fn rendered(t: Tokens) -> Seq<char> {
    joined(t, " -> "@)
}

/// The texts of lines.
pub open spec fn texts(lines: Seq<Tokens>) -> Seq<Seq<char>> {
    lines.map_values(|t: Tokens| rendered(t))
}

/// Whether a line after the first has the first line's species path.
pub open spec fn path_recurs(lines: Seq<Tokens>) -> bool {
    exists|j: int| 1 <= j < lines.len() && #[trigger] species_path(lines[j]) == species_path(lines[0])
}

/// The lines that no later line shares a species path with, in their order:
/// of each species path, only its last line.
pub open spec fn latest_per_path(lines: Seq<Tokens>) -> Seq<Tokens>
    decreases lines.len(),
{
    if lines.len() == 0 {
        lines
    } else if path_recurs(lines) {
        latest_per_path(lines.drop_first())
    } else {
        seq![lines[0]] + latest_per_path(lines.drop_first())
    }
}

/// The lines that keep only the latest method of each species path.
pub open spec fn collapsed(lines: Seq<Tokens>) -> Seq<Tokens> {
    latest_per_path(lines)
}

/// A line with each species token, the even-indexed ones, replaced by `MON`.
pub open spec fn hidden_line(t: Tokens) -> Tokens {
    Seq::new(t.len(), |i: int| if i % 2 == 0 { "MON"@ } else { t[i] })
}

/// Lines with their species tokens hidden.
pub open spec fn hidden(lines: Seq<Tokens>) -> Seq<Tokens> {
    lines.map_values(|t: Tokens| hidden_line(t))
}

/// The lines shown for a species: those of its evolution chain, or its own
/// name alone when it has no chain; unless `all` is set or the chain's root
/// shows every method, only the latest method per species path; with species
/// names hidden afterwards when `secret` is set.
pub open spec fn evolution_text(
    species: Named,
    chain: Option<EvolutionNode>,
    lang: Seq<char>,
    fast: bool,
    secret: bool,
    all: bool,
) -> Seq<Seq<char>> {
    let kept = kept_lines(species, chain, lang, fast, all);
    texts(
        if secret {
            hidden(kept)
        } else {
            kept
        },
    )
}

/// The lines kept for a species, before species names are hidden: those of
/// its chain, or its own name alone; unless `all` is set or the chain's root
/// shows every method, only the latest method per species path.
pub open spec fn kept_lines(
    species: Named,
    chain: Option<EvolutionNode>,
    lang: Seq<char>,
    fast: bool,
    all: bool,
) -> Seq<Tokens> {
    let lines = match chain {
        Some(root) => chain_tokens(root, lang, fast),
        None => seq![seq![shown(species, lang, fast)]],
    };
    let every = all || match chain {
        Some(root) => shows_all_methods(root.species.slug@),
        None => false,
    };
    if every {
        lines
    } else {
        collapsed(lines)
    }
}

/// The species names of a line, without its method tokens.
pub fn path_of(line: &Vec<String>) -> (r: Vec<String>)
    ensures
        views(r@) == species_path(views(line@)),
{
    let mut r = copy_tokens(line);
    if r.len() > 3 {
        proof {
            lemma_views_remove(r@, 3);
        }
        r.remove(3);
    }
    if r.len() > 1 {
        proof {
            lemma_views_remove(r@, 1);
        }
        r.remove(1);
    }
    r
}

/// Whether two lines hold the same tokens.
pub fn same_tokens(a: &Vec<String>, b: &Vec<String>) -> (r: bool)
    ensures
        r == (views(a@) == views(b@)),
{
    if a.len() != b.len() {
        assert(views(a@).len() != views(b@).len());
        return false;
    }
    let mut i: usize = 0;
    while i < a.len()
        invariant
            0 <= i <= a.len(),
            a.len() == b.len(),
            forall|k: int| 0 <= k < i ==> views(a@)[k] == views(b@)[k],
        decreases a.len() - i,
    {
        if a[i] != b[i] {
            assert(views(a@)[i as int] != views(b@)[i as int]);
            return false;
        }
        i = i + 1;
    }
    assert(views(a@) =~= views(b@));
    true
}

/// The text of a line.
pub fn line_text(line: &Vec<String>) -> (r: String)
    ensures
        r@ == rendered(views(line@)),
{
    join(line, " -> ")
}

/// Keeps only the latest method of each species path: a line stays, in its
/// place, when no later line has the same species names.
pub fn latest_methods(lines: &Vec<Vec<String>>) -> (r: Vec<Vec<String>>)
    ensures
        line_views(r@) == collapsed(line_views(lines@)),
{
    let ghost lv = line_views(lines@);
    let n = lines.len();
    let mut paths: Vec<Vec<String>> = Vec::new();
    let mut k: usize = 0;
    while k < n
        invariant
            0 <= k <= n,
            n == lines.len(),
            lv == line_views(lines@),
            paths@.len() == k,
            forall|m: int| 0 <= m < k ==> views(#[trigger] paths@[m]@) == species_path(lv[m]),
        decreases n - k,
    {
        paths.push(path_of(&lines[k]));
        k = k + 1;
    }
    let mut r: Vec<Vec<String>> = Vec::new();
    let mut i: usize = 0;
    assert(lv.skip(0) =~= lv);
    assert(line_views(r@) + latest_per_path(lv) =~= latest_per_path(lv));
    while i < n
        invariant
            0 <= i <= n,
            n == lines.len(),
            lv == line_views(lines@),
            paths@.len() == n,
            forall|m: int| 0 <= m < n ==> views(#[trigger] paths@[m]@) == species_path(lv[m]),
            line_views(r@) + latest_per_path(lv.skip(i as int)) == latest_per_path(lv),
        decreases n - i,
    {
        let ghost rest = lv.skip(i as int);
        assert(rest.drop_first() =~= lv.skip(i + 1));
        assert(rest[0] == lv[i as int]);
        let mut later = false;
        let mut j: usize = i + 1;
        while j < n
            invariant
                i < j <= n,
                n == lines.len(),
                lv == line_views(lines@),
                paths@.len() == n,
                forall|m: int| 0 <= m < n ==> views(#[trigger] paths@[m]@) == species_path(lv[m]),
                later == exists|m: int|
                    i < m < j && #[trigger] species_path(lv[m]) == species_path(lv[i as int]),
            decreases n - j,
        {
            let same = same_tokens(&paths[i], &paths[j]);
            assert(views(paths@[i as int]@) == species_path(lv[i as int]));
            assert(views(paths@[j as int]@) == species_path(lv[j as int]));
            if same {
                later = true;
            }
            j = j + 1;
        }
        assert(path_recurs(rest) == later) by {
            if later {
                let m = choose|m: int| i < m < n && #[trigger] species_path(lv[m]) == species_path(lv[i as int]);
                assert(rest[m - i] == lv[m]);
            }
            if path_recurs(rest) {
                let j2 = choose|j2: int| 1 <= j2 < rest.len() && #[trigger] species_path(rest[j2]) == species_path(rest[0]);
                assert(rest[j2] == lv[i + j2]);
            }
        }
        if !later {
            let ghost before = line_views(r@);
            let t = copy_tokens(&lines[i]);
            proof {
                lemma_line_views_push(r@, t);
            }
            r.push(t);
            assert(before + latest_per_path(rest) =~= line_views(r@) + latest_per_path(lv.skip(i + 1)));
        }
        i = i + 1;
    }
    assert(lv.skip(n as int) =~= Seq::<Tokens>::empty());
    assert(line_views(r@) =~= line_views(r@) + latest_per_path(lv.skip(n as int)));
    r
}

fn hide_line(line: &Vec<String>) -> (r: Vec<String>)
    ensures
        views(r@) == hidden_line(views(line@)),
{
    let mut r: Vec<String> = Vec::new();
    let mut i: usize = 0;
    while i < line.len()
        invariant
            0 <= i <= line.len(),
            views(r@) =~= hidden_line(views(line@)).take(i as int),
        decreases line.len() - i,
    {
        let t = if i % 2 == 0 {
            proof {
                reveal_strlit("MON");
            }
            String::from_str("MON")
        } else {
            line[i].clone()
        };
        proof {
            lemma_views_push(r@, t);
        }
        r.push(t);
        assert(hidden_line(views(line@)).take(i + 1) =~= hidden_line(views(line@)).take(
            i as int,
        ).push(t@));
        i = i + 1;
    }
    assert(hidden_line(views(line@)).take(line.len() as int) =~= hidden_line(views(line@)));
    r
}

/// Replaces every species token of every line, the even-indexed ones, by
/// `MON`, and keeps the method tokens as they are.
pub fn hide_names(lines: &Vec<Vec<String>>) -> (r: Vec<Vec<String>>)
    ensures
        line_views(r@) == hidden(line_views(lines@)),
{
    let mut r: Vec<Vec<String>> = Vec::new();
    let mut i: usize = 0;
    while i < lines.len()
        invariant
            0 <= i <= lines.len(),
            line_views(r@) =~= hidden(line_views(lines@)).take(i as int),
        decreases lines.len() - i,
    {
        let t = hide_line(&lines[i]);
        proof {
            lemma_line_views_push(r@, t);
        }
        r.push(t);
        assert(hidden(line_views(lines@)).take(i + 1) =~= hidden(line_views(lines@)).take(
            i as int,
        ).push(views(t@)));
        i = i + 1;
    }
    assert(hidden(line_views(lines@)).take(lines.len() as int) =~= hidden(line_views(lines@)));
    r
}

/// The texts of lines.
pub fn line_texts(lines: &Vec<Vec<String>>) -> (r: Vec<String>)
    ensures
        views(r@) == texts(line_views(lines@)),
{
    let mut r: Vec<String> = Vec::new();
    let mut i: usize = 0;
    while i < lines.len()
        invariant
            0 <= i <= lines.len(),
            views(r@) =~= texts(line_views(lines@)).take(i as int),
        decreases lines.len() - i,
    {
        let t = line_text(&lines[i]);
        proof {
            lemma_views_push(r@, t);
        }
        r.push(t);
        assert(texts(line_views(lines@)).take(i + 1) =~= texts(line_views(lines@)).take(
            i as int,
        ).push(t@));
        i = i + 1;
    }
    assert(texts(line_views(lines@)).take(lines.len() as int) =~= texts(line_views(lines@)));
    r
}

/// The lines shown for a species and its evolution chain, if it has one.
pub fn print_evolutions(
    species: &Named,
    chain: &Option<EvolutionNode>,
    lang: &str,
    fast: bool,
    secret: bool,
    all: bool,
) -> (r: Vec<String>)
    ensures
        views(r@) == evolution_text(*species, *chain, lang@, fast, secret, all),
{
    let (lines, every) = match chain {
        Some(root) => (chain_lines(root, lang, fast), all || forces_all_methods(
            &root.species.slug,
        )),
        None => {
            let mut l: Vec<Vec<String>> = Vec::new();
            l.push(one_token(display_name(species, lang, fast)));
            assert(line_views(l@) =~= seq![seq![shown(*species, lang@, fast)]]);
            (l, all)
        },
    };
    let kept = if every {
        lines
    } else {
        latest_methods(&lines)
    };
    let shown_lines = if secret {
        hide_names(&kept)
    } else {
        kept
    };
    line_texts(&shown_lines)
}

/// No two lines share a species path.
pub open spec fn paths_distinct(lines: Seq<Tokens>) -> bool {
    forall|i: int, j: int|
        0 <= i < j < lines.len() ==> species_path(#[trigger] lines[i]) != species_path(#[trigger] lines[j])
}

/// Whether `t` is one of the lines `x`.
pub open spec fn is_line_of(x: Seq<Tokens>, t: Tokens) -> bool {
    exists|j: int| 0 <= j < x.len() && #[trigger] x[j] == t
}

proof fn lemma_latest_within(x: Seq<Tokens>)
    ensures
        forall|k: int|
            0 <= k < latest_per_path(x).len() ==> is_line_of(x, #[trigger] latest_per_path(x)[k]),
    decreases x.len(),
{
    if x.len() > 0 {
        let rest = x.drop_first();
        lemma_latest_within(rest);
        let y = latest_per_path(rest);
        assert forall|k: int| 0 <= k < latest_per_path(x).len() implies is_line_of(
            x,
            #[trigger] latest_per_path(x)[k],
        ) by {
            if path_recurs(x) {
                let j = choose|j: int| 0 <= j < rest.len() && #[trigger] rest[j] == y[k];
                assert(x[j + 1] == rest[j]);
            } else if k == 0 {
                assert(x[0] == latest_per_path(x)[0]);
            } else {
                assert(latest_per_path(x)[k] == y[k - 1]);
                let j = choose|j: int| 0 <= j < rest.len() && #[trigger] rest[j] == y[k - 1];
                assert(x[j + 1] == rest[j]);
            }
        }
    }
}

proof fn lemma_latest_distinct(x: Seq<Tokens>)
    ensures
        paths_distinct(latest_per_path(x)),
    decreases x.len(),
{
    if x.len() > 0 {
        let rest = x.drop_first();
        lemma_latest_distinct(rest);
        lemma_latest_within(rest);
        let y = latest_per_path(rest);
        if !path_recurs(x) {
            let out = seq![x[0]] + y;
            assert(latest_per_path(x) == out);
            assert forall|i: int, j: int| 0 <= i < j < out.len() implies species_path(
                #[trigger] out[i],
            ) != species_path(#[trigger] out[j]) by {
                assert(out[j] == y[j - 1]);
                if i == 0 {
                    let m = choose|m: int| 0 <= m < rest.len() && #[trigger] rest[m] == y[j - 1];
                    assert(x[m + 1] == rest[m]);
                    if species_path(out[i]) == species_path(out[j]) {
                        assert(species_path(x[m + 1]) == species_path(x[0]));
                    }
                } else {
                    assert(out[i] == y[i - 1]);
                }
            }
        }
    }
}

proof fn lemma_latest_keeps(y: Seq<Tokens>)
    requires
        paths_distinct(y),
    ensures
        latest_per_path(y) == y,
    decreases y.len(),
{
    if y.len() > 0 {
        let rest = y.drop_first();
        assert(!path_recurs(y)) by {
            if path_recurs(y) {
                let j = choose|j: int| 1 <= j < y.len() && #[trigger] species_path(y[j]) == species_path(y[0]);
                assert(species_path(y[0]) != species_path(y[j]));
            }
        }
        assert forall|i: int, j: int| 0 <= i < j < rest.len() implies species_path(#[trigger] rest[i])
            != species_path(#[trigger] rest[j]) by {
            assert(rest[i] == y[i + 1] && rest[j] == y[j + 1]);
            assert(species_path(y[i + 1]) != species_path(y[j + 1]));
        }
        lemma_latest_keeps(rest);
        assert(seq![y[0]] + rest =~= y);
    }
}

/// Keeping only the latest method per species path leaves no two lines with
/// the same species path, so a second pass changes nothing.
pub proof fn lemma_collapse_idempotent(lines: Seq<Tokens>)
    ensures
        paths_distinct(collapsed(lines)),
        collapsed(collapsed(lines)) == collapsed(lines),
{
    lemma_latest_distinct(lines);
    lemma_latest_keeps(latest_per_path(lines));
}

/// `v`, when present, shows its slug as its display name in `lang`.
pub open spec fn maybe_named_as_slug(v: Option<Named>, lang: Seq<char>) -> bool {
    match v {
        Some(n) => named_as_slug(n, lang),
        None => true,
    }
}

/// Every record named by `d` shows its slug as its display name.
pub open spec fn detail_named_as_slugs(d: EvolutionDetail, lang: Seq<char>) -> bool {
    &&& named_as_slug(d.trigger, lang)
    &&& maybe_named_as_slug(d.item, lang)
    &&& maybe_named_as_slug(d.known_move, lang)
    &&& maybe_named_as_slug(d.known_move_type, lang)
    &&& maybe_named_as_slug(d.location, lang)
    &&& maybe_named_as_slug(d.party_species, lang)
    &&& maybe_named_as_slug(d.party_type, lang)
    &&& maybe_named_as_slug(d.trade_species, lang)
}

/// The species of `g` and every record its methods name show their slugs.
pub open spec fn node_named_as_slugs(g: EvolutionNode, lang: Seq<char>) -> bool {
    &&& named_as_slug(g.species, lang)
    &&& forall|k: int| 0 <= k < g.details@.len() ==> detail_named_as_slugs(#[trigger] g.details@[k], lang)
}

/// Every record of the first three stages of a chain shows its slug.
pub open spec fn chain_named_as_slugs(root: EvolutionNode, lang: Seq<char>) -> bool {
    &&& named_as_slug(root.species, lang)
    &&& forall|i: int|
        0 <= i < root.evolves_to@.len() ==> {
            &&& node_named_as_slugs(#[trigger] root.evolves_to@[i], lang)
            &&& forall|j: int|
                0 <= j < root.evolves_to@[i].evolves_to@.len() ==> node_named_as_slugs(
                    #[trigger] root.evolves_to@[i].evolves_to@[j],
                    lang,
                )
        }
}

proof fn lemma_method_fast(d: EvolutionDetail, lang: Seq<char>)
    requires
        detail_named_as_slugs(d, lang),
    ensures
        method_token(d, lang, true) == method_token(d, lang, false),
{
    assert(condition_parts(d, lang, true) == condition_parts(d, lang, false));
}

proof fn lemma_tails_fast(gs: Seq<EvolutionNode>, lang: Seq<char>)
    requires
        forall|j: int| 0 <= j < gs.len() ==> node_named_as_slugs(#[trigger] gs[j], lang),
    ensures
        tails_of(gs, lang, true) == tails_of(gs, lang, false),
    decreases gs.len(),
{
    if gs.len() > 0 {
        let rest = gs.drop_last();
        assert forall|j: int| 0 <= j < rest.len() implies node_named_as_slugs(#[trigger] rest[j], lang) by {
            assert(rest[j] == gs[j]);
        }
        lemma_tails_fast(rest, lang);
        let g = gs.last();
        assert(gs[gs.len() - 1] == g);
        assert(node_named_as_slugs(g, lang));
        assert(species_token(g.species, lang, true) == species_token(g.species, lang, false));
        assert forall|k: int| 0 <= k < g.details@.len() implies node_tails(g, lang, true)[k]
            == node_tails(g, lang, false)[k] by {
            let d = g.details@[k];
            assert(detail_named_as_slugs(d, lang));
            lemma_method_fast(d, lang);
            assert(node_tails(g, lang, true)[k] == seq![method_token(d, lang, true), species_token(g.species, lang, true)]);
            assert(node_tails(g, lang, false)[k] == seq![method_token(d, lang, false), species_token(g.species, lang, false)]);
        }
        assert(node_tails(g, lang, true) =~= node_tails(g, lang, false));
        assert(tails_of(gs, lang, true) == tails_of(rest, lang, true) + node_tails(g, lang, true));
        assert(tails_of(gs, lang, false) == tails_of(rest, lang, false) + node_tails(g, lang, false));
    }
}

proof fn lemma_details_fast(
    root: Named,
    c: EvolutionNode,
    ds: Seq<EvolutionDetail>,
    lang: Seq<char>,
)
    requires
        named_as_slug(root, lang),
        named_as_slug(c.species, lang),
        forall|k: int| 0 <= k < ds.len() ==> detail_named_as_slugs(#[trigger] ds[k], lang),
        tails_of(c.evolves_to@, lang, true) == tails_of(c.evolves_to@, lang, false),
    ensures
        details_lines(root, c, ds, lang, true) == details_lines(root, c, ds, lang, false),
    decreases ds.len(),
{
    if ds.len() > 0 {
        let rest = ds.drop_last();
        assert forall|k: int| 0 <= k < rest.len() implies detail_named_as_slugs(#[trigger] rest[k], lang) by {
            assert(rest[k] == ds[k]);
        }
        lemma_details_fast(root, c, rest, lang);
        lemma_method_fast(ds.last(), lang);
        assert(method_lines(root, c, ds.last(), lang, true) == method_lines(
            root,
            c,
            ds.last(),
            lang,
            false,
        ));
    }
}

proof fn lemma_children_fast(root: Named, cs: Seq<EvolutionNode>, lang: Seq<char>)
    requires
        named_as_slug(root, lang),
        forall|i: int|
            0 <= i < cs.len() ==> {
                &&& node_named_as_slugs(#[trigger] cs[i], lang)
                &&& forall|j: int|
                    0 <= j < cs[i].evolves_to@.len() ==> node_named_as_slugs(
                        #[trigger] cs[i].evolves_to@[j],
                        lang,
                    )
            },
    ensures
        children_lines(root, cs, lang, true) == children_lines(root, cs, lang, false),
    decreases cs.len(),
{
    if cs.len() > 0 {
        let rest = cs.drop_last();
        assert forall|i: int| 0 <= i < rest.len() implies {
            &&& node_named_as_slugs(#[trigger] rest[i], lang)
            &&& forall|j: int|
                0 <= j < rest[i].evolves_to@.len() ==> node_named_as_slugs(
                    #[trigger] rest[i].evolves_to@[j],
                    lang,
                )
        } by {
            assert(rest[i] == cs[i]);
        }
        lemma_children_fast(root, rest, lang);
        let c = cs.last();
        assert(node_named_as_slugs(c, lang));
        lemma_tails_fast(c.evolves_to@, lang);
        lemma_details_fast(root, c, c.details@, lang);
    }
}

/// Fast mode only swaps display names for slugs: where every record already
/// shows its slug as its display name, fast and localized output agree.
pub proof fn lemma_evolutions_fast_is_slugs(
    species: Named,
    chain: Option<EvolutionNode>,
    lang: Seq<char>,
    secret: bool,
    all: bool,
)
    requires
        named_as_slug(species, lang),
        chain matches Some(root) ==> chain_named_as_slugs(root, lang),
    ensures
        evolution_text(species, chain, lang, true, secret, all) == evolution_text(
            species,
            chain,
            lang,
            false,
            secret,
            all,
        ),
{
    match chain {
        Some(root) => {
            lemma_children_fast(root.species, root.evolves_to@, lang);
            assert(chain_tokens(root, lang, true) == chain_tokens(root, lang, false));
        },
        None => {},
    }
}

/// Hiding names replaces every species token, the even-indexed ones, by
/// `MON` and leaves every method token as it was.
pub proof fn lemma_secrecy_substitution(lines: Seq<Tokens>)
    ensures
        hidden(lines).len() == lines.len(),
        forall|i: int, k: int|
            0 <= i < lines.len() && 0 <= k < lines[i].len() ==> #[trigger] hidden(lines)[i][k] == if k
                % 2 == 0 {
                "MON"@
            } else {
                lines[i][k]
            },
        forall|i: int| 0 <= i < lines.len() ==> (#[trigger] hidden(lines)[i]).len() == lines[i].len(),
{
}

/// Lines that all reach the same species path collapse to the last of them:
/// only the latest method survives.
pub proof fn lemma_same_path_keeps_last(lines: Seq<Tokens>)
    requires
        lines.len() > 0,
        forall|i: int| 0 <= i < lines.len() ==> species_path(#[trigger] lines[i]) == species_path(lines[0]),
    ensures
        collapsed(lines) == seq![lines.last()],
    decreases lines.len(),
{
    let rest = lines.drop_first();
    if lines.len() > 1 {
        assert forall|i: int| 0 <= i < rest.len() implies species_path(#[trigger] rest[i])
            == species_path(rest[0]) by {
            assert(rest[i] == lines[i + 1]);
            assert(species_path(lines[i + 1]) == species_path(lines[0]));
            assert(species_path(lines[1]) == species_path(lines[0]));
        }
        assert(species_path(lines[1]) == species_path(lines[0]));
        assert(path_recurs(lines));
        lemma_same_path_keeps_last(rest);
        assert(rest.last() == lines.last());
    } else {
        assert(!path_recurs(lines));
        assert(rest =~= Seq::<Tokens>::empty());
        assert(seq![lines[0]] + latest_per_path(rest) =~= seq![lines.last()]);
    }
}

/// A named condition that has no name in `lang` is shown by its slug, so
/// the method still renders: `key: slug`.
pub proof fn lemma_condition_falls_back(key: Seq<char>, n: Named, lang: Seq<char>, fast: bool)
    requires
        forall|i: int| 0 <= i < n.names@.len() ==> !speaks(#[trigger] n.names@[i], lang),
    ensures
        named_part(key, Some(n), lang, fast) == seq![key + n.slug@],
{
    lemma_fallback_to_slug(n, lang);
}

/// Secrecy only hides species, after the lines are chosen: the secret
/// lines are the non-secret lines, as many and in the same order, with each
/// species token (the even-indexed ones) replaced by `MON` and every method
/// token left as it is. This holds whether or not every method is shown, and
/// with or without `fast`.
pub proof fn lemma_secret_hides_only_species(
    species: Named,
    chain: Option<EvolutionNode>,
    lang: Seq<char>,
    fast: bool,
    all: bool,
)
    ensures
        evolution_text(species, chain, lang, fast, true, all) == texts(
            hidden(kept_lines(species, chain, lang, fast, all)),
        ),
        evolution_text(species, chain, lang, fast, false, all) == texts(
            kept_lines(species, chain, lang, fast, all),
        ),
        hidden(kept_lines(species, chain, lang, fast, all)).len() == kept_lines(
            species,
            chain,
            lang,
            fast,
            all,
        ).len(),
        forall|i: int, k: int|
            0 <= i < kept_lines(species, chain, lang, fast, all).len() && 0 <= k < kept_lines(
                species,
                chain,
                lang,
                fast,
                all,
            )[i].len() ==> #[trigger] hidden(kept_lines(species, chain, lang, fast, all))[i][k] == if k
                % 2 == 0 {
                "MON"@
            } else {
                kept_lines(species, chain, lang, fast, all)[i][k]
            },
{
    lemma_secrecy_substitution(kept_lines(species, chain, lang, fast, all));
}

/// The line `root -> method -> child` for the way `d` of reaching `c`.
pub open spec fn direct_line(root: Named, c: EvolutionNode, d: EvolutionDetail, lang: Seq<char>, fast: bool) -> Tokens {
    seq![
        species_token(root, lang, fast),
        method_token(d, lang, fast),
        species_token(c.species, lang, fast),
    ]
}

/// The direct lines for the ways `ds` of reaching `c`, in order.
pub open spec fn direct_lines_for(root: Named, c: EvolutionNode, ds: Seq<EvolutionDetail>, lang: Seq<char>, fast: bool) -> Seq<Tokens>
    decreases ds.len(),
{
    if ds.len() == 0 {
        Seq::empty()
    } else {
        direct_lines_for(root, c, ds.drop_last(), lang, fast) + seq![direct_line(root, c, ds.last(), lang, fast)]
    }
}

/// The lines `root -> method -> child`, one per way of reaching `c`.
pub open spec fn direct_lines_of(root: Named, c: EvolutionNode, lang: Seq<char>, fast: bool) -> Seq<Tokens> {
    direct_lines_for(root, c, c.details@, lang, fast)
}

/// The direct lines of each of `cs`, in order.
pub open spec fn direct_lines(root: Named, cs: Seq<EvolutionNode>, lang: Seq<char>, fast: bool) -> Seq<Tokens>
    decreases cs.len(),
{
    if cs.len() == 0 {
        Seq::empty()
    } else {
        direct_lines(root, cs.drop_last(), lang, fast) + direct_lines_of(root, cs.last(), lang, fast)
    }
}

/// The number of documented ways to reach each of `cs`, summed.
pub open spec fn method_count(cs: Seq<EvolutionNode>) -> nat
    decreases cs.len(),
{
    if cs.len() == 0 {
        0
    } else {
        method_count(cs.drop_last()) + cs.last().details@.len()
    }
}

/// A child that ends its branch, has at least one documented method, and no
/// exceptional presentation.
pub open spec fn plain_child(c: EvolutionNode) -> bool {
    c.evolves_to@.len() == 0 && c.details@.len() > 0 && exception_of(c.species.slug@) is None
}

proof fn lemma_details_direct(root: Named, c: EvolutionNode, ds: Seq<EvolutionDetail>, lang: Seq<char>, fast: bool)
    requires
        c.evolves_to@.len() == 0,
        exception_of(c.species.slug@) is None,
    ensures
        details_lines(root, c, ds, lang, fast).0 == Seq::<Tokens>::empty(),
        details_lines(root, c, ds, lang, fast).1 == direct_lines_for(root, c, ds, lang, fast),
        direct_lines_for(root, c, ds, lang, fast).len() == ds.len(),
    decreases ds.len(),
{
    if ds.len() > 0 {
        lemma_details_direct(root, c, ds.drop_last(), lang, fast);
        let tails = tails_of(c.evolves_to@, lang, fast);
        assert(tails.len() == 0);
        let line = direct_line(root, c, ds.last(), lang, fast);
        assert(extended(line, tails) == seq![line]);
        assert(method_lines(root, c, ds.last(), lang, fast) == (Seq::<Tokens>::empty(), seq![line]));
        assert(Seq::<Tokens>::empty() + Seq::<Tokens>::empty() =~= Seq::<Tokens>::empty());
    }
}

proof fn lemma_children_direct(root: Named, cs: Seq<EvolutionNode>, lang: Seq<char>, fast: bool)
    requires
        forall|i: int| 0 <= i < cs.len() ==> plain_child(#[trigger] cs[i]),
    ensures
        children_lines(root, cs, lang, fast).0 == Seq::<Tokens>::empty(),
        children_lines(root, cs, lang, fast).1 == direct_lines(root, cs, lang, fast),
        direct_lines(root, cs, lang, fast).len() == method_count(cs),
    decreases cs.len(),
{
    if cs.len() > 0 {
        let rest = cs.drop_last();
        assert forall|i: int| 0 <= i < rest.len() implies plain_child(#[trigger] rest[i]) by {
            assert(rest[i] == cs[i]);
        }
        lemma_children_direct(root, rest, lang, fast);
        let c = cs.last();
        assert(plain_child(cs[cs.len() - 1]));
        lemma_details_direct(root, c, c.details@, lang, fast);
        assert(child_lines(root, c, lang, fast) == details_lines(root, c, c.details@, lang, fast));
        assert(Seq::<Tokens>::empty() + Seq::<Tokens>::empty() =~= Seq::<Tokens>::empty());
    }
}

/// A chain whose second stages end there, each with documented methods and
/// no exceptional presentation, gives exactly one line per method, in order:
/// the base species, the method, the evolved species. With every method
/// shown, these are the lines listed.
pub proof fn lemma_one_line_per_method(root: EvolutionNode, lang: Seq<char>, fast: bool)
    requires
        root.evolves_to@.len() > 0,
        forall|i: int| 0 <= i < root.evolves_to@.len() ==> plain_child(#[trigger] root.evolves_to@[i]),
    ensures
        chain_tokens(root, lang, fast) == direct_lines(root.species, root.evolves_to@, lang, fast),
        chain_tokens(root, lang, fast).len() == method_count(root.evolves_to@),
        kept_lines(root.species, Some(root), lang, fast, true) == direct_lines(
            root.species,
            root.evolves_to@,
            lang,
            fast,
        ),
{
    lemma_children_direct(root.species, root.evolves_to@, lang, fast);
    assert(Seq::<Tokens>::empty().reverse() + direct_lines(root.species, root.evolves_to@, lang, fast)
        =~= direct_lines(root.species, root.evolves_to@, lang, fast));
}

/// No line after `lines[i]` has its species path.
pub open spec fn last_of_its_path(lines: Seq<Tokens>, i: int) -> bool {
    forall|j: int| i < j < lines.len() ==> species_path(#[trigger] lines[j]) != species_path(lines[i])
}

/// Some line of `lines` has the species path `p`.
pub open spec fn has_path(lines: Seq<Tokens>, p: Tokens) -> bool {
    exists|k: int| 0 <= k < lines.len() && #[trigger] species_path(lines[k]) == p
}

/// Whether `t` is a line of `lines` with no later line of the same path.
pub open spec fn is_last_of_path(lines: Seq<Tokens>, t: Tokens) -> bool {
    exists|i: int| 0 <= i < lines.len() && #[trigger] lines[i] == t && last_of_its_path(lines, i)
}

proof fn lemma_kept_are_last(x: Seq<Tokens>)
    ensures
        forall|k: int| 0 <= k < latest_per_path(x).len() ==> is_last_of_path(x, #[trigger] latest_per_path(x)[k]),
    decreases x.len(),
{
    if x.len() > 0 {
        let rest = x.drop_first();
        lemma_kept_are_last(rest);
        let y = latest_per_path(rest);
        let out = latest_per_path(x);
        assert forall|k: int| 0 <= k < out.len() implies is_last_of_path(x, #[trigger] out[k]) by {
            if !path_recurs(x) && k == 0 {
                assert(out[0] == x[0]);
                assert forall|j: int| 0 < j < x.len() implies species_path(#[trigger] x[j]) != species_path(x[0]) by {
                    if species_path(x[j]) == species_path(x[0]) {
                        assert(path_recurs(x));
                    }
                }
                assert(last_of_its_path(x, 0));
            } else {
                let kk = if path_recurs(x) { k } else { k - 1 };
                assert(out[k] == y[kk]);
                assert(is_last_of_path(rest, y[kk]));
                let i = choose|i: int| 0 <= i < rest.len() && #[trigger] rest[i] == y[kk] && last_of_its_path(rest, i);
                assert(x[i + 1] == rest[i]);
                assert forall|j: int| i + 1 < j < x.len() implies species_path(#[trigger] x[j]) != species_path(x[i + 1]) by {
                    assert(x[j] == rest[j - 1]);
                }
                assert(last_of_its_path(x, i + 1));
            }
        }
    }
}

proof fn lemma_last_are_kept(x: Seq<Tokens>)
    ensures
        forall|i: int| 0 <= i < x.len() && last_of_its_path(x, i) ==> is_line_of(latest_per_path(x), #[trigger] x[i]),
    decreases x.len(),
{
    if x.len() > 0 {
        let rest = x.drop_first();
        lemma_last_are_kept(rest);
        let y = latest_per_path(rest);
        let out = latest_per_path(x);
        assert forall|i: int| 0 <= i < x.len() && last_of_its_path(x, i) implies is_line_of(out, #[trigger] x[i]) by {
            if i == 0 {
                assert(!path_recurs(x)) by {
                    if path_recurs(x) {
                        let j = choose|j: int| 1 <= j < x.len() && #[trigger] species_path(x[j]) == species_path(x[0]);
                        assert(species_path(x[j]) != species_path(x[0]));
                    }
                }
                assert(out[0] == x[0]);
            } else {
                assert(x[i] == rest[i - 1]);
                assert forall|j: int| i - 1 < j < rest.len() implies species_path(#[trigger] rest[j]) != species_path(rest[i - 1]) by {
                    assert(rest[j] == x[j + 1]);
                }
                assert(last_of_its_path(rest, i - 1));
                assert(is_line_of(y, rest[i - 1]));
                let k = choose|k: int| 0 <= k < y.len() && #[trigger] y[k] == rest[i - 1];
                if path_recurs(x) {
                    assert(out[k] == y[k]);
                } else {
                    assert(out[k + 1] == y[k]);
                }
            }
        }
    }
}

proof fn lemma_paths_survive(x: Seq<Tokens>)
    ensures
        forall|i: int| 0 <= i < x.len() ==> has_path(latest_per_path(x), #[trigger] species_path(x[i])),
    decreases x.len(),
{
    if x.len() > 0 {
        let rest = x.drop_first();
        lemma_paths_survive(rest);
        let y = latest_per_path(rest);
        let out = latest_per_path(x);
        assert forall|i: int| 0 <= i < x.len() implies has_path(out, #[trigger] species_path(x[i])) by {
            let src = if i == 0 && path_recurs(x) {
                choose|j: int| 1 <= j < x.len() && #[trigger] species_path(x[j]) == species_path(x[0])
            } else {
                i
            };
            if i == 0 && !path_recurs(x) {
                assert(out[0] == x[0]);
            } else {
                assert(species_path(x[src]) == species_path(x[i]));
                assert(rest[src - 1] == x[src]);
                assert(has_path(y, species_path(rest[src - 1])));
                let k = choose|k: int| 0 <= k < y.len() && #[trigger] species_path(y[k]) == species_path(rest[src - 1]);
                if path_recurs(x) {
                    assert(out[k] == y[k]);
                } else {
                    assert(out[k + 1] == y[k]);
                }
            }
        }
    }
}

/// Collapsing keeps exactly the last line of each species path: every kept
/// line is the last of its path among the input lines, every such last line
/// is kept, and every path of the input is still present.
pub proof fn lemma_collapse_keeps_last_of_each_path(x: Seq<Tokens>)
    ensures
        forall|k: int| 0 <= k < collapsed(x).len() ==> is_last_of_path(x, #[trigger] collapsed(x)[k]),
        forall|i: int| 0 <= i < x.len() && last_of_its_path(x, i) ==> is_line_of(collapsed(x), #[trigger] x[i]),
        forall|i: int| 0 <= i < x.len() ==> has_path(collapsed(x), #[trigger] species_path(x[i])),
{
    lemma_kept_are_last(x);
    lemma_last_are_kept(x);
    lemma_paths_survive(x);
}

} // verus!
