//! Localized display names, with total fallback to the canonical slug.

use vstd::prelude::*;
use crate::text::{views, lemma_views_push};

verus! {

/// One localized name of a record: the code of its language, or `None` when
/// that language could not be looked up, and the display name itself.
pub struct LocalName {
    pub language: Option<String>,
    pub name: String,
}

/// A record as far as naming goes: its canonical slug and its localized names.
///
/// A record whose names could not be fetched is given with no names.
pub struct Named {
    pub slug: String,
    pub names: Vec<LocalName>,
}

/// One form of a creature: whether it is the default form, and its names.
pub struct FormNames {
    pub is_default: bool,
    pub names: Vec<LocalName>,
}

/// What naming a creature reads: its slug, its forms (`None` when they could
/// not be fetched) and its species record.
pub struct PokemonNames {
    pub slug: String,
    pub forms: Option<Vec<FormNames>>,
    pub species: Named,
}

/// Whether `n` is given in the language `lang`.
pub open spec fn speaks(n: LocalName, lang: Seq<char>) -> bool {
    match n.language {
        Some(l) => l@ == lang,
        None => false,
    }
}

/// The name in `lang` that comes last in `names`, or `slug` when there is none.
pub open spec fn resolved(slug: Seq<char>, names: Seq<LocalName>, lang: Seq<char>) -> Seq<char>
    decreases names.len(),
{
    if names.len() == 0 {
        slug
    } else if speaks(names.last(), lang) {
        names.last().name@
    } else {
        resolved(slug, names.drop_last(), lang)
    }
}

/// The display name of `record` in `lang`.
pub open spec fn name_of(record: Named, lang: Seq<char>) -> Seq<char> {
    resolved(record.slug@, record.names@, lang)
}

/// The name shown for `record`: its slug in fast mode, else its display name.
pub open spec fn shown(record: Named, lang: Seq<char>, fast: bool) -> Seq<char> {
    if fast {
        record.slug@
    } else {
        name_of(record, lang)
    }
}

/// The shown names of records.
pub open spec fn shown_all(list: Seq<Named>, lang: Seq<char>, fast: bool) -> Seq<Seq<char>> {
    list.map_values(|n: Named| shown(n, lang, fast))
}

/// `n` shows its slug as its display name in `lang`.
pub open spec fn named_as_slug(n: Named, lang: Seq<char>) -> bool {
    name_of(n, lang) == n.slug@
}

/// A creature shows its slug as its display name in `lang`.
pub open spec fn pokemon_named_as_slug(p: PokemonNames, lang: Seq<char>) -> bool {
    pokemon_name_of(p, lang) == p.slug@
}

/// Every record of `list` shows its slug as its display name in `lang`.
pub open spec fn all_named_as_slugs(list: Seq<Named>, lang: Seq<char>) -> bool {
    forall|i: int| 0 <= i < list.len() ==> named_as_slug(#[trigger] list[i], lang)
}

/// Where every record shows its slug as its display name, fast mode shows
/// the same names.
pub proof fn lemma_shown_all_fast(list: Seq<Named>, lang: Seq<char>)
    requires
        all_named_as_slugs(list, lang),
    ensures
        shown_all(list, lang, true) == shown_all(list, lang, false),
{
    assert(shown_all(list, lang, true) =~= shown_all(list, lang, false));
}

/// The last name in `lang` in `names`, if any: as for any record, the last
/// match wins.
pub open spec fn last_in(names: Seq<LocalName>, lang: Seq<char>) -> Option<Seq<char>>
    decreases names.len(),
{
    if names.len() == 0 {
        None
    } else if speaks(names.last(), lang) {
        Some(names.last().name@)
    } else {
        last_in(names.drop_last(), lang)
    }
}

/// The first default form that carries any names, if any.
pub open spec fn named_default(forms: Seq<FormNames>) -> Option<FormNames>
    decreases forms.len(),
{
    if forms.len() == 0 {
        None
    } else if forms[0].is_default && forms[0].names@.len() > 0 {
        Some(forms[0])
    } else {
        named_default(forms.drop_first())
    }
}

/// The display name of a creature: the last name in `lang` of its first
/// named default form; failing that, the display name of its species; and
/// the creature's own slug when its forms could not be fetched.
pub open spec fn pokemon_name_of(p: PokemonNames, lang: Seq<char>) -> Seq<char> {
    match p.forms {
        None => p.slug@,
        Some(forms) => match named_default(forms@) {
            Some(f) => match last_in(f.names@, lang) {
                Some(n) => n,
                None => name_of(p.species, lang),
            },
            None => name_of(p.species, lang),
        },
    }
}

/// The name shown for a creature: its slug in fast mode, else its display name.
pub open spec fn pokemon_shown(p: PokemonNames, lang: Seq<char>, fast: bool) -> Seq<char> {
    if fast {
        p.slug@
    } else {
        pokemon_name_of(p, lang)
    }
}

fn is_in(n: &LocalName, lang: &String) -> (r: bool)
    ensures
        r == speaks(*n, lang@),
{
    match &n.language {
        Some(l) => *l == *lang,
        None => false,
    }
}

/// The display name of `record` in `lang`: the last of its names given in
/// `lang`, or its slug when it has none in that language.
pub fn resolve_name(record: &Named, lang: &str) -> (r: String)
    ensures
        r@ == name_of(*record, lang@),
{
    let lang = String::from_str(lang);
    let mut r = record.slug.clone();
    let mut i: usize = 0;
    while i < record.names.len()
        invariant
            0 <= i <= record.names.len(),
            r@ == resolved(record.slug@, record.names@.take(i as int), lang@),
        decreases record.names.len() - i,
    {
        assert(record.names@.take(i + 1).drop_last() =~= record.names@.take(i as int));
        if is_in(&record.names[i], &lang) {
            r = record.names[i].name.clone();
        }
        i = i + 1;
    }
    assert(record.names@.take(record.names.len() as int) =~= record.names@);
    r
}

/// The name shown for `record`: its slug when `fast`, else its display name.
pub fn display_name(record: &Named, lang: &str, fast: bool) -> (r: String)
    ensures
        r@ == shown(*record, lang@, fast),
{
    if fast {
        record.slug.clone()
    } else {
        resolve_name(record, lang)
    }
}

fn last_name_in(names: &Vec<LocalName>, lang: &String) -> (r: Option<String>)
    ensures
        r matches Some(s) ==> last_in(names@, lang@) == Some(s@),
        r is None ==> last_in(names@, lang@) is None,
{
    let mut r: Option<String> = None;
    let mut i: usize = 0;
    while i < names.len()
        invariant
            0 <= i <= names.len(),
            r matches Some(s) ==> last_in(names@.take(i as int), lang@) == Some(s@),
            r is None ==> last_in(names@.take(i as int), lang@) is None,
        decreases names.len() - i,
    {
        assert(names@.take(i + 1).drop_last() =~= names@.take(i as int));
        assert(names@.take(i + 1).last() == names@[i as int]);
        if is_in(&names[i], lang) {
            r = Some(names[i].name.clone());
        }
        i = i + 1;
    }
    assert(names@.take(names.len() as int) =~= names@);
    r
}

/// The display name of a creature in `lang`: that of its default form where
/// the form has names of its own, else that of its species.
pub fn pokemon_name(p: &PokemonNames, lang: &str) -> (r: String)
    ensures
        r@ == pokemon_name_of(*p, lang@),
{
    let lang_s = String::from_str(lang);
    match &p.forms {
        None => p.slug.clone(),
        Some(forms) => {
            let mut i: usize = 0;
            assert(forms@.skip(0) =~= forms@);
            while i < forms.len()
                invariant
                    0 <= i <= forms.len(),
                    lang_s@ == lang@,
                    p.forms == Some(*forms),
                    named_default(forms@) == named_default(forms@.skip(i as int)),
                decreases forms.len() - i,
            {
                assert(forms@.skip(i as int).drop_first() =~= forms@.skip(i + 1));
                let f = &forms[i];
                if f.is_default && f.names.len() > 0 {
                    assert(forms@.skip(i as int)[0] == forms@[i as int]);
                    assert(named_default(forms@) == Some(forms@[i as int]));
                    let found = last_name_in(&f.names, &lang_s);
                    assert(lang_s@ == lang@);
                    assert(p.forms == Some(*forms));
                    match found {
                        Some(n) => {
                            assert(last_in(f.names@, lang@) == Some(n@));
                            return n;
                        },
                        None => {
                            return resolve_name(&p.species, lang);
                        },
                    }
                }
                i = i + 1;
            }
            resolve_name(&p.species, lang)
        },
    }
}

/// The name shown for a creature: its slug when `fast`, else its display name.
pub fn pokemon_display_name(p: &PokemonNames, lang: &str, fast: bool) -> (r: String)
    ensures
        r@ == pokemon_shown(*p, lang@, fast),
{
    if fast {
        p.slug.clone()
    } else {
        pokemon_name(p, lang)
    }
}

/// The shown names of records, in order.
pub fn display_names(list: &Vec<Named>, lang: &str, fast: bool) -> (r: Vec<String>)
    ensures
        views(r@) == shown_all(list@, lang@, fast),
{
    let mut r: Vec<String> = Vec::new();
    let mut i: usize = 0;
    while i < list.len()
        invariant
            0 <= i <= list.len(),
            views(r@) =~= shown_all(list@, lang@, fast).take(i as int),
        decreases list.len() - i,
    {
        let n = display_name(&list[i], lang, fast);
        proof {
            lemma_views_push(r@, n);
        }
        r.push(n);
        assert(shown_all(list@, lang@, fast).take(i + 1) =~= shown_all(list@, lang@, fast).take(
            i as int,
        ).push(n@));
        i = i + 1;
    }
    assert(shown_all(list@, lang@, fast).take(list.len() as int) =~= shown_all(list@, lang@, fast));
    r
}

/// A record that has no name in the requested language resolves to its
/// canonical slug: resolution always yields a value.
pub proof fn lemma_fallback_to_slug(record: Named, lang: Seq<char>)
    requires
        forall|i: int| 0 <= i < record.names@.len() ==> !speaks(#[trigger] record.names@[i], lang),
    ensures
        name_of(record, lang) == record.slug@,
{
    lemma_resolved_without(record.slug@, record.names@, lang);
}

proof fn lemma_resolved_without(slug: Seq<char>, names: Seq<LocalName>, lang: Seq<char>)
    requires
        forall|i: int| 0 <= i < names.len() ==> !speaks(#[trigger] names[i], lang),
    ensures
        resolved(slug, names, lang) == slug,
    decreases names.len(),
{
    if names.len() > 0 {
        assert(!speaks(names[names.len() - 1], lang));
        let rest = names.drop_last();
        assert forall|i: int| 0 <= i < rest.len() implies !speaks(#[trigger] rest[i], lang) by {
            assert(rest[i] == names[i]);
        }
        lemma_resolved_without(slug, rest, lang);
    }
}

} // verus!
