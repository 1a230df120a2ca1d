//! The addresses of reference web pages for creatures, regions, moves,
//! abilities and items.
//!
//! Names are lowercased and, but for regions, stripped of spaces. Each page
//! comes with the subject that an error message about it names.

use vstd::prelude::*;
use crate::text::{decimal, digits, spaces_removed, zero_padded, without_spaces, pad_zeros, signed_text, unsigned_text};

verus! {

/// A reference page: its address, and what it is about.
pub struct DexPage {
    pub url: String,
    pub subject: String,
}

/// The lowercase form of a string, as the standard library computes it.
pub uninterp spec fn lowercase_of(s: Seq<char>) -> Seq<char>;

/// Relies on `str::to_lowercase`: its result depends on the characters alone.
#[verifier::external_body]
fn lowercase(s: &str) -> (r: String)
    ensures
        r@ == lowercase_of(s@),
{
    s.to_lowercase()
}

/// A page's address and subject, or the error message.
pub open spec fn page_view(r: Result<DexPage, String>) -> Result<(Seq<char>, Seq<char>), Seq<char>> {
    match r {
        Ok(p) => Ok((p.url@, p.subject@)),
        Err(e) => Err(e@),
    }
}

/// The message for a generation that has no page.
pub open spec fn bad_generation(g: i64) -> Seq<char> {
    "invalid generation: "@ + decimal(g as int)
}

/// The directory suffix of the per-generation creature pages, for
/// generations one to seven.
pub open spec fn pokedex_suffix(g: i64) -> Seq<char> {
    if g == 1 {
        Seq::empty()
    } else if g == 2 {
        "-gs"@
    } else if g == 3 {
        "-rs"@
    } else if g == 4 {
        "-dp"@
    } else if g == 5 {
        "-bw"@
    } else if g == 6 {
        "-xy"@
    } else {
        "-sm"@
    }
}

/// The page of the creature `p` (lowercase, without spaces): the current
/// page without a generation or with generation zero; by name for
/// generations eight and nine; by its national number, three digits at
/// least, for generations one to seven.
pub open spec fn pokedex_spec(p: Seq<char>, generation: Option<i64>, number: Option<u64>) -> Result<
    (Seq<char>, Seq<char>),
    Seq<char>,
> {
    match generation {
        None => Ok(("https://www.serebii.net/pokemon/"@ + p, p)),
        Some(g) => if g == 0 {
            Ok(("https://www.serebii.net/pokemon/"@ + p, p))
        } else if g == 8 {
            Ok(("https://www.serebii.net/pokedex-swsh/"@ + p, p))
        } else if g == 9 {
            Ok(("https://www.serebii.net/pokedex-sv/"@ + p, p))
        } else if 1 <= g <= 7 {
            match number {
                None => Err("invalid pokemon species: "@ + p),
                Some(n) => Ok(
                    (
                        "https://www.serebii.net/pokedex"@ + pokedex_suffix(g) + "/"@ + zero_padded(
                            digits(n as nat),
                            3,
                        ) + ".shtml"@,
                        p,
                    ),
                ),
            }
        } else {
            Err(bad_generation(g))
        },
    }
}

/// The directory of a generation's region pages.
pub open spec fn pokearth_dir(generation: Option<i64>) -> Result<Seq<char>, Seq<char>> {
    match generation {
        None => Ok(Seq::empty()),
        Some(g) => if g == 0 {
            Ok(Seq::empty())
        } else if g == 1 {
            Ok("1st/"@)
        } else if g == 2 {
            Ok("2nd/"@)
        } else if g == 3 {
            Ok("3rd/"@)
        } else if 4 <= g <= 9 {
            Ok(decimal(g as int) + "th/"@)
        } else {
            Err(bad_generation(g))
        },
    }
}

/// The page of the region `region` (lowercase), or of an area in it
/// (lowercase, without spaces) in a generation; the generation only counts
/// for an area.
pub open spec fn pokearth_spec(region: Seq<char>, area: Option<Seq<char>>, generation: Option<i64>) -> Result<
    (Seq<char>, Seq<char>),
    Seq<char>,
> {
    let base = "https://www.serebii.net/pokearth/"@ + region + "/"@;
    match area {
        None => Ok((base, region)),
        Some(a) => match pokearth_dir(generation) {
            Err(e) => Err(e),
            Ok(d) => Ok((base + d + a + ".shtml"@, a)),
        },
    }
}

/// An area's name without spaces, when an area is given.
pub open spec fn area_view(area: Option<&str>) -> Option<Seq<char>> {
    match area {
        Some(a) => Some(spaces_removed(a@)),
        None => None,
    }
}

/// The directory suffix of a generation's move pages.
pub open spec fn attackdex_suffix(g: i64) -> Result<Seq<char>, Seq<char>> {
    if g == 1 {
        Ok("-rby"@)
    } else if g == 2 {
        Ok("-gs"@)
    } else if g == 3 {
        Ok(Seq::empty())
    } else if g == 4 {
        Ok("-dp"@)
    } else if g == 5 {
        Ok("-bw"@)
    } else if g == 6 {
        Ok("-xy"@)
    } else if g == 7 {
        Ok("-sm"@)
    } else if g == 8 {
        Ok("-swsh"@)
    } else if g == 9 {
        Ok("-sv"@)
    } else {
        Err(bad_generation(g))
    }
}

/// The page of the move `m` (lowercase, without spaces) in a generation,
/// the latest when none is given.
pub open spec fn attackdex_spec(m: Seq<char>, generation: Option<i64>) -> Result<
    (Seq<char>, Seq<char>),
    Seq<char>,
> {
    let g = match generation {
        None => 9,
        Some(g) => g,
    };
    match attackdex_suffix(g) {
        Err(e) => Err(e),
        Ok(s) => Ok(("https://www.serebii.net/attackdex"@ + s + "/"@ + m + ".shtml"@, m)),
    }
}

/// The page of the ability `a` (lowercase, without spaces).
pub open spec fn abilitydex_spec(a: Seq<char>) -> (Seq<char>, Seq<char>) {
    ("https://www.serebii.net/abilitydex/"@ + a + ".shtml"@, a)
}

/// The page of the item `i` (lowercase, without spaces).
pub open spec fn itemdex_spec(i: Seq<char>) -> (Seq<char>, Seq<char>) {
    ("https://www.serebii.net/itemdex/"@ + i + ".shtml"@, i)
}

fn page(url: String, subject: String) -> (r: Result<DexPage, String>)
    ensures
        page_view(r) == Ok::<(Seq<char>, Seq<char>), Seq<char>>((url@, subject@)),
{
    Ok(DexPage { url, subject })
}

fn generation_error(g: i64) -> (r: Result<DexPage, String>)
    ensures
        page_view(r) == Err::<(Seq<char>, Seq<char>), Seq<char>>(bad_generation(g)),
{
    let mut e = String::from_str("invalid generation: ");
    let n = signed_text(g);
    e.append(n.as_str());
    Err(e)
}

/// The page of a creature whose name is already lowercase; `number` is its
/// national number, which the pages of generations one to seven need.
pub fn pokedex_page_lowered(pokemon: &str, generation: Option<i64>, number: Option<u64>) -> (r: Result<
    DexPage,
    String,
>)
    ensures
        page_view(r) == pokedex_spec(spaces_removed(pokemon@), generation, number),
{
    let p = without_spaces(pokemon);
    let g = match generation {
        None => 0,
        Some(g) => g,
    };
    if g == 0 {
        let mut url = String::from_str("https://www.serebii.net/pokemon/");
        url.append(p.as_str());
        page(url, p)
    } else if g == 8 {
        let mut url = String::from_str("https://www.serebii.net/pokedex-swsh/");
        url.append(p.as_str());
        page(url, p)
    } else if g == 9 {
        let mut url = String::from_str("https://www.serebii.net/pokedex-sv/");
        url.append(p.as_str());
        page(url, p)
    } else if 1 <= g && g <= 7 {
        match number {
            None => {
                let mut e = String::from_str("invalid pokemon species: ");
                e.append(p.as_str());
                Err(e)
            },
            Some(n) => {
                let suffix = if g == 1 {
                    ""
                } else if g == 2 {
                    "-gs"
                } else if g == 3 {
                    "-rs"
                } else if g == 4 {
                    "-dp"
                } else if g == 5 {
                    "-bw"
                } else if g == 6 {
                    "-xy"
                } else {
                    "-sm"
                };
                proof {
                    reveal_strlit("");
                }
                assert(suffix@ == pokedex_suffix(g));
                let num = unsigned_text(n as u128);
                let padded = pad_zeros(num.as_str(), 3);
                let mut url = String::from_str("https://www.serebii.net/pokedex");
                url.append(suffix);
                url.append("/");
                url.append(padded.as_str());
                url.append(".shtml");
                page(url, p)
            },
        }
    } else {
        generation_error(g)
    }
}

/// The page of a creature, by name; `number` is its national number, which
/// the pages of generations one to seven need.
pub fn pokedex_page(pokemon: &str, generation: Option<i64>, number: Option<u64>) -> (r: Result<
    DexPage,
    String,
>)
    ensures
        page_view(r) == pokedex_spec(spaces_removed(lowercase_of(pokemon@)), generation, number),
{
    let lowered = lowercase(pokemon);
    pokedex_page_lowered(lowered.as_str(), generation, number)
}

fn pokearth_directory(generation: Option<i64>) -> (r: Result<String, String>)
    ensures
        match r {
            Ok(d) => pokearth_dir(generation) == Ok::<Seq<char>, Seq<char>>(d@),
            Err(e) => pokearth_dir(generation) == Err::<Seq<char>, Seq<char>>(e@),
        },
{
    let g = match generation {
        None => 0,
        Some(g) => g,
    };
    if g == 0 {
        Ok(String::new())
    } else if g == 1 {
        Ok(String::from_str("1st/"))
    } else if g == 2 {
        Ok(String::from_str("2nd/"))
    } else if g == 3 {
        Ok(String::from_str("3rd/"))
    } else if 4 <= g && g <= 9 {
        let mut d = signed_text(g);
        d.append("th/");
        Ok(d)
    } else {
        let mut e = String::from_str("invalid generation: ");
        let n = signed_text(g);
        e.append(n.as_str());
        Err(e)
    }
}

/// The page of a region whose name, and whose area's name if any, are
/// already lowercase.
pub fn pokearth_page_lowered(region: &str, area: Option<&str>, generation: Option<i64>) -> (r: Result<
    DexPage,
    String,
>)
    ensures
        page_view(r) == pokearth_spec(region@, area_view(area), generation),
{
    let mut url = String::from_str("https://www.serebii.net/pokearth/");
    url.append(region);
    url.append("/");
    if area.is_none() {
        let subject = String::from_str(region);
        return page(url, subject);
    }
    let a = without_spaces(area.unwrap());
    let dir = match pokearth_directory(generation) {
        Ok(d) => d,
        Err(e) => {
            return Err(e);
        },
    };
    let ghost before = url@;
    url.append(dir.as_str());
    url.append(a.as_str());
    url.append(".shtml");
    assert(url@ =~= before + dir@ + a@ + ".shtml"@);
    page(url, a)
}

/// The page of a region, and of an area in it when one is given.
pub fn pokearth_page(region: &str, area: Option<&str>, generation: Option<i64>) -> (r: Result<
    DexPage,
    String,
>)
    ensures
        page_view(r) == pokearth_spec(
            lowercase_of(region@),
            match area {
                Some(a) => Some(spaces_removed(lowercase_of(a@))),
                None => None,
            },
            generation,
        ),
{
    let region = lowercase(region);
    match area {
        None => pokearth_page_lowered(region.as_str(), None, generation),
        Some(a) => {
            let a = lowercase(a);
            pokearth_page_lowered(region.as_str(), Some(a.as_str()), generation)
        },
    }
}

/// The page of a move whose name is already lowercase.
pub fn attackdex_page_lowered(move_: &str, generation: Option<i64>) -> (r: Result<DexPage, String>)
    ensures
        page_view(r) == attackdex_spec(spaces_removed(move_@), generation),
{
    let m = without_spaces(move_);
    let g = match generation {
        None => 9,
        Some(g) => g,
    };
    let suffix = if g == 1 {
        "-rby"
    } else if g == 2 {
        "-gs"
    } else if g == 3 {
        ""
    } else if g == 4 {
        "-dp"
    } else if g == 5 {
        "-bw"
    } else if g == 6 {
        "-xy"
    } else if g == 7 {
        "-sm"
    } else if g == 8 {
        "-swsh"
    } else if g == 9 {
        "-sv"
    } else {
        return generation_error(g);
    };
    proof {
        reveal_strlit("");
    }
    let mut url = String::from_str("https://www.serebii.net/attackdex");
    url.append(suffix);
    url.append("/");
    url.append(m.as_str());
    url.append(".shtml");
    page(url, m)
}

/// The page of a move, in a generation, the latest when none is given.
pub fn attackdex_page(move_: &str, generation: Option<i64>) -> (r: Result<DexPage, String>)
    ensures
        page_view(r) == attackdex_spec(spaces_removed(lowercase_of(move_@)), generation),
{
    let lowered = lowercase(move_);
    attackdex_page_lowered(lowered.as_str(), generation)
}

/// The page of an ability whose name is already lowercase.
pub fn abilitydex_page_lowered(ability: &str) -> (r: DexPage)
    ensures
        (r.url@, r.subject@) == abilitydex_spec(spaces_removed(ability@)),
{
    let a = without_spaces(ability);
    let mut url = String::from_str("https://www.serebii.net/abilitydex/");
    url.append(a.as_str());
    url.append(".shtml");
    DexPage { url, subject: a }
}

/// The page of an ability.
pub fn abilitydex_page(ability: &str) -> (r: DexPage)
    ensures
        (r.url@, r.subject@) == abilitydex_spec(spaces_removed(lowercase_of(ability@))),
{
    let lowered = lowercase(ability);
    abilitydex_page_lowered(lowered.as_str())
}

/// The page of an item whose name is already lowercase.
pub fn itemdex_page_lowered(item: &str) -> (r: DexPage)
    ensures
        (r.url@, r.subject@) == itemdex_spec(spaces_removed(item@)),
{
    let i = without_spaces(item);
    let mut url = String::from_str("https://www.serebii.net/itemdex/");
    url.append(i.as_str());
    url.append(".shtml");
    DexPage { url, subject: i }
}

/// The page of an item.
pub fn itemdex_page(item: &str) -> (r: DexPage)
    ensures
        (r.url@, r.subject@) == itemdex_spec(spaces_removed(lowercase_of(item@))),
{
    let lowered = lowercase(item);
    itemdex_page_lowered(lowered.as_str())
}

} // verus!
