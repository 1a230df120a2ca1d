//! Damage multipliers against one type or a pair of types.

use vstd::prelude::*;
use crate::names::{
    Named, named_as_slug, shown, shown_all, display_name, display_names, lemma_shown_all_fast,
};
use crate::text::{views, pad_right_spec, pad_right, concat, lemma_views_push, lemma_views_remove};

verus! {

/// The types a type takes no, half and double damage from.
pub struct DamageRelations {
    pub no_damage_from: Vec<Named>,
    pub half_damage_from: Vec<Named>,
    pub double_damage_from: Vec<Named>,
}

/// A type: its own record, for its name, and its damage relations.
pub struct TypeRecord {
    pub name: Named,
    pub relations: DamageRelations,
}

/// The attacking types' names by multiplier against a defending type or pair.
pub struct Buckets {
    pub zero: Vec<String>,
    pub quarter: Vec<String>,
    pub half: Vec<String>,
    pub double: Vec<String>,
    pub quad: Vec<String>,
}

/// The names in each bucket.
pub struct BucketsView {
    pub zero: Seq<Seq<char>>,
    pub quarter: Seq<Seq<char>>,
    pub half: Seq<Seq<char>>,
    pub double: Seq<Seq<char>>,
    pub quad: Seq<Seq<char>>,
}

impl View for Buckets {
    type V = BucketsView;

    open spec fn view(&self) -> BucketsView {
        BucketsView {
            zero: views(self.zero@),
            quarter: views(self.quarter@),
            half: views(self.half@),
            double: views(self.double@),
            quad: views(self.quad@),
        }
    }
}

/// `s` without the first occurrence of `t`.
pub open spec fn remove_first(s: Seq<Seq<char>>, t: Seq<char>) -> Seq<Seq<char>>
    decreases s.len(),
{
    if s.len() == 0 {
        s
    } else if s[0] == t {
        s.drop_first()
    } else {
        seq![s[0]] + remove_first(s.drop_first(), t)
    }
}

/// A type that deals no damage to the second type: immunity overrides a
/// resistance or weakness to it from the first type.
pub open spec fn zero_step(b: BucketsView, t: Seq<char>) -> BucketsView {
    if b.half.contains(t) {
        BucketsView { half: remove_first(b.half, t), zero: b.zero.push(t), ..b }
    } else if b.double.contains(t) {
        BucketsView { double: remove_first(b.double, t), zero: b.zero.push(t), ..b }
    } else if !b.zero.contains(t) {
        BucketsView { zero: b.zero.push(t), ..b }
    } else {
        b
    }
}

/// A type the second type resists: half of half is a quarter, half of double
/// is normal damage, which no bucket holds.
pub open spec fn half_step(b: BucketsView, t: Seq<char>) -> BucketsView {
    if b.half.contains(t) {
        BucketsView { half: remove_first(b.half, t), quarter: b.quarter.push(t), ..b }
    } else if b.double.contains(t) {
        BucketsView { double: remove_first(b.double, t), ..b }
    } else if !b.zero.contains(t) {
        BucketsView { half: b.half.push(t), ..b }
    } else {
        b
    }
}

/// A type the second type is weak to: double of half is normal damage,
/// double of double is four times.
pub open spec fn double_step(b: BucketsView, t: Seq<char>) -> BucketsView {
    if b.half.contains(t) {
        BucketsView { half: remove_first(b.half, t), ..b }
    } else if b.double.contains(t) {
        BucketsView { double: remove_first(b.double, t), quad: b.quad.push(t), ..b }
    } else if !b.zero.contains(t) {
        BucketsView { double: b.double.push(t), ..b }
    } else {
        b
    }
}

/// `zero_step` for each of `ts` in order.
pub open spec fn apply_zero(b: BucketsView, ts: Seq<Seq<char>>) -> BucketsView
    decreases ts.len(),
{
    if ts.len() == 0 {
        b
    } else {
        zero_step(apply_zero(b, ts.drop_last()), ts.last())
    }
}

/// `half_step` for each of `ts` in order.
pub open spec fn apply_half(b: BucketsView, ts: Seq<Seq<char>>) -> BucketsView
    decreases ts.len(),
{
    if ts.len() == 0 {
        b
    } else {
        half_step(apply_half(b, ts.drop_last()), ts.last())
    }
}

/// `double_step` for each of `ts` in order.
pub open spec fn apply_double(b: BucketsView, ts: Seq<Seq<char>>) -> BucketsView
    decreases ts.len(),
{
    if ts.len() == 0 {
        b
    } else {
        double_step(apply_double(b, ts.drop_last()), ts.last())
    }
}

/// The buckets of one type alone: what it takes no, half and double damage
/// from.
pub open spec fn single_buckets(no: Seq<Seq<char>>, half: Seq<Seq<char>>, double: Seq<Seq<char>>) -> BucketsView {
    BucketsView { zero: no, quarter: Seq::empty(), half: half, double: double, quad: Seq::empty() }
}

/// The buckets of a pair: the first type's, updated by the second type's
/// no-damage, then half-damage, then double-damage sets.
pub open spec fn combined(
    first: BucketsView,
    no: Seq<Seq<char>>,
    half: Seq<Seq<char>>,
    double: Seq<Seq<char>>,
) -> BucketsView {
    apply_double(apply_half(apply_zero(first, no), half), double)
}

/// The buckets of a type's relations, names shown in `lang` unless `fast`.
pub open spec fn relation_buckets(r: DamageRelations, lang: Seq<char>, fast: bool) -> BucketsView {
    single_buckets(
        shown_all(r.no_damage_from@, lang, fast),
        shown_all(r.half_damage_from@, lang, fast),
        shown_all(r.double_damage_from@, lang, fast),
    )
}

/// The buckets against `primary`, or against the pair when there is a
/// `secondary` type.
pub open spec fn matchup_buckets(
    primary: TypeRecord,
    secondary: Option<TypeRecord>,
    lang: Seq<char>,
    fast: bool,
) -> BucketsView {
    let first = relation_buckets(primary.relations, lang, fast);
    match secondary {
        None => first,
        Some(s) => combined(
            first,
            shown_all(s.relations.no_damage_from@, lang, fast),
            shown_all(s.relations.half_damage_from@, lang, fast),
            shown_all(s.relations.double_damage_from@, lang, fast),
        ),
    }
}

fn position(v: &Vec<String>, t: &String) -> (r: Option<usize>)
    ensures
        r matches Some(i) ==> i < v.len() && views(v@)[i as int] == t@ && forall|k: int|
            0 <= k < i ==> views(v@)[k] != t@,
        r is None ==> !views(v@).contains(t@),
{
    let mut i: usize = 0;
    while i < v.len()
        invariant
            0 <= i <= v.len(),
            forall|k: int| 0 <= k < i ==> views(v@)[k] != t@,
        decreases v.len() - i,
    {
        if v[i] == *t {
            return Some(i);
        }
        i = i + 1;
    }
    None
}

proof fn lemma_remove_first_at(s: Seq<Seq<char>>, t: Seq<char>, i: int)
    requires
        0 <= i < s.len(),
        s[i] == t,
        forall|k: int| 0 <= k < i ==> s[k] != t,
    ensures
        remove_first(s, t) == s.remove(i),
    decreases s.len(),
{
    if i > 0 {
        let rest = s.drop_first();
        assert forall|k: int| 0 <= k < i - 1 implies rest[k] != t by {
            assert(rest[k] == s[k + 1]);
        }
        lemma_remove_first_at(rest, t, i - 1);
        assert(seq![s[0]] + rest.remove(i - 1) =~= s.remove(i));
    } else {
        assert(s.drop_first() =~= s.remove(0));
    }
}

fn take_out(v: &mut Vec<String>, i: usize, t: &String)
    requires
        i < old(v).len(),
        views(old(v)@)[i as int] == t@,
        forall|k: int| 0 <= k < i ==> views(old(v)@)[k] != t@,
    ensures
        views(final(v)@) == remove_first(views(old(v)@), t@),
{
    proof {
        lemma_views_remove(v@, i as int);
        lemma_remove_first_at(views(v@), t@, i as int);
    }
    v.remove(i);
}

fn put_in(v: &mut Vec<String>, t: &String)
    ensures
        views(final(v)@) == views(old(v)@).push(t@),
{
    let c = t.clone();
    proof {
        lemma_views_push(v@, c);
    }
    v.push(c);
}

impl Buckets {
    fn zero_from(&mut self, t: &String)
        ensures
            final(self)@ == zero_step(old(self)@, t@),
    {
        match position(&self.half, t) {
            Some(i) => {
                take_out(&mut self.half, i, t);
                put_in(&mut self.zero, t);
            },
            None => match position(&self.double, t) {
                Some(i) => {
                    take_out(&mut self.double, i, t);
                    put_in(&mut self.zero, t);
                },
                None => {
                    if position(&self.zero, t).is_none() {
                        put_in(&mut self.zero, t);
                    }
                },
            },
        }
    }

    fn half_from(&mut self, t: &String)
        ensures
            final(self)@ == half_step(old(self)@, t@),
    {
        match position(&self.half, t) {
            Some(i) => {
                put_in(&mut self.quarter, t);
                take_out(&mut self.half, i, t);
            },
            None => match position(&self.double, t) {
                Some(i) => {
                    take_out(&mut self.double, i, t);
                },
                None => {
                    if position(&self.zero, t).is_none() {
                        put_in(&mut self.half, t);
                    }
                },
            },
        }
    }

    fn double_from(&mut self, t: &String)
        ensures
            final(self)@ == double_step(old(self)@, t@),
    {
        match position(&self.half, t) {
            Some(i) => {
                take_out(&mut self.half, i, t);
            },
            None => match position(&self.double, t) {
                Some(i) => {
                    put_in(&mut self.quad, t);
                    take_out(&mut self.double, i, t);
                },
                None => {
                    if position(&self.zero, t).is_none() {
                        put_in(&mut self.double, t);
                    }
                },
            },
        }
    }
}

/// Sorts the attacking types into multiplier buckets: those of `primary`
/// alone, or, with a `secondary` type, those of the pair, where the second
/// type's immunities, then resistances, then weaknesses update the first's.
pub fn combine(
    primary: &TypeRecord,
    secondary: &Option<TypeRecord>,
    lang: &str,
    fast: bool,
) -> (r: Buckets)
    ensures
        r@ == matchup_buckets(*primary, *secondary, lang@, fast),
{
    let rel = &primary.relations;
    let mut b = Buckets {
        zero: display_names(&rel.no_damage_from, lang, fast),
        quarter: Vec::new(),
        half: display_names(&rel.half_damage_from, lang, fast),
        double: display_names(&rel.double_damage_from, lang, fast),
        quad: Vec::new(),
    };
    assert(b@ == relation_buckets(*rel, lang@, fast)) by {
        assert(views(b.quarter@) =~= Seq::empty());
        assert(views(b.quad@) =~= Seq::empty());
    }
    match secondary {
        None => {},
        Some(t) => {
            let s = &t.relations;
            let ghost first = b@;
            let no = display_names(&s.no_damage_from, lang, fast);
            let half = display_names(&s.half_damage_from, lang, fast);
            let double = display_names(&s.double_damage_from, lang, fast);
            let mut i: usize = 0;
            while i < no.len()
                invariant
                    0 <= i <= no.len(),
                    b@ == apply_zero(first, views(no@).take(i as int)),
                decreases no.len() - i,
            {
                assert(views(no@).take(i + 1).drop_last() =~= views(no@).take(i as int));
                b.zero_from(&no[i]);
                i = i + 1;
            }
            assert(views(no@).take(no.len() as int) =~= views(no@));
            let ghost after_zero = b@;
            let mut i: usize = 0;
            while i < half.len()
                invariant
                    0 <= i <= half.len(),
                    b@ == apply_half(after_zero, views(half@).take(i as int)),
                decreases half.len() - i,
            {
                assert(views(half@).take(i + 1).drop_last() =~= views(half@).take(i as int));
                b.half_from(&half[i]);
                i = i + 1;
            }
            assert(views(half@).take(half.len() as int) =~= views(half@));
            let ghost after_half = b@;
            let mut i: usize = 0;
            while i < double.len()
                invariant
                    0 <= i <= double.len(),
                    b@ == apply_double(after_half, views(double@).take(i as int)),
                decreases double.len() - i,
            {
                assert(views(double@).take(i + 1).drop_last() =~= views(double@).take(i as int));
                b.double_from(&double[i]);
                i = i + 1;
            }
            assert(views(double@).take(double.len() as int) =~= views(double@));
        },
    }
    b
}

/// The largest of three lengths.
pub open spec fn max3(a: nat, b: nat, c: nat) -> nat {
    if a >= b && a >= c {
        a
    } else if b >= c {
        b
    } else {
        c
    }
}

/// `s` extended with empty names up to `n` entries; an empty name marks the
/// end of a bucket's entries.
pub open spec fn padded(s: Seq<Seq<char>>, n: nat) -> Seq<Seq<char>> {
    if s.len() >= n {
        s
    } else {
        s + Seq::new((n - s.len()) as nat, |i: int| Seq::<char>::empty())
    }
}

/// The number of rows of a table: the length of the longest bucket, so that
/// every entry of every bucket is shown.
pub open spec fn row_count(b: BucketsView) -> nat {
    max3(max3(b.zero.len(), b.half.len(), b.double.len()), b.quarter.len(), b.quad.len())
}

/// Every bucket padded to the row count.
pub open spec fn padded_buckets(b: BucketsView) -> BucketsView {
    let n = row_count(b);
    BucketsView {
        zero: padded(b.zero, n),
        quarter: padded(b.quarter, n),
        half: padded(b.half, n),
        double: padded(b.double, n),
        quad: padded(b.quad, n),
    }
}

/// A table cell: the name left-aligned in twelve columns.
pub open spec fn cell(s: Seq<char>) -> Seq<char> {
    pad_right_spec(s, 12)
}

/// Row `i` of the table for one type.
pub open spec fn single_row(b: BucketsView, i: int) -> Seq<char> {
    cell(b.zero[i]) + " "@ + cell(b.half[i]) + " "@ + cell(b.double[i])
}

/// Row `i` of the table for a pair of types.
pub open spec fn dual_row(b: BucketsView, i: int) -> Seq<char> {
    cell(b.zero[i]) + " "@ + cell(b.quarter[i]) + " "@ + cell(b.half[i]) + " "@ + cell(b.double[i])
        + " "@ + cell(b.quad[i])
}

/// The header and rule of a table, for one type or for a pair.
pub open spec fn table_head(dual: bool) -> Seq<Seq<char>> {
    if dual {
        seq![
            "     *0         *0.25         *0.5          *2           *4     "@,
            "------------ ------------ ------------ ------------ ------------"@,
        ]
    } else {
        seq!["     *0          *0.5          *2     "@, "------------ ------------ ------------"@]
    }
}

/// The rows of a table over padded buckets `p`, `n` of them.
pub open spec fn table_rows(p: BucketsView, n: nat, dual: bool) -> Seq<Seq<char>> {
    Seq::new(
        n,
        |i: int|
            if dual {
                dual_row(p, i)
            } else {
                single_row(p, i)
            },
    )
}

/// The table: a header, a rule, and one row per entry of the longest
/// bucket.
pub open spec fn table(b: BucketsView, dual: bool) -> Seq<Seq<char>> {
    table_head(dual) + table_rows(padded_buckets(b), row_count(b), dual)
}

/// The entries of a padded bucket: those before its first empty name.
pub open spec fn entries(items: Seq<Seq<char>>) -> Seq<Seq<char>>
    decreases items.len(),
{
    if items.len() == 0 || items[0].len() == 0 {
        Seq::empty()
    } else {
        seq![items[0]] + entries(items.drop_first())
    }
}

/// Whether a bucket holds any name that is not empty.
pub open spec fn has_entry(items: Seq<Seq<char>>) -> bool {
    exists|i: int| 0 <= i < items.len() && (#[trigger] items[i]).len() > 0
}

/// One list section: an empty line first when a section came before, the
/// section's title, and a bullet per entry; nothing for a bucket with no name.
pub open spec fn section(title: Seq<char>, items: Seq<Seq<char>>, after_another: bool) -> Seq<
    Seq<char>,
> {
    if has_entry(items) {
        (if after_another {
            seq![Seq::empty()]
        } else {
            Seq::empty()
        }) + seq![title] + entries(items).map_values(|x: Seq<char>| "   * "@ + x)
    } else {
        Seq::empty()
    }
}

/// The sections of a list over padded buckets `p`: for one type, those of
/// the zero, half and double buckets; for a pair, also quarter and quad.
pub open spec fn list_sections(p: BucketsView, dual: bool) -> Seq<Seq<char>> {
    if dual {
        section(" - 0x:"@, p.zero, false) + section(" - 0.25x:"@, p.quarter, has_entry(p.zero))
            + section(" - 0.5x:"@, p.half, has_entry(p.zero) || has_entry(p.quarter)) + section(
            " - 2x:"@,
            p.double,
            has_entry(p.zero) || has_entry(p.quarter) || has_entry(p.half),
        ) + section(
            " - 4x:"@,
            p.quad,
            has_entry(p.zero) || has_entry(p.quarter) || has_entry(p.half) || has_entry(p.double),
        )
    } else {
        section(" - 0x:"@, p.zero, false) + section(" - 0.5x:"@, p.half, has_entry(p.zero))
            + section(" - 2x:"@, p.double, has_entry(p.zero) || has_entry(p.half))
    }
}

/// The list: a title line, then the sections.
pub open spec fn listing(title: Seq<char>, b: BucketsView, dual: bool) -> Seq<Seq<char>> {
    seq![title + ":"@] + list_sections(padded_buckets(b), dual)
}

/// The title of a list: the type's name, or both names joined by `/`.
pub open spec fn matchup_title(
    primary: TypeRecord,
    secondary: Option<TypeRecord>,
    lang: Seq<char>,
    fast: bool,
) -> Seq<char> {
    match secondary {
        None => shown(primary.name, lang, fast),
        Some(s) => shown(primary.name, lang, fast) + "/"@ + shown(s.name, lang, fast),
    }
}

/// The lines shown for the matchups of `primary`, or of the pair with
/// `secondary`: a table, or a list when `list` is set.
pub open spec fn matchup_text(
    primary: TypeRecord,
    secondary: Option<TypeRecord>,
    list: bool,
    fast: bool,
    lang: Seq<char>,
) -> Seq<Seq<char>> {
    let b = matchup_buckets(primary, secondary, lang, fast);
    if list {
        listing(matchup_title(primary, secondary, lang, fast), b, secondary is Some)
    } else {
        table(b, secondary is Some)
    }
}

fn pad_bucket(v: &mut Vec<String>, n: usize)
    ensures
        views(final(v)@) == padded(views(old(v)@), n as nat),
{
    let ghost start = views(v@);
    if v.len() >= n {
        return;
    }
    while v.len() < n
        invariant
            start.len() < n || v.len() >= n,
            start.len() <= v.len() <= n,
            views(v@) =~= start + Seq::new((v.len() - start.len()) as nat, |i: int| Seq::<char>::empty()),
        decreases n - v.len(),
    {
        let e = String::new();
        proof {
            lemma_views_push(v@, e);
        }
        v.push(e);
    }
}

fn max_of_three(a: usize, b: usize, c: usize) -> (r: usize)
    ensures
        r == max3(a as nat, b as nat, c as nat),
{
    if a >= b && a >= c {
        a
    } else if b >= c {
        b
    } else {
        c
    }
}

/// Pads every bucket with empty names up to the length of the longest
/// bucket.
pub fn pad_buckets(b: &mut Buckets)
    ensures
        final(b)@ == padded_buckets(old(b)@),
{
    let n = max_of_three(max_of_three(b.zero.len(), b.half.len(), b.double.len()), b.quarter.len(), b.quad.len());
    pad_bucket(&mut b.zero, n);
    pad_bucket(&mut b.quarter, n);
    pad_bucket(&mut b.half, n);
    pad_bucket(&mut b.double, n);
    pad_bucket(&mut b.quad, n);
}

fn push_cell(row: &mut String, s: &String, first: bool)
    ensures
        final(row)@ == old(row)@ + (if first {
            Seq::empty()
        } else {
            " "@
        }) + cell(s@),
{
    if !first {
        row.append(" ");
    }
    let c = pad_right(s.as_str(), 12);
    row.append(c.as_str());
    assert(final(row)@ =~= old(row)@ + (if first {
        Seq::empty()
    } else {
        " "@
    }) + cell(s@));
}

fn push_rows(out: &mut Vec<String>, b: &Buckets, dual: bool)
    requires
        b.zero.len() == b.half.len(),
        b.half.len() == b.double.len(),
        b.quarter.len() >= b.zero.len(),
        b.quad.len() >= b.zero.len(),
    ensures
        views(final(out)@) == views(old(out)@) + table_rows(b@, b.zero.len() as nat, dual),
{
    let ghost start = views(out@);
    let ghost rows = table_rows(b@, b.zero.len() as nat, dual);
    let mut i: usize = 0;
    while i < b.zero.len()
        invariant
            0 <= i <= b.zero.len(),
            b.zero.len() == b.half.len(),
            b.half.len() == b.double.len(),
            b.quarter.len() >= b.zero.len(),
            b.quad.len() >= b.zero.len(),
            rows == table_rows(b@, b.zero.len() as nat, dual),
            views(out@) =~= start + rows.take(i as int),
        decreases b.zero.len() - i,
    {
        let mut row = String::new();
        push_cell(&mut row, &b.zero[i], true);
        if dual {
            push_cell(&mut row, &b.quarter[i], false);
        }
        push_cell(&mut row, &b.half[i], false);
        push_cell(&mut row, &b.double[i], false);
        if dual {
            push_cell(&mut row, &b.quad[i], false);
        }
        assert(row@ =~= rows[i as int]);
        proof {
            lemma_views_push(out@, row);
        }
        out.push(row);
        assert(rows.take(i + 1) =~= rows.take(i as int).push(rows[i as int]));
        i = i + 1;
    }
    assert(rows.take(b.zero.len() as int) =~= rows);
}

fn any_entry(items: &Vec<String>) -> (r: bool)
    ensures
        r == has_entry(views(items@)),
{
    let mut i: usize = 0;
    while i < items.len()
        invariant
            0 <= i <= items.len(),
            forall|k: int| 0 <= k < i ==> (#[trigger] views(items@)[k]).len() == 0,
        decreases items.len() - i,
    {
        if items[i].unicode_len() != 0 {
            assert(views(items@)[i as int].len() > 0);
            return true;
        }
        i = i + 1;
    }
    false
}

proof fn lemma_entries_prefix(items: Seq<Seq<char>>, i: int)
    requires
        0 <= i <= items.len(),
        forall|k: int| 0 <= k < i ==> (#[trigger] items[k]).len() > 0,
        i == items.len() || items[i].len() == 0,
    ensures
        entries(items) == items.take(i),
    decreases items.len(),
{
    if i > 0 {
        let rest = items.drop_first();
        assert forall|k: int| 0 <= k < i - 1 implies (#[trigger] rest[k]).len() > 0 by {
            assert(rest[k] == items[k + 1]);
        }
        lemma_entries_prefix(rest, i - 1);
        assert(seq![items[0]] + rest.take(i - 1) =~= items.take(i));
    } else {
        assert(items.take(0) =~= Seq::<Seq<char>>::empty());
    }
}

fn push_section(out: &mut Vec<String>, title: &str, items: &Vec<String>, after_another: bool)
    ensures
        views(final(out)@) == views(old(out)@) + section(title@, views(items@), after_another),
{
    let ghost start = views(out@);
    let ghost iv = views(items@);
    if !any_entry(items) {
        assert(views(out@) =~= start + section(title@, iv, after_another));
        return;
    }
    if after_another {
        let e = String::new();
        proof {
            lemma_views_push(out@, e);
        }
        out.push(e);
    }
    let t = String::from_str(title);
    proof {
        lemma_views_push(out@, t);
    }
    out.push(t);
    let ghost head = views(out@);
    let mut i: usize = 0;
    while i < items.len() && items[i].unicode_len() != 0
        invariant
            0 <= i <= items.len(),
            iv == views(items@),
            forall|k: int| 0 <= k < i ==> (#[trigger] iv[k]).len() > 0,
            views(out@) =~= head + iv.take(i as int).map_values(|x: Seq<char>| "   * "@ + x),
        decreases items.len() - i,
    {
        let line = concat("   * ", items[i].as_str());
        proof {
            lemma_views_push(out@, line);
        }
        out.push(line);
        assert(iv.take(i + 1).map_values(|x: Seq<char>| "   * "@ + x) =~= iv.take(
            i as int,
        ).map_values(|x: Seq<char>| "   * "@ + x).push("   * "@ + iv[i as int]));
        i = i + 1;
    }
    proof {
        lemma_entries_prefix(iv, i as int);
    }
    assert(views(out@) =~= start + section(title@, iv, after_another));
}

fn table_lines(b: &Buckets, dual: bool) -> (r: Vec<String>)
    requires
        b.zero.len() == b.half.len(),
        b.half.len() == b.double.len(),
        b.quarter.len() >= b.zero.len(),
        b.quad.len() >= b.zero.len(),
    ensures
        views(r@) == table_head(dual) + table_rows(b@, b.zero.len() as nat, dual),
{
    let mut out: Vec<String> = Vec::new();
    if dual {
        out.push(String::from_str("     *0         *0.25         *0.5          *2           *4     "));
        out.push(String::from_str("------------ ------------ ------------ ------------ ------------"));
    } else {
        out.push(String::from_str("     *0          *0.5          *2     "));
        out.push(String::from_str("------------ ------------ ------------"));
    }
    assert(views(out@) =~= table_head(dual));
    push_rows(&mut out, b, dual);
    out
}

fn push_dual_sections(out: &mut Vec<String>, b: &Buckets)
    ensures
        views(final(out)@) == views(old(out)@) + list_sections(b@, true),
{
    let ghost start = views(out@);
    let z = any_entry(&b.zero);
    push_section(out, " - 0x:", &b.zero, false);
    let q = any_entry(&b.quarter);
    push_section(out, " - 0.25x:", &b.quarter, z);
    let h = any_entry(&b.half);
    push_section(out, " - 0.5x:", &b.half, z || q);
    let d = any_entry(&b.double);
    push_section(out, " - 2x:", &b.double, z || q || h);
    push_section(out, " - 4x:", &b.quad, z || q || h || d);
    assert(views(out@) =~= start + list_sections(b@, true));
}

fn push_single_sections(out: &mut Vec<String>, b: &Buckets)
    ensures
        views(final(out)@) == views(old(out)@) + list_sections(b@, false),
{
    let ghost start = views(out@);
    let z = any_entry(&b.zero);
    push_section(out, " - 0x:", &b.zero, false);
    let h = any_entry(&b.half);
    push_section(out, " - 0.5x:", &b.half, z);
    push_section(out, " - 2x:", &b.double, z || h);
    assert(views(out@) =~= start + list_sections(b@, false));
}

fn list_lines(title: &String, b: &Buckets, dual: bool) -> (r: Vec<String>)
    ensures
        views(r@) == seq![title@ + ":"@] + list_sections(b@, dual),
{
    let mut out: Vec<String> = Vec::new();
    let head = concat(title.as_str(), ":");
    proof {
        lemma_views_push(out@, head);
    }
    out.push(head);
    assert(views(out@) =~= seq![title@ + ":"@]);
    if dual {
        push_dual_sections(&mut out, b);
    } else {
        push_single_sections(&mut out, b);
    }
    out
}

/// The title of the list for `primary`, or for the pair with `secondary`.
pub fn matchup_heading(primary: &TypeRecord, secondary: &Option<TypeRecord>, lang: &str, fast: bool) -> (r: String)
    ensures
        r@ == matchup_title(*primary, *secondary, lang@, fast),
{
    match secondary {
        None => display_name(&primary.name, lang, fast),
        Some(s) => {
            let a = display_name(&primary.name, lang, fast);
            let c = display_name(&s.name, lang, fast);
            let mut t = concat(a.as_str(), "/");
            t.append(c.as_str());
            t
        },
    }
}

/// The lines shown for the matchups of `primary`, or of the pair with
/// `secondary`: a table with a column per multiplier, or, when `list` is
/// set, a titled list with a section per multiplier that has entries.
pub fn print_matchups(
    primary: &TypeRecord,
    secondary: &Option<TypeRecord>,
    list: bool,
    fast: bool,
    lang: &str,
) -> (r: Vec<String>)
    ensures
        views(r@) == matchup_text(*primary, *secondary, list, fast, lang@),
{
    let mut b = combine(primary, secondary, lang, fast);
    let ghost raw = b@;
    pad_buckets(&mut b);
    let ghost p = b@;
    assert(p.zero.len() == row_count(raw));
    assert(p.half.len() == row_count(raw));
    assert(p.double.len() == row_count(raw));
    assert(p.quarter.len() == row_count(raw));
    assert(p.quad.len() == row_count(raw));
    let dual = secondary.is_some();
    if list {
        let title = matchup_heading(primary, secondary, lang, fast);
        list_lines(&title, &b, dual)
    } else {
        assert(b.zero.len() == p.zero.len() && b.half.len() == p.half.len() && b.double.len()
            == p.double.len() && b.quarter.len() == p.quarter.len() && b.quad.len() == p.quad.len());
        table_lines(&b, dual)
    }
}

/// No name occurs twice in `s`.
pub open spec fn no_repeats(s: Seq<Seq<char>>) -> bool {
    forall|i: int, j: int| 0 <= i < j < s.len() ==> s[i] != s[j]
}

/// No name occurs in both `a` and `b`.
pub open spec fn apart(a: Seq<Seq<char>>, b: Seq<Seq<char>>) -> bool {
    forall|x: Seq<char>| #[trigger] a.contains(x) ==> !b.contains(x)
}

/// A type's three relation sets as names: none repeats a name, and no name
/// is in two of them.
pub open spec fn sets_well_formed(no: Seq<Seq<char>>, half: Seq<Seq<char>>, double: Seq<Seq<char>>) -> bool {
    &&& no_repeats(no)
    &&& no_repeats(half)
    &&& no_repeats(double)
    &&& apart(no, half)
    &&& apart(no, double)
    &&& apart(half, double)
}

/// A type's relations, as shown names, are well formed.
pub open spec fn relations_well_formed(r: DamageRelations, lang: Seq<char>, fast: bool) -> bool {
    sets_well_formed(
        shown_all(r.no_damage_from@, lang, fast),
        shown_all(r.half_damage_from@, lang, fast),
        shown_all(r.double_damage_from@, lang, fast),
    )
}

/// Every attacking type is in at most one bucket, and at most once there.
pub open spec fn exclusive(b: BucketsView) -> bool {
    &&& no_repeats(b.zero)
    &&& no_repeats(b.quarter)
    &&& no_repeats(b.half)
    &&& no_repeats(b.double)
    &&& no_repeats(b.quad)
    &&& apart(b.zero, b.quarter)
    &&& apart(b.zero, b.half)
    &&& apart(b.zero, b.double)
    &&& apart(b.zero, b.quad)
    &&& apart(b.quarter, b.half)
    &&& apart(b.quarter, b.double)
    &&& apart(b.quarter, b.quad)
    &&& apart(b.half, b.double)
    &&& apart(b.half, b.quad)
    &&& apart(b.double, b.quad)
}

proof fn lemma_remove_first_facts(s: Seq<Seq<char>>, t: Seq<char>)
    requires
        no_repeats(s),
    ensures
        no_repeats(remove_first(s, t)),
        forall|x: Seq<char>| #[trigger] remove_first(s, t).contains(x) <==> (s.contains(x) && x != t),
    decreases s.len(),
{
    if s.len() > 0 {
        let rest = s.drop_first();
        assert(no_repeats(rest)) by {
            assert forall|i: int, j: int| 0 <= i < j < rest.len() implies rest[i] != rest[j] by {
                assert(rest[i] == s[i + 1] && rest[j] == s[j + 1]);
            }
        }
        lemma_remove_first_facts(rest, t);
        assert forall|x: Seq<char>| s.contains(x) <==> (x == s[0] || rest.contains(x)) by {
            if s.contains(x) {
                let k = choose|k: int| 0 <= k < s.len() && s[k] == x;
                if k > 0 {
                    assert(rest[k - 1] == x);
                }
            }
            if rest.contains(x) {
                let k = choose|k: int| 0 <= k < rest.len() && rest[k] == x;
                assert(s[k + 1] == x);
            }
            if x == s[0] {
                assert(s[0] == x);
            }
        }
        assert(!rest.contains(s[0])) by {
            if rest.contains(s[0]) {
                let k = choose|k: int| 0 <= k < rest.len() && rest[k] == s[0];
                assert(s[k + 1] == s[0]);
            }
        }
        if s[0] != t {
            let out = seq![s[0]] + remove_first(rest, t);
            let r2 = remove_first(rest, t);
            assert forall|x: Seq<char>| out.contains(x) <==> (x == s[0] || r2.contains(x)) by {
                if out.contains(x) {
                    let k = choose|k: int| 0 <= k < out.len() && out[k] == x;
                    if k > 0 {
                        assert(r2[k - 1] == x);
                    }
                }
                if r2.contains(x) {
                    let k = choose|k: int| 0 <= k < r2.len() && r2[k] == x;
                    assert(out[k + 1] == x);
                }
                if x == s[0] {
                    assert(out[0] == x);
                }
            }
            assert forall|i: int, j: int| 0 <= i < j < out.len() implies out[i] != out[j] by {
                if i == 0 {
                    assert(out[j] == r2[j - 1]);
                    assert(r2.contains(r2[j - 1]));
                } else {
                    assert(out[i] == r2[i - 1] && out[j] == r2[j - 1]);
                }
            }
        }
    }
}

proof fn lemma_push_facts(s: Seq<Seq<char>>, t: Seq<char>)
    ensures
        forall|x: Seq<char>| #[trigger] s.push(t).contains(x) <==> (s.contains(x) || x == t),
        no_repeats(s) && !s.contains(t) ==> no_repeats(s.push(t)),
{
    assert forall|x: Seq<char>| #[trigger] s.push(t).contains(x) <==> (s.contains(x) || x == t) by {
        if s.push(t).contains(x) {
            let k = choose|k: int| 0 <= k < s.push(t).len() && s.push(t)[k] == x;
            if k < s.len() {
                assert(s[k] == x);
            }
        }
        if s.contains(x) {
            let k = choose|k: int| 0 <= k < s.len() && s[k] == x;
            assert(s.push(t)[k] == x);
        }
        if x == t {
            assert(s.push(t)[s.len() as int] == x);
        }
    }
    if no_repeats(s) && !s.contains(t) {
        assert forall|i: int, j: int| 0 <= i < j < s.push(t).len() implies s.push(t)[i] != s.push(
            t,
        )[j] by {
            if j == s.len() {
                assert(s.push(t)[i] == s[i]);
                assert(s.contains(s[i]));
            } else {
                assert(s.push(t)[i] == s[i] && s.push(t)[j] == s[j]);
            }
        }
    }
}

proof fn lemma_zero_step(b: BucketsView, t: Seq<char>)
    requires
        exclusive(b),
        !b.quarter.contains(t),
        !b.quad.contains(t),
    ensures
        exclusive(zero_step(b, t)),
        zero_step(b, t).quarter == b.quarter,
        zero_step(b, t).quad == b.quad,
{
    lemma_remove_first_facts(b.half, t);
    lemma_remove_first_facts(b.double, t);
    lemma_push_facts(b.zero, t);
}

proof fn lemma_half_step(b: BucketsView, t: Seq<char>)
    requires
        exclusive(b),
        !b.quarter.contains(t),
        !b.quad.contains(t),
    ensures
        exclusive(half_step(b, t)),
        half_step(b, t).quad == b.quad,
        forall|x: Seq<char>| #[trigger] half_step(b, t).quarter.contains(x) ==> b.quarter.contains(x) || x == t,
{
    lemma_remove_first_facts(b.half, t);
    lemma_remove_first_facts(b.double, t);
    lemma_push_facts(b.quarter, t);
    lemma_push_facts(b.half, t);
}

proof fn lemma_double_step(b: BucketsView, t: Seq<char>)
    requires
        exclusive(b),
        !b.quarter.contains(t),
        !b.quad.contains(t),
    ensures
        exclusive(double_step(b, t)),
        double_step(b, t).quarter == b.quarter,
        forall|x: Seq<char>| #[trigger] double_step(b, t).quad.contains(x) ==> b.quad.contains(x) || x == t,
{
    lemma_remove_first_facts(b.half, t);
    lemma_remove_first_facts(b.double, t);
    lemma_push_facts(b.quad, t);
    lemma_push_facts(b.double, t);
}

proof fn lemma_last_not_before(ts: Seq<Seq<char>>)
    requires
        ts.len() > 0,
        no_repeats(ts),
    ensures
        !ts.drop_last().contains(ts.last()),
        no_repeats(ts.drop_last()),
        forall|x: Seq<char>| #[trigger] ts.drop_last().contains(x) ==> ts.contains(x),
{
    let pre = ts.drop_last();
    if pre.contains(ts.last()) {
        let k = choose|k: int| 0 <= k < pre.len() && pre[k] == ts.last();
        assert(ts[k] == ts[ts.len() - 1]);
    }
    assert forall|x: Seq<char>| #[trigger] pre.contains(x) implies ts.contains(x) by {
        let k = choose|k: int| 0 <= k < pre.len() && pre[k] == x;
        assert(ts[k] == x);
    }
}

proof fn lemma_apply_zero(b: BucketsView, ts: Seq<Seq<char>>)
    requires
        exclusive(b),
        forall|x: Seq<char>| #[trigger] ts.contains(x) ==> !b.quarter.contains(x) && !b.quad.contains(x),
    ensures
        exclusive(apply_zero(b, ts)),
        apply_zero(b, ts).quarter == b.quarter,
        apply_zero(b, ts).quad == b.quad,
    decreases ts.len(),
{
    if ts.len() > 0 {
        let pre = ts.drop_last();
        assert forall|x: Seq<char>| #[trigger] pre.contains(x) implies !b.quarter.contains(x)
            && !b.quad.contains(x) by {
            let k = choose|k: int| 0 <= k < pre.len() && pre[k] == x;
            assert(ts[k] == x);
            assert(ts.contains(x));
        }
        lemma_apply_zero(b, pre);
        assert(ts.contains(ts.last())) by {
            assert(ts[ts.len() - 1] == ts.last());
        }
        lemma_zero_step(apply_zero(b, pre), ts.last());
    }
}

proof fn lemma_apply_half(b: BucketsView, ts: Seq<Seq<char>>)
    requires
        exclusive(b),
        no_repeats(ts),
        forall|x: Seq<char>| #[trigger] ts.contains(x) ==> !b.quarter.contains(x) && !b.quad.contains(x),
    ensures
        exclusive(apply_half(b, ts)),
        apply_half(b, ts).quad == b.quad,
        forall|x: Seq<char>| #[trigger] apply_half(b, ts).quarter.contains(x) ==> b.quarter.contains(x)
            || ts.contains(x),
    decreases ts.len(),
{
    if ts.len() > 0 {
        let pre = ts.drop_last();
        lemma_last_not_before(ts);
        lemma_apply_half(b, pre);
        let mid = apply_half(b, pre);
        let t = ts.last();
        assert(ts.contains(t)) by {
            assert(ts[ts.len() - 1] == t);
        }
        lemma_half_step(mid, t);
    }
}

proof fn lemma_apply_double(b: BucketsView, ts: Seq<Seq<char>>)
    requires
        exclusive(b),
        no_repeats(ts),
        forall|x: Seq<char>| #[trigger] ts.contains(x) ==> !b.quarter.contains(x) && !b.quad.contains(x),
    ensures
        exclusive(apply_double(b, ts)),
        apply_double(b, ts).quarter == b.quarter,
        forall|x: Seq<char>| #[trigger] apply_double(b, ts).quad.contains(x) ==> b.quad.contains(x)
            || ts.contains(x),
    decreases ts.len(),
{
    if ts.len() > 0 {
        let pre = ts.drop_last();
        lemma_last_not_before(ts);
        lemma_apply_double(b, pre);
        let mid = apply_double(b, pre);
        let t = ts.last();
        assert(ts.contains(t)) by {
            assert(ts[ts.len() - 1] == t);
        }
        lemma_double_step(mid, t);
    }
}

/// Each attacking type lands in at most one multiplier bucket, once: for one
/// type, and for any pair of types, where each type's relation sets repeat
/// no name and share none.
pub proof fn lemma_buckets_exclusive(
    primary: TypeRecord,
    secondary: Option<TypeRecord>,
    lang: Seq<char>,
    fast: bool,
)
    requires
        relations_well_formed(primary.relations, lang, fast),
        secondary matches Some(s) ==> relations_well_formed(s.relations, lang, fast),
    ensures
        exclusive(matchup_buckets(primary, secondary, lang, fast)),
{
    let first = relation_buckets(primary.relations, lang, fast);
    assert(first.quarter.len() == 0 && first.quad.len() == 0);
    assert(exclusive(first));
    match secondary {
        None => {},
        Some(s) => {
            let no = shown_all(s.relations.no_damage_from@, lang, fast);
            let half = shown_all(s.relations.half_damage_from@, lang, fast);
            let double = shown_all(s.relations.double_damage_from@, lang, fast);
            lemma_apply_zero(first, no);
            let b1 = apply_zero(first, no);
            lemma_apply_half(b1, half);
            let b2 = apply_half(b1, half);
            assert forall|x: Seq<char>| #[trigger] double.contains(x) implies !b2.quarter.contains(x)
                && !b2.quad.contains(x) by {
                if b2.quarter.contains(x) {
                    assert(half.contains(x));
                }
            }
            lemma_apply_double(b2, double);
        },
    }
}

/// `r`'s related types all show their slugs as display names.
pub open spec fn relations_named_as_slugs(r: DamageRelations, lang: Seq<char>) -> bool {
    &&& forall|i: int| 0 <= i < r.no_damage_from@.len() ==> named_as_slug(#[trigger] r.no_damage_from@[i], lang)
    &&& forall|i: int| 0 <= i < r.half_damage_from@.len() ==> named_as_slug(#[trigger] r.half_damage_from@[i], lang)
    &&& forall|i: int| 0 <= i < r.double_damage_from@.len() ==> named_as_slug(#[trigger] r.double_damage_from@[i], lang)
}

/// A type and its related types all show their slugs as display names.
pub open spec fn type_named_as_slugs(t: TypeRecord, lang: Seq<char>) -> bool {
    named_as_slug(t.name, lang) && relations_named_as_slugs(t.relations, lang)
}

/// Fast mode only swaps display names for slugs: where every type involved
/// already shows its slug as its display name, fast and localized output
/// agree.
pub proof fn lemma_matchups_fast_is_slugs(
    primary: TypeRecord,
    secondary: Option<TypeRecord>,
    list: bool,
    lang: Seq<char>,
)
    requires
        type_named_as_slugs(primary, lang),
        secondary matches Some(s) ==> type_named_as_slugs(s, lang),
    ensures
        matchup_text(primary, secondary, list, true, lang) == matchup_text(
            primary,
            secondary,
            list,
            false,
            lang,
        ),
{
    let r = primary.relations;
    lemma_shown_all_fast(r.no_damage_from@, lang);
    lemma_shown_all_fast(r.half_damage_from@, lang);
    lemma_shown_all_fast(r.double_damage_from@, lang);
    match secondary {
        None => {},
        Some(s) => {
            lemma_shown_all_fast(s.relations.no_damage_from@, lang);
            lemma_shown_all_fast(s.relations.half_damage_from@, lang);
            lemma_shown_all_fast(s.relations.double_damage_from@, lang);
        },
    }
    assert(matchup_buckets(primary, secondary, lang, true) == matchup_buckets(
        primary,
        secondary,
        lang,
        false,
    ));
}

} // verus!
