//! Searching the local mods database: criteria, matching and sorting.
use vstd::prelude::*;
use std::cmp::Ordering;
use crate::api_structs::ModApi;
use crate::order::{
    compare_i64, compare_text, flip, lemma_lex_antisymmetric, lemma_lex_reflexive,
    lemma_lex_transitive, lex_order,
};
use crate::text::{
    at, insert_at, prefix, lower_contains_spec, to_lowercase, unicode_lowercase,
    unwrap_or_empty, vec_contains_string, or_empty,
};
use crate::traits::{OptionExt, VecStringExt, any_contains_ignore_case};

verus! {

/// A text field of a mod that a search can target.
#[derive(Debug, Clone, Copy)]
pub enum Field {
    Name,
    Summary,
    Author,
    ModType,
    Side,
    ModIdStr,
    UrlAlias,
    Tags,
}

/// What search results can be sorted by.
#[derive(Debug, Clone, Copy)]
pub enum SortBy {
    ModId,
    AssetId,
    Downloads,
    Follows,
    Trending,
    Comments,
    Name,
    Author,
    Released,
}

/// One condition a mod must meet to be found.
#[derive(Debug)]
pub enum SearchCriteria {
    Text(String),
    Field { field: Field, value: String },
    Id(u32),
    Tag(String),
}

/// Ascending or descending results.
#[derive(Debug, Clone, Copy)]
pub enum SortOrder {
    Asc,
    Desc,
}

/// A search: every criterion must hold; results are optionally sorted.
#[derive(Debug)]
pub struct SearchQuery {
    pub criteria: Vec<SearchCriteria>,
    pub sort_by: Option<SortBy>,
    pub sort_order: SortOrder,
}

/// A value results can be sorted by.
#[derive(Debug)]
pub enum SortValue {
    Number(i64),
    Text(String),
    Date(String),
}

// ---------------------------------------------------------------------------
// Parsing a sort order
// ---------------------------------------------------------------------------

pub open spec fn sort_order_of(s: Seq<char>) -> Option<SortOrder> {
    let l = unicode_lowercase(s);
    if l == "asc"@ || l == "ascending"@ {
        Some(SortOrder::Asc)
    } else if l == "desc"@ || l == "descending"@ {
        Some(SortOrder::Desc)
    } else {
        None
    }
}

fn str_is(a: &str, b: &str) -> (r: bool)
    ensures
        r == (a@ == b@),
{
    crate::text::str_eq(a, b)
}

/// Reads `asc`/`ascending` or `desc`/`descending`, in any case; anything else
/// is refused with `Invalid sort order: <text>`.
pub fn parse_sort_order(s: &str) -> (r: Result<SortOrder, String>)
    ensures
        match r {
            Ok(o) => sort_order_of(s@) == Some(o),
            Err(m) => sort_order_of(s@) is None && m@ == "Invalid sort order: "@ + s@,
        },
{
    let l = to_lowercase(s);
    if str_is(l.as_str(), "asc") || str_is(l.as_str(), "ascending") {
        Ok(SortOrder::Asc)
    } else if str_is(l.as_str(), "desc") || str_is(l.as_str(), "descending") {
        Ok(SortOrder::Desc)
    } else {
        let mut m = String::new();
        m.push_str("Invalid sort order: ");
        m.push_str(s);
        proof {
            reveal_strlit("Invalid sort order: ");
        }
        Err(m)
    }
}

impl std::str::FromStr for SortOrder {
    type Err = String;

    fn from_str(s: &str) -> (r: Result<Self, Self::Err>)
        ensures
            match r {
                Ok(o) => sort_order_of(s@) == Some(o),
                Err(m) => sort_order_of(s@) is None && m@ == "Invalid sort order: "@ + s@,
            },
    {
        parse_sort_order(s)
    }
}

// ---------------------------------------------------------------------------
// Matching
// ---------------------------------------------------------------------------

/// The optional field is present and contains `q` (lowercased), ignoring case.
pub open spec fn opt_field_matches(o: Option<String>, q: Seq<char>) -> bool {
    o matches Some(s) && lower_contains_spec(s@, unicode_lowercase(q))
}

/// Some string of the list is exactly `q`.
pub open spec fn has_exact(v: Seq<String>, q: Seq<char>) -> bool {
    exists|i: int| 0 <= i < v.len() && (#[trigger] v[i])@ == q
}

/// A free-text query matches a mod when, once lowercased, it is found in one
/// of its text fields or tags ignoring case, or equals one of its mod id
/// strings.
pub open spec fn matches_text_spec(m: ModApi, query: Seq<char>) -> bool {
    let q = unicode_lowercase(query);
    opt_field_matches(m.name, q) || opt_field_matches(m.summary, q) || opt_field_matches(
        m.author,
        q,
    ) || opt_field_matches(m.mod_type, q) || opt_field_matches(m.side, q) || has_exact(
        m.mod_id_strs@,
        q,
    ) || opt_field_matches(m.url_alias, q) || any_contains_ignore_case(m.tags@, q)
}

/// A free-text query, once lowercased, matches a mod when any one of these
/// holds, and only then: its name, summary, author, type, side or URL alias
/// contains it ignoring case, one of its tags contains it ignoring case, or
/// one of its mod id strings equals it.
pub proof fn lemma_text_match_fields(m: ModApi, query: Seq<char>)
    ensures
        opt_field_matches(m.name, unicode_lowercase(query)) ==> matches_text_spec(m, query),
        opt_field_matches(m.summary, unicode_lowercase(query)) ==> matches_text_spec(m, query),
        opt_field_matches(m.author, unicode_lowercase(query)) ==> matches_text_spec(m, query),
        opt_field_matches(m.mod_type, unicode_lowercase(query)) ==> matches_text_spec(m, query),
        opt_field_matches(m.side, unicode_lowercase(query)) ==> matches_text_spec(m, query),
        opt_field_matches(m.url_alias, unicode_lowercase(query)) ==> matches_text_spec(m, query),
        any_contains_ignore_case(m.tags@, unicode_lowercase(query)) ==> matches_text_spec(m, query),
        has_exact(m.mod_id_strs@, unicode_lowercase(query)) ==> matches_text_spec(m, query),
        matches_text_spec(m, query) ==> opt_field_matches(m.name, unicode_lowercase(query)) || opt_field_matches(
            m.summary,
            unicode_lowercase(query),
        ) || opt_field_matches(m.author, unicode_lowercase(query)) || opt_field_matches(
            m.mod_type,
            unicode_lowercase(query),
        ) || opt_field_matches(m.side, unicode_lowercase(query)) || opt_field_matches(
            m.url_alias,
            unicode_lowercase(query),
        ) || any_contains_ignore_case(m.tags@, unicode_lowercase(query)) || has_exact(
            m.mod_id_strs@,
            unicode_lowercase(query),
        ),
{
}

/// A field query: the field (or one of the tags) contains the value, ignoring
/// case; the mod id strings must hold the value exactly.
pub open spec fn matches_field_spec(m: ModApi, field: Field, value: Seq<char>) -> bool {
    match field {
        Field::Name => opt_field_matches(m.name, value),
        Field::Summary => opt_field_matches(m.summary, value),
        Field::Author => opt_field_matches(m.author, value),
        Field::ModType => opt_field_matches(m.mod_type, value),
        Field::Side => opt_field_matches(m.side, value),
        Field::ModIdStr => has_exact(m.mod_id_strs@, value),
        Field::UrlAlias => opt_field_matches(m.url_alias, value),
        Field::Tags => any_contains_ignore_case(m.tags@, value),
    }
}

pub open spec fn matches_id_spec(m: ModApi, id: u32) -> bool {
    m.mod_id == id || m.asset_id == id
}

pub open spec fn matches_tag_spec(m: ModApi, tag: Seq<char>) -> bool {
    any_contains_ignore_case(m.tags@, unicode_lowercase(tag))
}

pub open spec fn criterion_holds(m: ModApi, c: SearchCriteria) -> bool {
    match c {
        SearchCriteria::Text(q) => matches_text_spec(m, q@),
        SearchCriteria::Field { field, value } => matches_field_spec(m, field, value@),
        SearchCriteria::Id(id) => matches_id_spec(m, id),
        SearchCriteria::Tag(t) => matches_tag_spec(m, t@),
    }
}

pub open spec fn all_criteria_hold(m: ModApi, cs: Seq<SearchCriteria>) -> bool {
    forall|k: int| 0 <= k < cs.len() ==> criterion_holds(m, #[trigger] cs[k])
}

/// The ways a mod can be matched by a search.
pub trait Searchable {
    spec fn text_match(&self, query: Seq<char>) -> bool;

    spec fn field_match(&self, field: Field, value: Seq<char>) -> bool;

    spec fn id_match(&self, id: u32) -> bool;

    spec fn tag_match(&self, tag: Seq<char>) -> bool;

    fn matches_text(&self, query: &str) -> (r: bool)
        ensures
            r == self.text_match(query@),
    ;

    fn matches_field(&self, field: &Field, value: &str) -> (r: bool)
        ensures
            r == self.field_match(*field, value@),
    ;

    fn matches_id(&self, id: u32) -> (r: bool)
        ensures
            r == self.id_match(id),
    ;

    fn matches_tag(&self, tag: &str) -> (r: bool)
        ensures
            r == self.tag_match(tag@),
    ;
}

impl Searchable for ModApi {
    open spec fn text_match(&self, query: Seq<char>) -> bool {
        matches_text_spec(*self, query)
    }

    open spec fn field_match(&self, field: Field, value: Seq<char>) -> bool {
        matches_field_spec(*self, field, value)
    }

    open spec fn id_match(&self, id: u32) -> bool {
        matches_id_spec(*self, id)
    }

    open spec fn tag_match(&self, tag: Seq<char>) -> bool {
        matches_tag_spec(*self, tag)
    }

    fn matches_text(&self, query: &str) -> (r: bool)
        ensures
            opt_field_matches(self.name, unicode_lowercase(query@)) ==> r,
            opt_field_matches(self.summary, unicode_lowercase(query@)) ==> r,
            opt_field_matches(self.author, unicode_lowercase(query@)) ==> r,
            opt_field_matches(self.mod_type, unicode_lowercase(query@)) ==> r,
            opt_field_matches(self.side, unicode_lowercase(query@)) ==> r,
            opt_field_matches(self.url_alias, unicode_lowercase(query@)) ==> r,
            any_contains_ignore_case(self.tags@, unicode_lowercase(query@)) ==> r,
            has_exact(self.mod_id_strs@, unicode_lowercase(query@)) ==> r,
    {
        proof {
            lemma_text_match_fields(*self, query@);
        }
        let q = to_lowercase(query);
        let qs = q.as_str();
        self.name.matches_contains(qs) || self.summary.matches_contains(qs)
            || self.author.matches_contains(qs) || self.mod_type.matches_contains(qs)
            || self.side.matches_contains(qs) || vec_contains_string(&self.mod_id_strs, qs)
            || self.url_alias.matches_contains(qs) || self.tags.contains_ignore_case(qs)
    }

    fn matches_field(&self, field: &Field, value: &str) -> (r: bool) {
        match field {
            Field::Name => self.name.matches_contains(value),
            Field::Summary => self.summary.matches_contains(value),
            Field::Author => self.author.matches_contains(value),
            Field::ModType => self.mod_type.matches_contains(value),
            Field::Side => self.side.matches_contains(value),
            Field::ModIdStr => vec_contains_string(&self.mod_id_strs, value),
            Field::UrlAlias => self.url_alias.matches_contains(value),
            Field::Tags => self.tags.contains_ignore_case(value),
        }
    }

    fn matches_id(&self, id: u32) -> (r: bool) {
        self.mod_id == id || self.asset_id == id
    }

    fn matches_tag(&self, tag: &str) -> (r: bool) {
        let t = to_lowercase(tag);
        self.tags.contains_ignore_case(t.as_str())
    }
}

fn criterion_matches(m: &ModApi, c: &SearchCriteria) -> (r: bool)
    ensures
        r == criterion_holds(*m, *c),
{
    match c {
        SearchCriteria::Text(q) => m.matches_text(q.as_str()),
        SearchCriteria::Field { field, value } => m.matches_field(field, value.as_str()),
        SearchCriteria::Id(id) => m.matches_id(*id),
        SearchCriteria::Tag(t) => m.matches_tag(t.as_str()),
    }
}

fn all_match(m: &ModApi, cs: &Vec<SearchCriteria>) -> (r: bool)
    ensures
        r == all_criteria_hold(*m, cs@),
{
    let mut k: usize = 0;
    while k < cs.len()
        invariant
            k <= cs@.len(),
            forall|j: int| 0 <= j < k ==> criterion_holds(*m, #[trigger] cs@[j]),
        decreases cs.len() - k,
    {
        if !criterion_matches(m, &cs[k]) {
            return false;
        }
        k += 1;
    }
    true
}

// ---------------------------------------------------------------------------
// Sort keys
// ---------------------------------------------------------------------------

/// The abstract value of a sort key.
pub enum SortKey {
    Num(int),
    Txt(Seq<char>),
    Dt(Seq<char>),
}

impl SortValue {
    pub open spec fn key(&self) -> SortKey {
        match self {
            SortValue::Number(n) => SortKey::Num(*n as int),
            SortValue::Text(s) => SortKey::Txt(s@),
            SortValue::Date(s) => SortKey::Dt(s@),
        }
    }
}

/// The value a mod is sorted by for each choice: the field the choice
/// names (counts as numbers, name and author as text, the release date as a
/// date; a missing text counts as empty).
pub open spec fn sort_key(m: ModApi, f: SortBy) -> SortKey {
    match f {
        SortBy::ModId => SortKey::Num(m.mod_id as int),
        SortBy::AssetId => SortKey::Num(m.asset_id as int),
        SortBy::Downloads => SortKey::Num(m.downloads as int),
        SortBy::Follows => SortKey::Num(m.follows as int),
        SortBy::Trending => SortKey::Num(m.trending_points as int),
        SortBy::Comments => SortKey::Num(m.comments as int),
        SortBy::Name => SortKey::Txt(or_empty(m.name)),
        SortBy::Author => SortKey::Txt(or_empty(m.author)),
        SortBy::Released => SortKey::Dt(or_empty(m.last_released)),
    }
}

/// Sorting values of one kind compare; values of different kinds do not.
pub open spec fn key_order(a: SortKey, b: SortKey) -> Option<Ordering> {
    match (a, b) {
        (SortKey::Num(x), SortKey::Num(y)) => Some(
            if x < y {
                Ordering::Less
            } else if x > y {
                Ordering::Greater
            } else {
                Ordering::Equal
            },
        ),
        (SortKey::Txt(x), SortKey::Txt(y)) => Some(lex_order(x, y)),
        (SortKey::Dt(x), SortKey::Dt(y)) => Some(lex_order(x, y)),
        _ => None,
    }
}

/// The value `m` is sorted by.
pub trait Sortable {
    spec fn sort_value(&self, field: SortBy) -> SortKey;

    fn get_sort_by(&self, field: &SortBy) -> (r: SortValue)
        ensures
            r.key() == self.sort_value(*field),
    ;
}

impl Sortable for ModApi {
    open spec fn sort_value(&self, field: SortBy) -> SortKey {
        sort_key(*self, field)
    }

    fn get_sort_by(&self, field: &SortBy) -> (r: SortValue) {
        match *field {
            SortBy::ModId => SortValue::Number(self.mod_id as i64),
            SortBy::AssetId => SortValue::Number(self.asset_id as i64),
            SortBy::Downloads => SortValue::Number(self.downloads as i64),
            SortBy::Follows => SortValue::Number(self.follows as i64),
            SortBy::Trending => SortValue::Number(self.trending_points as i64),
            SortBy::Comments => SortValue::Number(self.comments as i64),
            SortBy::Name => SortValue::Text(unwrap_or_empty(&self.name)),
            SortBy::Author => SortValue::Text(unwrap_or_empty(&self.author)),
            SortBy::Released => SortValue::Date(unwrap_or_empty(&self.last_released)),
        }
    }
}

impl SortValue {
    /// Numbers compare as integers, texts and dates lexicographically; values
    /// of different kinds are unordered.
    pub fn partial_cmp(&self, other: &SortValue) -> (r: Option<Ordering>)
        ensures
            r == key_order(self.key(), other.key()),
    {
        match (self, other) {
            (SortValue::Number(a), SortValue::Number(b)) => Some(compare_i64(*a, *b)),
            (SortValue::Text(a), SortValue::Text(b)) => Some(compare_text(a.as_str(), b.as_str())),
            (SortValue::Date(a), SortValue::Date(b)) => Some(compare_text(a.as_str(), b.as_str())),
            _ => None,
        }
    }
}

/// The comparison used to sort results: by the keys (unordered counting as
/// equal), reversed for descending order.
pub open spec fn result_order(a: ModApi, b: ModApi, f: SortBy, o: SortOrder) -> Ordering {
    let base = match key_order(sort_key(a, f), sort_key(b, f)) {
        Some(x) => x,
        None => Ordering::Equal,
    };
    match o {
        SortOrder::Asc => base,
        SortOrder::Desc => flip(base),
    }
}

/// `a` sorts strictly after `b`.
pub open spec fn sorts_after(a: ModApi, b: ModApi, f: SortBy, o: SortOrder) -> bool {
    result_order(a, b, f, o) == Ordering::Greater
}

proof fn lemma_key_order_total(a: ModApi, b: ModApi, c: ModApi, f: SortBy)
    ensures
        key_order(sort_key(a, f), sort_key(b, f)) is Some,
        key_order(sort_key(a, f), sort_key(a, f)) == Some(Ordering::Equal),
        key_order(sort_key(a, f), sort_key(b, f)) == Some(
            flip(key_order(sort_key(b, f), sort_key(a, f))->Some_0),
        ),
        key_order(sort_key(a, f), sort_key(b, f)) != Some(Ordering::Greater) && key_order(
            sort_key(b, f),
            sort_key(c, f),
        ) != Some(Ordering::Greater) ==> key_order(sort_key(a, f), sort_key(c, f)) != Some(
            Ordering::Greater,
        ),
        key_order(sort_key(a, f), sort_key(b, f)) == Some(Ordering::Less) && key_order(
            sort_key(b, f),
            sort_key(c, f),
        ) != Some(Ordering::Greater) ==> key_order(sort_key(a, f), sort_key(c, f)) == Some(
            Ordering::Less,
        ),
{
    match (sort_key(a, f), sort_key(b, f), sort_key(c, f)) {
        (SortKey::Txt(x), SortKey::Txt(y), SortKey::Txt(z)) => {
            lemma_lex_reflexive(x);
            lemma_lex_antisymmetric(x, y);
            if lex_order(x, y) != Ordering::Greater && lex_order(y, z) != Ordering::Greater {
                lemma_lex_transitive(x, y, z);
            }
        },
        (SortKey::Dt(x), SortKey::Dt(y), SortKey::Dt(z)) => {
            lemma_lex_reflexive(x);
            lemma_lex_antisymmetric(x, y);
            if lex_order(x, y) != Ordering::Greater && lex_order(y, z) != Ordering::Greater {
                lemma_lex_transitive(x, y, z);
            }
        },
        _ => {},
    }
}

/// `sorts_after` is the strict part of a total preorder: when `y` sorts
/// after `x` and `z` does not sort before `y`, then `z` sorts after `x`.
pub proof fn lemma_sorts_after_step(x: ModApi, y: ModApi, z: ModApi, f: SortBy, o: SortOrder)
    requires
        sorts_after(y, x, f, o),
        !sorts_after(y, z, f, o),
    ensures
        sorts_after(z, x, f, o),
{
    lemma_key_order_total(x, y, z, f);
    lemma_key_order_total(y, x, z, f);
    lemma_key_order_total(z, y, x, f);
    lemma_key_order_total(x, z, y, f);
    lemma_key_order_total(y, z, x, f);
    lemma_key_order_total(z, x, y, f);
}

/// Two mods never sort after each other.
pub proof fn lemma_sorts_after_asymmetric(x: ModApi, y: ModApi, f: SortBy, o: SortOrder)
    ensures
        sorts_after(x, y, f, o) ==> !sorts_after(y, x, f, o),
{
    lemma_key_order_total(x, y, x, f);
}

/// Nothing sorts after itself.
pub proof fn lemma_sorts_after_irreflexive(x: ModApi, f: SortBy, o: SortOrder)
    ensures
        !sorts_after(x, x, f, o),
{
    lemma_key_order_total(x, x, x, f);
}

/// Does `a` sort strictly after `b`?
fn sorts_after_exec(a: &ModApi, b: &ModApi, f: &SortBy, o: &SortOrder) -> (r: bool)
    ensures
        r == sorts_after(*a, *b, *f, *o),
{
    let a_val = a.get_sort_by(f);
    let b_val = b.get_sort_by(f);
    let base = match a_val.partial_cmp(&b_val) {
        Some(x) => x,
        None => Ordering::Equal,
    };
    let order = match o {
        SortOrder::Asc => base,
        SortOrder::Desc => match base {
            Ordering::Less => Ordering::Greater,
            Ordering::Greater => Ordering::Less,
            Ordering::Equal => Ordering::Equal,
        },
    };
    match order {
        Ordering::Greater => true,
        _ => false,
    }
}

} // verus!

verus! {

// ---------------------------------------------------------------------------
// Running a search
// ---------------------------------------------------------------------------

/// `idx` lists, in increasing order, exactly the positions of the mods that
/// meet every criterion.
pub open spec fn is_selection(mods: Seq<ModApi>, cs: Seq<SearchCriteria>, idx: Seq<usize>) -> bool {
    &&& forall|a: int, b: int| 0 <= a < b < idx.len() ==> idx[a] < idx[b]
    &&& forall|k: int|
        0 <= k < idx.len() ==> #[trigger] idx[k] < mods.len() && all_criteria_hold(
            mods[idx[k] as int],
            cs,
        )
    &&& forall|j: int|
        0 <= j < mods.len() && all_criteria_hold(#[trigger] mods[j], cs) ==> exists|k: int|
            0 <= k < idx.len() && idx[k] == j
}

/// `out` holds the same positions as `inp`, each once.
pub open spec fn same_positions(inp: Seq<usize>, out: Seq<usize>) -> bool {
    &&& out.len() == inp.len()
    &&& out.no_duplicates()
    &&& out.to_set() == inp.to_set()
}

/// No mod sorts after a mod that comes later.
pub open spec fn sorted_by(mods: Seq<ModApi>, s: Seq<usize>, f: SortBy, o: SortOrder) -> bool {
    forall|a: int, b: int|
        0 <= a < b < s.len() ==> !sorts_after(mods[s[a] as int], mods[s[b] as int], f, o)
}

/// Mods that sort alike keep their relative order.
pub open spec fn stable_by(mods: Seq<ModApi>, s: Seq<usize>, f: SortBy, o: SortOrder) -> bool {
    forall|a: int, b: int|
        0 <= a < b < s.len() && !sorts_after(mods[s[b] as int], mods[s[a] as int], f, o)
            ==> s[a] < s[b]
}

fn select_indices(mods: &[ModApi], cs: &Vec<SearchCriteria>) -> (r: Vec<usize>)
    ensures
        is_selection(mods@, cs@, r@),
{
    let mut r: Vec<usize> = Vec::new();
    let mut i: usize = 0;
    while i < mods.len()
        invariant
            i <= mods@.len(),
            forall|a: int, b: int| 0 <= a < b < r@.len() ==> r@[a] < r@[b],
            forall|k: int|
                0 <= k < r@.len() ==> #[trigger] r@[k] < i && all_criteria_hold(
                    mods@[r@[k] as int],
                    cs@,
                ),
            forall|j: int|
                0 <= j < i && all_criteria_hold(#[trigger] mods@[j], cs@) ==> exists|k: int|
                    0 <= k < r@.len() && r@[k] == j,
        decreases mods.len() - i,
    {
        let ghost old_r = r@;
        if all_match(&mods[i], cs) {
            r.push(i);
            assert(r@[r@.len() - 1] == i);
        }
        proof {
            assert forall|j: int|
                0 <= j < i + 1 && all_criteria_hold(#[trigger] mods@[j], cs@) implies exists|k: int|
                0 <= k < r@.len() && r@[k] == j by {
                if j < i {
                    let k = choose|k: int| 0 <= k < old_r.len() && old_r[k] == j;
                    assert(r@[k] == old_r[k]);
                } else {
                    assert(r@[r@.len() - 1] == i);
                }
            }
        }
        i += 1;
    }
    r
}

/// Inserting `x` before the first position that sorts after it keeps a
/// sorted, stable order sorted and stable (all earlier positions are below `x`).
proof fn lemma_insert_sorted(
    mods: Seq<ModApi>,
    old_out: Seq<usize>,
    p: usize,
    x: usize,
    f: SortBy,
    o: SortOrder,
)
    requires
        p <= old_out.len(),
        x < mods.len(),
        forall|k: int| 0 <= k < old_out.len() ==> #[trigger] old_out[k] < mods.len(),
        forall|k: int| 0 <= k < old_out.len() ==> #[trigger] old_out[k] < x,
        forall|k: int|
            0 <= k < p ==> !sorts_after(mods[#[trigger] old_out[k] as int], mods[x as int], f, o),
        p < old_out.len() ==> sorts_after(mods[old_out[p as int] as int], mods[x as int], f, o),
        sorted_by(mods, old_out, f, o),
        stable_by(mods, old_out, f, o),
    ensures
        sorted_by(mods, insert_at(old_out, p, x), f, o),
        stable_by(mods, insert_at(old_out, p, x), f, o),
{
    let n = insert_at(old_out, p, x);
    let mx = mods[x as int];
    assert forall|a: int, b: int| 0 <= a < b < n.len() implies !sorts_after(
        mods[n[a] as int],
        mods[n[b] as int],
        f,
        o,
    ) by {
        if a < p && b < p {
        } else if a < p && b == p {
        } else if a < p && b > p {
            assert(n[b] == old_out[b - 1]);
        } else if a == p {
            let z = mods[old_out[b - 1] as int];
            let y = mods[old_out[p as int] as int];
            assert(n[b] == old_out[b - 1]);
            if b - 1 > p {
                assert(!sorts_after(y, z, f, o));
            } else {
                lemma_sorts_after_irreflexive(y, f, o);
            }
            lemma_sorts_after_step(mx, y, z, f, o);
            lemma_sorts_after_asymmetric(z, mx, f, o);
        } else {
            assert(n[a] == old_out[a - 1]);
            assert(n[b] == old_out[b - 1]);
        }
    }
    assert forall|a: int, b: int|
        0 <= a < b < n.len() && !sorts_after(mods[n[b] as int], mods[n[a] as int], f, o) implies n[a]
        < n[b] by {
        if a < p && b < p {
        } else if a < p && b == p {
        } else if a < p && b > p {
            assert(n[b] == old_out[b - 1]);
        } else if a == p {
            let z = mods[old_out[b - 1] as int];
            let y = mods[old_out[p as int] as int];
            assert(n[b] == old_out[b - 1]);
            if b - 1 > p {
                assert(!sorts_after(y, z, f, o));
            } else {
                lemma_sorts_after_irreflexive(y, f, o);
            }
            lemma_sorts_after_step(mx, y, z, f, o);
        } else {
            assert(n[a] == old_out[a - 1]);
            assert(n[b] == old_out[b - 1]);
        }
    }
}

/// Inserting a position adds it to the set of positions.
pub proof fn lemma_insert_to_set(s: Seq<usize>, p: usize, x: usize)
    requires
        p <= s.len(),
    ensures
        insert_at(s, p, x).to_set() == s.to_set().insert(x),
        insert_at(s, p, x).len() == s.len() + 1,
{
    let n = insert_at(s, p, x);
    assert forall|a: usize| n.contains(a) implies s.contains(a) || a == x by {
        let k = choose|k: int| 0 <= k < n.len() && n[k] == a;
        if k < p {
            assert(s[k] == a);
        } else if k > p {
            assert(s[k - 1] == a);
        }
    }
    assert forall|a: usize| s.contains(a) || a == x implies n.contains(a) by {
        if a == x {
            assert(n[p as int] == x);
        } else {
            let k = choose|k: int| 0 <= k < s.len() && s[k] == a;
            if k < p {
                assert(n[k] == a);
            } else {
                assert(n[k + 1] == a);
            }
        }
    }
    assert(n.to_set() =~= s.to_set().insert(x));
}

/// Inserting a position not yet present keeps the positions distinct.
pub proof fn lemma_insert_no_duplicates(s: Seq<usize>, p: usize, x: usize)
    requires
        p <= s.len(),
        s.no_duplicates(),
        !s.contains(x),
    ensures
        insert_at(s, p, x).no_duplicates(),
{
    let n = insert_at(s, p, x);
    assert forall|a: int, b: int| 0 <= a < n.len() && 0 <= b < n.len() && a != b implies n[a]
        != n[b] by {
        if a == p {
            if b < p {
                assert(s.contains(s[b]));
            } else {
                assert(s.contains(s[b - 1]));
            }
        } else if b == p {
            if a < p {
                assert(s.contains(s[a]));
            } else {
                assert(s.contains(s[a - 1]));
            }
        } else {
            let a2 = if a < p { a } else { a - 1 };
            let b2 = if b < p { b } else { b - 1 };
            assert(n[a] == s[a2]);
            assert(n[b] == s[b2]);
        }
    }
}

/// Inserting the next input position keeps `out` a rearrangement of the
/// input read so far.
pub proof fn lemma_insert_positions(inp: Seq<usize>, t: usize, old_out: Seq<usize>, p: usize, x: usize)
    requires
        t < inp.len(),
        t < usize::MAX,
        x == inp[t as int],
        p <= old_out.len(),
        same_positions(prefix(inp, t), old_out),
        forall|k: int| 0 <= k < old_out.len() ==> #[trigger] old_out[k] < x,
    ensures
        same_positions(prefix(inp, (t + 1) as usize), insert_at(old_out, p, x)),
{
    let pre = prefix(inp, t);
    let pre2 = prefix(inp, (t + 1) as usize);
    assert(pre2 =~= pre.push(x));
    if old_out.contains(x) {
        let k = choose|k: int| 0 <= k < old_out.len() && old_out[k] == x;
        assert(old_out[k] < x);
    }
    lemma_insert_to_set(old_out, p, x);
    lemma_insert_no_duplicates(old_out, p, x);
    assert(pre2.to_set() =~= pre.to_set().insert(x)) by {
        assert forall|a: usize| pre2.contains(a) implies pre.contains(a) || a == x by {
            let k = choose|k: int| 0 <= k < pre2.len() && pre2[k] == a;
            if k < pre.len() {
                assert(pre[k] == a);
            }
        }
        assert forall|a: usize| pre.contains(a) || a == x implies pre2.contains(a) by {
            if a == x {
                assert(pre2[pre.len() as int] == x);
            } else {
                let k = choose|k: int| 0 <= k < pre.len() && pre[k] == a;
                assert(pre2[k] == a);
            }
        }
    }
}

/// Stable insertion sort of positions by the sort order of their mods.
fn sort_positions(mods: &[ModApi], inp: &Vec<usize>, f: &SortBy, o: &SortOrder) -> (out: Vec<usize>)
    requires
        forall|a: int, b: int| 0 <= a < b < inp@.len() ==> inp@[a] < inp@[b],
        forall|k: int| 0 <= k < inp@.len() ==> #[trigger] inp@[k] < mods@.len(),
    ensures
        same_positions(inp@, out@),
        sorted_by(mods@, out@, *f, *o),
        stable_by(mods@, out@, *f, *o),
        forall|k: int| 0 <= k < out@.len() ==> #[trigger] out@[k] < mods@.len(),
{
    let mut out: Vec<usize> = Vec::new();
    let mut t: usize = 0;
    assert(prefix(inp@, 0) =~= out@);
    while t < inp.len()
        invariant
            t <= inp@.len(),
            forall|a: int, b: int| 0 <= a < b < inp@.len() ==> inp@[a] < inp@[b],
            forall|k: int| 0 <= k < inp@.len() ==> #[trigger] inp@[k] < mods@.len(),
            same_positions(prefix(inp@, t), out@),
            forall|k: int| 0 <= k < out@.len() ==> #[trigger] out@[k] < mods@.len(),
            sorted_by(mods@, out@, *f, *o),
            stable_by(mods@, out@, *f, *o),
        decreases inp.len() - t,
    {
        let x = inp[t];
        let ghost old_out = out@;
        let ghost pre = prefix(inp@, t);
        proof {
            assert forall|k: int| 0 <= k < old_out.len() implies #[trigger] old_out[k] < x by {
                assert(old_out.contains(old_out[k]));
                assert(old_out.to_set().contains(old_out[k]));
                assert(pre.to_set().contains(old_out[k]));
                let j = choose|j: int| 0 <= j < pre.len() && pre[j] == old_out[k];
                assert(pre[j] == inp@[j]);
            }
        }
        let mut p: usize = 0;
        while p < out.len() && !sorts_after_exec(&mods[out[p]], &mods[x], f, o)
            invariant
                p <= out@.len(),
                out@ == old_out,
                x < mods@.len(),
                forall|k: int| 0 <= k < old_out.len() ==> #[trigger] old_out[k] < mods@.len(),
                forall|k: int|
                    0 <= k < p ==> !sorts_after(
                        mods@[#[trigger] old_out[k] as int],
                        mods@[x as int],
                        *f,
                        *o,
                    ),
            decreases out.len() - p,
        {
            p += 1;
        }
        out.insert(p, x);
        proof {
            assert forall|k: int| 0 <= k < out@.len() implies #[trigger] out@[k] < mods@.len() by {
                if k < p {
                    assert(out@[k] == old_out[k]);
                } else if k > p {
                    assert(out@[k] == old_out[k - 1]);
                }
            }
            lemma_insert_sorted(mods@, old_out, p, x, *f, *o);
            lemma_insert_positions(inp@, t, old_out, p, x);
        }
        t += 1;
    }
    assert(prefix(inp@, t) == inp@);
    out
}

/// Copies the mods at the given positions, in that order.
fn copy_at(mods: &[ModApi], idx: &Vec<usize>) -> (r: Vec<ModApi>)
    requires
        forall|k: int| 0 <= k < idx@.len() ==> #[trigger] idx@[k] < mods@.len(),
    ensures
        r@.len() == idx@.len(),
        forall|k: int| 0 <= k < r@.len() ==> (#[trigger] r@[k]).same_as(&mods@[idx@[k] as int]),
{
    let mut r: Vec<ModApi> = Vec::new();
    let mut k: usize = 0;
    while k < idx.len()
        invariant
            k <= idx@.len(),
            r@.len() == k,
            forall|k: int| 0 <= k < idx@.len() ==> #[trigger] idx@[k] < mods@.len(),
            forall|j: int| 0 <= j < k ==> (#[trigger] r@[j]).same_as(&mods@[idx@[j] as int]),
        decreases idx.len() - k,
    {
        r.push(mods[idx[k]].duplicate());
        k += 1;
    }
    r
}

/// What a search returns: the mods that meet every criterion (all of them
/// when there is none), in their given order, or, when a sort field is
/// set, stably sorted by it in the chosen direction.
pub open spec fn search_result(
    q: SearchQuery,
    mods: Seq<ModApi>,
    r: Seq<ModApi>,
    idx: Seq<usize>,
) -> bool {
    &&& r.len() == idx.len()
    &&& forall|k: int| 0 <= k < r.len() ==> (#[trigger] r[k]).same_as(&mods[idx[k] as int])
    &&& exists|sel: Seq<usize>| is_selection(mods, q.criteria@, sel) && match q.sort_by {
        None => idx == sel,
        Some(f) => {
            &&& same_positions(sel, idx)
            &&& sorted_by(mods, idx, f, q.sort_order)
            &&& stable_by(mods, idx, f, q.sort_order)
        },
    }
}

impl SearchQuery {
    /// A query with no criterion, unsorted, ascending.
    pub fn new() -> (r: Self)
        ensures
            r.criteria@.len() == 0,
            r.sort_by is None,
            r.sort_order == SortOrder::Asc,
    {
        SearchQuery { criteria: Vec::new(), sort_by: None, sort_order: SortOrder::Asc }
    }

    /// Adds a free-text criterion.
    pub fn add_text_search(self, text: String) -> (r: Self)
        ensures
            r.criteria@ == self.criteria@.push(SearchCriteria::Text(text)),
            r.sort_by == self.sort_by,
            r.sort_order == self.sort_order,
    {
        let mut q = self;
        q.criteria.push(SearchCriteria::Text(text));
        q
    }

    /// Adds a criterion on one field.
    pub fn add_field_search(self, field: Field, value: String) -> (r: Self)
        ensures
            r.criteria@ == self.criteria@.push(SearchCriteria::Field { field, value }),
            r.sort_by == self.sort_by,
            r.sort_order == self.sort_order,
    {
        let mut q = self;
        q.criteria.push(SearchCriteria::Field { field, value });
        q
    }

    /// Adds a criterion on the mod id or asset id.
    pub fn add_id_search(self, id: u32) -> (r: Self)
        ensures
            r.criteria@ == self.criteria@.push(SearchCriteria::Id(id)),
            r.sort_by == self.sort_by,
            r.sort_order == self.sort_order,
    {
        let mut q = self;
        q.criteria.push(SearchCriteria::Id(id));
        q
    }

    /// Adds a criterion on the tags.
    pub fn add_tag_search(self, tag: String) -> (r: Self)
        ensures
            r.criteria@ == self.criteria@.push(SearchCriteria::Tag(tag)),
            r.sort_by == self.sort_by,
            r.sort_order == self.sort_order,
    {
        let mut q = self;
        q.criteria.push(SearchCriteria::Tag(tag));
        q
    }

    /// Sorts the results by `field`, keeping the direction.
    pub fn sort_by(self, field: SortBy) -> (r: Self)
        ensures
            r.criteria == self.criteria,
            r.sort_by == Some(field),
            r.sort_order == self.sort_order,
    {
        let mut q = self;
        q.sort_by = Some(field);
        q
    }

    /// Sorts the results by `field` in direction `order`.
    pub fn with_sort(self, field: SortBy, order: SortOrder) -> (r: Self)
        ensures
            r.criteria == self.criteria,
            r.sort_by == Some(field),
            r.sort_order == order,
    {
        let mut q = self;
        q.sort_by = Some(field);
        q.sort_order = order;
        q
    }

    /// Runs the search over `mods`.
    pub fn execute(&self, mods: &[ModApi]) -> (r: Vec<ModApi>)
        ensures
            exists|idx: Seq<usize>| search_result(*self, mods@, r@, idx),
    {
        let sel = select_indices(mods, &self.criteria);
        let ghost sel_v = sel@;
        let idx = match &self.sort_by {
            Some(f) => sort_positions(mods, &sel, f, &self.sort_order),
            None => sel,
        };
        let r = copy_at(mods, &idx);
        assert(is_selection(mods@, self.criteria@, sel_v));
        assert(search_result(*self, mods@, r@, idx@));
        r
    }
}

// ---------------------------------------------------------------------------
// Laws of the search
// ---------------------------------------------------------------------------

/// The mods that meet every criterion, in their given order.
pub open spec fn matching(mods: Seq<ModApi>, cs: Seq<SearchCriteria>) -> Seq<ModApi> {
    mods.filter(|m: ModApi| all_criteria_hold(m, cs))
}

/// A selection lists exactly the positions of `matching`, in order.
proof fn lemma_selection_is_matching(mods: Seq<ModApi>, cs: Seq<SearchCriteria>, sel: Seq<usize>)
    requires
        is_selection(mods, cs, sel),
    ensures
        sel.len() == matching(mods, cs).len(),
        forall|k: int| 0 <= k < sel.len() ==> mods[#[trigger] sel[k] as int] == matching(mods, cs)[k],
    decreases mods.len(),
{
    reveal(Seq::filter);
    if mods.len() == 0 {
        if sel.len() > 0 {
            assert(sel[0] < mods.len());
        }
    } else {
        let n = mods.len() - 1;
        let d = mods.drop_last();
        assert(matching(mods, cs) == (if all_criteria_hold(mods.last(), cs) {
            matching(d, cs).push(mods.last())
        } else {
            matching(d, cs)
        }));
        if all_criteria_hold(mods[n], cs) {
            assert(all_criteria_hold(mods[n], cs));
            let kk = choose|k: int| 0 <= k < sel.len() && sel[k] == n;
            if kk < sel.len() - 1 {
                assert(sel[kk] < sel[kk + 1]);
                assert(sel[kk + 1] < mods.len());
            }
            let s2 = sel.drop_last();
            assert forall|k: int| 0 <= k < s2.len() implies #[trigger] s2[k] < d.len() && all_criteria_hold(
                d[s2[k] as int],
                cs,
            ) by {
                assert(sel[k] < sel[sel.len() - 1]);
                assert(s2[k] == sel[k]);
            }
            assert forall|j: int| 0 <= j < d.len() && all_criteria_hold(#[trigger] d[j], cs) implies exists|k: int|
                0 <= k < s2.len() && s2[k] == j by {
                assert(mods[j] == d[j]);
                assert(all_criteria_hold(mods[j], cs));
                let k = choose|k: int| 0 <= k < sel.len() && sel[k] == j;
                assert(k != sel.len() - 1);
                assert(s2[k] == j);
            }
            lemma_selection_is_matching(d, cs, s2);
            assert forall|k: int| 0 <= k < sel.len() implies mods[#[trigger] sel[k] as int] == matching(mods, cs)[k] by {
                if k < sel.len() - 1 {
                    assert(s2[k] == sel[k]);
                    assert(d[s2[k] as int] == matching(d, cs)[k]);
                }
            }
        } else {
            assert forall|k: int| 0 <= k < sel.len() implies #[trigger] sel[k] < d.len() && all_criteria_hold(
                d[sel[k] as int],
                cs,
            ) by {
                assert(all_criteria_hold(mods[sel[k] as int], cs));
                if sel[k] == n {
                    assert(false);
                }
            }
            assert forall|j: int| 0 <= j < d.len() && all_criteria_hold(#[trigger] d[j], cs) implies exists|k: int|
                0 <= k < sel.len() && sel[k] == j by {
                assert(mods[j] == d[j]);
                assert(all_criteria_hold(mods[j], cs));
            }
            lemma_selection_is_matching(d, cs, sel);
        }
    }
}

/// Without a sort field, a search gives exactly the mods that meet every
/// criterion, in their given order (all the mods when there is no
/// criterion).
pub proof fn lemma_unsorted_search_is_matching(q: SearchQuery, mods: Seq<ModApi>, r: Seq<ModApi>, idx: Seq<usize>)
    requires
        q.sort_by is None,
        search_result(q, mods, r, idx),
    ensures
        r.len() == matching(mods, q.criteria@).len(),
        forall|k: int| 0 <= k < r.len() ==> (#[trigger] r[k]).same_as(&matching(mods, q.criteria@)[k]),
        q.criteria@.len() == 0 ==> matching(mods, q.criteria@) == mods,
{
    let sel = choose|sel: Seq<usize>| is_selection(mods, q.criteria@, sel) && match q.sort_by {
        None => idx == sel,
        Some(f) => {
            &&& same_positions(sel, idx)
            &&& sorted_by(mods, idx, f, q.sort_order)
            &&& stable_by(mods, idx, f, q.sort_order)
        },
    };
    lemma_selection_is_matching(mods, q.criteria@, sel);
    assert forall|k: int| 0 <= k < r.len() implies (#[trigger] r[k]).same_as(&matching(mods, q.criteria@)[k]) by {
        assert(mods[sel[k] as int] == matching(mods, q.criteria@)[k]);
    }
    if q.criteria@.len() == 0 {
        lemma_no_criteria_matches_all(mods, q.criteria@);
    }
}

proof fn lemma_no_criteria_matches_all(mods: Seq<ModApi>, cs: Seq<SearchCriteria>)
    requires
        cs.len() == 0,
    ensures
        matching(mods, cs) == mods,
    decreases mods.len(),
{
    reveal(Seq::filter);
    if mods.len() > 0 {
        lemma_no_criteria_matches_all(mods.drop_last(), cs);
        assert(all_criteria_hold(mods.last(), cs));
        assert(mods.drop_last().push(mods.last()) =~= mods);
    }
}

/// Adding a criterion keeps, of what the search matched before, exactly the
/// mods that also meet the new criterion, in order; so it never widens the
/// result.
pub proof fn lemma_added_criterion_narrows(mods: Seq<ModApi>, cs: Seq<SearchCriteria>, c: SearchCriteria)
    ensures
        matching(mods, cs.push(c)) == matching(mods, cs).filter(|m: ModApi| criterion_holds(m, c)),
        matching(mods, cs.push(c)).len() <= matching(mods, cs).len(),
    decreases mods.len(),
{
    reveal(Seq::filter);
    if mods.len() > 0 {
        let d = mods.drop_last();
        let m = mods.last();
        lemma_added_criterion_narrows(d, cs, c);
        assert(all_criteria_hold(m, cs.push(c)) <==> all_criteria_hold(m, cs) && criterion_holds(m, c)) by {
            if all_criteria_hold(m, cs) && criterion_holds(m, c) {
                assert forall|k: int| 0 <= k < cs.push(c).len() implies criterion_holds(m, #[trigger] cs.push(c)[k]) by {
                    if k < cs.len() {
                        assert(cs.push(c)[k] == cs[k]);
                    }
                }
            }
            if all_criteria_hold(m, cs.push(c)) {
                assert(cs.push(c)[cs.len() as int] == c);
                assert forall|k: int| 0 <= k < cs.len() implies criterion_holds(m, #[trigger] cs[k]) by {
                    assert(cs.push(c)[k] == cs[k]);
                }
            }
        }
        assert(matching(mods, cs) == (if all_criteria_hold(m, cs) {
            matching(d, cs).push(m)
        } else {
            matching(d, cs)
        }));
        assert(matching(mods, cs.push(c)) == (if all_criteria_hold(m, cs.push(c)) {
            matching(d, cs.push(c)).push(m)
        } else {
            matching(d, cs.push(c))
        }));
        if all_criteria_hold(m, cs) {
            let mc = matching(mods, cs);
            assert(mc.drop_last() =~= matching(d, cs));
            assert(mc.last() == m);
        }
    }
}

/// With a sort field, consecutive results compare, by the values
/// `get_sort_by` gives for the field, as the direction asks: ascending, no
/// value is greater than the next; descending, none is less. The results
/// are the matching mods (see `is_selection`), rearranged.
pub proof fn lemma_sorted_search_order(q: SearchQuery, mods: Seq<ModApi>, r: Seq<ModApi>, idx: Seq<usize>)
    requires
        q.sort_by is Some,
        search_result(q, mods, r, idx),
    ensures
        forall|k: int|
            0 <= k < r.len() - 1 ==> match q.sort_order {
                SortOrder::Asc => key_order(
                    (#[trigger] r[k]).sort_value(q.sort_by->0),
                    r[k + 1].sort_value(q.sort_by->0),
                ) != Some(Ordering::Greater),
                SortOrder::Desc => key_order(
                    r[k].sort_value(q.sort_by->0),
                    r[k + 1].sort_value(q.sort_by->0),
                ) != Some(Ordering::Less),
            },
        exists|sel: Seq<usize>| is_selection(mods, q.criteria@, sel) && same_positions(sel, idx),
{
    let f = q.sort_by->0;
    assert forall|k: int| 0 <= k < r.len() - 1 implies match q.sort_order {
        SortOrder::Asc => key_order((#[trigger] r[k]).sort_value(f), r[k + 1].sort_value(f)) != Some(
            Ordering::Greater,
        ),
        SortOrder::Desc => key_order(r[k].sort_value(f), r[k + 1].sort_value(f)) != Some(Ordering::Less),
    } by {
        lemma_sorted_step(q, mods, r, idx, k);
    }
}

/// Two consecutive sorted results are in order.
proof fn lemma_sorted_step(q: SearchQuery, mods: Seq<ModApi>, r: Seq<ModApi>, idx: Seq<usize>, k: int)
    requires
        q.sort_by is Some,
        search_result(q, mods, r, idx),
        0 <= k < r.len() - 1,
    ensures
        !sorts_after(r[k], r[k + 1], q.sort_by->0, q.sort_order),
{
    let f = q.sort_by->0;
    assert(r[k].same_as(&mods[idx[k] as int]));
    assert(r[k + 1].same_as(&mods[idx[k + 1] as int]));
    assert(sort_key(r[k], f) == sort_key(mods[idx[k] as int], f));
    assert(sort_key(r[k + 1], f) == sort_key(mods[idx[k + 1] as int], f));
    assert(!sorts_after(mods[idx[k] as int], mods[idx[k + 1] as int], f, q.sort_order));
}

/// Of two unsorted searches where the second adds one criterion to the
/// first, the second gives, in order, exactly those results of the first
/// that meet the added criterion; so it never gives more.
pub proof fn lemma_added_criterion_results(
    q1: SearchQuery,
    q2: SearchQuery,
    c: SearchCriteria,
    mods: Seq<ModApi>,
    r1: Seq<ModApi>,
    i1: Seq<usize>,
    r2: Seq<ModApi>,
    i2: Seq<usize>,
)
    requires
        q1.sort_by is None,
        q2.sort_by is None,
        q2.criteria@ == q1.criteria@.push(c),
        search_result(q1, mods, r1, i1),
        search_result(q2, mods, r2, i2),
    ensures
        r2.len() <= r1.len(),
        r1.len() == matching(mods, q1.criteria@).len(),
        r2.len() == matching(mods, q1.criteria@).filter(|m: ModApi| criterion_holds(m, c)).len(),
        forall|k: int|
            0 <= k < r2.len() ==> (#[trigger] r2[k]).same_as(
                &matching(mods, q1.criteria@).filter(|m: ModApi| criterion_holds(m, c))[k],
            ),
{
    lemma_unsorted_search_is_matching(q1, mods, r1, i1);
    lemma_unsorted_search_is_matching(q2, mods, r2, i2);
    lemma_added_criterion_narrows(mods, q1.criteria@, c);
}

} // verus!
