//! Case-insensitive matching helpers on strings, string lists and optional strings.
use vstd::prelude::*;
use crate::text::{
    contains_chars, keep_letters, letters_only, lower_contains_spec, occurs_at, seq_contains,
    str_chars, str_contains, to_lowercase, unicode_lowercase,
};

verus! {

/// `letters_only` of the lowercase form: what `contains_str_only` compares.
pub open spec fn folded(s: Seq<char>) -> Seq<char> {
    letters_only(unicode_lowercase(s))
}

/// Some string of `v` contains `query`, ignoring case.
pub open spec fn any_contains_ignore_case(v: Seq<String>, query: Seq<char>) -> bool {
    exists|i: int| 0 <= i < v.len() && lower_contains_spec(#[trigger] v[i]@, query)
}

/// Case-insensitive substring tests on a string.
pub trait StrLowerExt {
    spec fn chars_of(&self) -> Seq<char>;

    /// Is `needle` in the string, ignoring case?
    fn lower_contains(&self, needle: &str) -> (r: bool)
        ensures
            r == lower_contains_spec(self.chars_of(), needle@),
    ;

    /// Is `needle` in the string, ignoring case, whitespace and punctuation?
    fn contains_str_only(&self, needle: &str) -> (r: bool)
        ensures
            r == seq_contains(folded(self.chars_of()), folded(needle@)),
    ;
}

impl StrLowerExt for String {
    open spec fn chars_of(&self) -> Seq<char> {
        self@
    }

    fn lower_contains(&self, needle: &str) -> (r: bool) {
        let needle_lower = to_lowercase(needle);
        let me = to_lowercase(self.as_str());
        str_contains(me.as_str(), needle_lower.as_str())
    }

    fn contains_str_only(&self, needle: &str) -> (r: bool) {
        let needle_lower = to_lowercase(needle);
        let n = keep_letters(&str_chars(needle_lower.as_str()));
        let me_lower = to_lowercase(self.as_str());
        let me = keep_letters(&str_chars(me_lower.as_str()));
        contains_chars(&me, &n)
    }
}

/// Case-insensitive searches over a list of strings.
pub trait VecStringExt {
    spec fn items(&self) -> Seq<String>;

    /// Does some item contain `query`, ignoring case?
    fn contains_ignore_case(&self, query: &str) -> (r: bool)
        ensures
            r == any_contains_ignore_case(self.items(), query@),
    ;

    /// Does some item contain some of the queries, ignoring case?
    fn contains_any(&self, queries: &[&str]) -> (r: bool)
        ensures
            r == exists|j: int|
                0 <= j < queries@.len() && any_contains_ignore_case(self.items(), (#[trigger] queries@[j])@),
    ;
}

impl VecStringExt for Vec<String> {
    open spec fn items(&self) -> Seq<String> {
        self@
    }

    fn contains_ignore_case(&self, query: &str) -> (r: bool) {
        let query_lower = to_lowercase(query);
        let q = str_chars(query_lower.as_str());
        let mut i: usize = 0;
        while i < self.len()
            invariant
                i <= self.len(),
                q@ == unicode_lowercase(query@),
                forall|k: int| 0 <= k < i ==> !lower_contains_spec(#[trigger] self@[k]@, query@),
            decreases self.len() - i,
        {
            let item_lower = to_lowercase(self[i].as_str());
            let it = str_chars(item_lower.as_str());
            if contains_chars(&it, &q) {
                assert(lower_contains_spec(self@[i as int]@, query@));
                return true;
            }
            i += 1;
        }
        false
    }

    fn contains_any(&self, queries: &[&str]) -> (r: bool) {
        let mut j: usize = 0;
        while j < queries.len()
            invariant
                j <= queries@.len(),
                forall|k: int| 0 <= k < j ==> !any_contains_ignore_case(self@, (#[trigger] queries@[k])@),
            decreases queries.len() - j,
        {
            if self.contains_ignore_case(queries[j]) {
                return true;
            }
            j += 1;
        }
        false
    }
}

/// Matching on an optional text field.
pub trait OptionExt {
    spec fn text(&self) -> Option<Seq<char>>;

    /// The field is present and contains `query` (itself lowercased first).
    fn matches_contains(&self, query: &str) -> (r: bool)
        ensures
            r == (self.text() matches Some(t) && lower_contains_spec(
                t,
                unicode_lowercase(query@),
            )),
    ;

    /// The field as a string slice.
    fn as_str_option(&self) -> (r: Option<&str>)
        ensures
            r matches Some(s) ==> self.text() == Some(s@),
            r is None <==> self.text() is None,
    ;

    /// Numeric reading of the field; text fields have none.
    fn as_u32_option(&self) -> (r: Option<u32>)
        ensures
            r is None,
    ;
}

impl OptionExt for Option<String> {
    open spec fn text(&self) -> Option<Seq<char>> {
        match self {
            Some(s) => Some(s@),
            None => None,
        }
    }

    fn matches_contains(&self, query: &str) -> (r: bool) {
        match self {
            Some(s) => {
                let q = to_lowercase(query);
                s.lower_contains(q.as_str())
            },
            None => false,
        }
    }

    fn as_str_option(&self) -> (r: Option<&str>) {
        match self {
            Some(s) => Some(s.as_str()),
            None => None,
        }
    }

    fn as_u32_option(&self) -> (r: Option<u32>) {
        None
    }
}

} // verus!
