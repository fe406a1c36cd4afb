//! Character-level text helpers: substring search, whitespace handling,
//! case folding and decimal rendering of integers.
use vstd::prelude::*;

verus! {

// ---------------------------------------------------------------------------
// std functions without a vstd specification
// ---------------------------------------------------------------------------

/// `String::push` appends one character at the end of the string.
pub assume_specification[ std::string::String::push ](s: &mut std::string::String, ch: char)
    ensures
        final(s)@ == old(s)@.push(ch),
;

/// `String::push_str` appends the characters of `string` at the end.
pub assume_specification[ std::string::String::push_str ](
    s: &mut std::string::String,
    string: &str,
)
    ensures
        final(s)@ == old(s)@ + string@,
;

/// What `str::to_lowercase` returns for a string (Unicode lowercase mapping).
pub uninterp spec fn unicode_lowercase(s: Seq<char>) -> Seq<char>;

/// Calls `str::to_lowercase`. Its result is named `unicode_lowercase` of the
/// input; for input made of ASCII characters only, the Unicode lowercase
/// mapping is the ASCII one (`A`..`Z` to `a`..`z`, everything else kept),
/// which is the one fact stated about it. What it does to other characters
/// is left unsaid.
#[verifier::external_body]
pub(crate) fn to_lowercase(s: &str) -> (r: String)
    ensures
        r@ == unicode_lowercase(s@),
        ascii_chars(s@) ==> r@ == ascii_lower_seq(s@),
{
    s.to_lowercase()
}

// ---------------------------------------------------------------------------
// Specifications
// ---------------------------------------------------------------------------

pub open spec fn is_ascii_char(c: char) -> bool {
    (c as u32) < 128
}

pub open spec fn ascii_chars(s: Seq<char>) -> bool {
    forall|i: int| 0 <= i < s.len() ==> is_ascii_char(#[trigger] s[i])
}

/// ASCII lowercase of one character.
pub open spec fn ascii_lower(c: char) -> char {
    if 'A' <= c && c <= 'Z' {
        ((c as u32) + 32) as char
    } else {
        c
    }
}

pub open spec fn ascii_lower_seq(s: Seq<char>) -> Seq<char> {
    Seq::new(s.len(), |i: int| ascii_lower(s[i]))
}

/// `needle` occurs in `hay` at position `i`.
pub open spec fn occurs_at(hay: Seq<char>, needle: Seq<char>, i: int) -> bool {
    0 <= i && i + needle.len() <= hay.len() && hay.subrange(i, i + needle.len()) == needle
}

/// `needle` occurs somewhere in `hay` (the empty needle occurs everywhere).
pub open spec fn seq_contains(hay: Seq<char>, needle: Seq<char>) -> bool {
    exists|i: int| occurs_at(hay, needle, i)
}

/// The Unicode `White_Space` property, which is what `char::is_whitespace` tests.
pub open spec fn is_ws(c: char) -> bool {
    let u = c as u32;
    (0x09 <= u && u <= 0x0d) || u == 0x20 || u == 0x85 || u == 0xa0 || u == 0x1680 || (0x2000
        <= u && u <= 0x200a) || u == 0x2028 || u == 0x2029 || u == 0x202f || u == 0x205f || u
        == 0x3000
}

/// The whitespace-separated words of `s`, in order (what `split_whitespace` yields).
pub open spec fn words(s: Seq<char>) -> Seq<Seq<char>>
    decreases s.len(),
{
    if s.len() == 0 {
        seq![]
    } else {
        let w = words(s.drop_last());
        let c = s.last();
        if is_ws(c) {
            w
        } else if s.len() >= 2 && !is_ws(s[s.len() - 2]) {
            w.update(w.len() - 1, w.last().push(c))
        } else {
            w.push(seq![c])
        }
    }
}

/// The words joined by a single space.
pub open spec fn join_space(ws: Seq<Seq<char>>) -> Seq<char>
    decreases ws.len(),
{
    if ws.len() == 0 {
        seq![]
    } else if ws.len() == 1 {
        ws[0]
    } else {
        join_space(ws.drop_last()) + seq![' '] + ws.last()
    }
}

/// The characters of `s` that are not whitespace, in order.
pub open spec fn without_ws(s: Seq<char>) -> Seq<char>
    decreases s.len(),
{
    if s.len() == 0 {
        seq![]
    } else if is_ws(s.last()) {
        without_ws(s.drop_last())
    } else {
        without_ws(s.drop_last()).push(s.last())
    }
}

/// The punctuation characters that `contains_str_only` ignores.
pub open spec fn is_special(c: char) -> bool {
    c == '!' || c == '@' || c == '#' || c == '$' || c == '%' || c == '^' || c == '&' || c == '*'
        || c == '(' || c == ')' || c == '-' || c == '_' || c == '=' || c == '+' || c == '['
        || c == ']' || c == '{' || c == '}' || c == '|' || c == '\\' || c == ':' || c == ';'
        || c == '"' || c == '\'' || c == '<' || c == '>' || c == ',' || c == '.' || c == '?'
        || c == '/' || c == '~' || c == '`'
}

/// The characters of `s` that are neither whitespace nor special punctuation.
pub open spec fn letters_only(s: Seq<char>) -> Seq<char>
    decreases s.len(),
{
    if s.len() == 0 {
        seq![]
    } else if is_ws(s.last()) || is_special(s.last()) {
        letters_only(s.drop_last())
    } else {
        letters_only(s.drop_last()).push(s.last())
    }
}

/// Case-insensitive containment: both sides lowercased, then a substring test.
pub open spec fn lower_contains_spec(hay: Seq<char>, needle: Seq<char>) -> bool {
    seq_contains(unicode_lowercase(hay), unicode_lowercase(needle))
}

/// ASCII case-insensitive equality (`str::eq_ignore_ascii_case`).
pub open spec fn eq_ignore_ascii_case_spec(a: Seq<char>, b: Seq<char>) -> bool {
    ascii_lower_seq(a) == ascii_lower_seq(b)
}

/// Decimal digits of a natural number, most significant first, no leading zeros.
pub open spec fn decimal(n: nat) -> Seq<char>
    decreases n,
{
    if n < 10 {
        seq![digit_char(n)]
    } else {
        decimal(n / 10).push(digit_char(n % 10))
    }
}

pub open spec fn digit_char(d: nat) -> char {
    if d == 0 {
        '0'
    } else if d == 1 {
        '1'
    } else if d == 2 {
        '2'
    } else if d == 3 {
        '3'
    } else if d == 4 {
        '4'
    } else if d == 5 {
        '5'
    } else if d == 6 {
        '6'
    } else if d == 7 {
        '7'
    } else if d == 8 {
        '8'
    } else {
        '9'
    }
}

// ---------------------------------------------------------------------------
// Executable helpers
// ---------------------------------------------------------------------------

/// Collects the characters of a string slice into a vector.
pub fn str_chars(s: &str) -> (r: Vec<char>)
    ensures
        r@ == s@,
{
    let mut r: Vec<char> = Vec::new();
    for c in it: s.chars()
        invariant
            r@ == it.seq().take(it.index() as int),
            it.seq() == s@,
    {
        r.push(c);
    }
    r
}

/// Builds a string from a sequence of characters.
pub fn string_from_chars(v: &Vec<char>) -> (r: String)
    ensures
        r@ == v@,
{
    let mut r = String::new();
    let mut i: usize = 0;
    while i < v.len()
        invariant
            i <= v.len(),
            r@ == v@.take(i as int),
        decreases v.len() - i,
    {
        r.push(v[i]);
        i += 1;
        assert(v@.take(i as int) == v@.take((i - 1) as int).push(v@[i - 1]));
    }
    assert(v@.take(v.len() as int) == v@);
    r
}

/// Copies a string slice into an owned `String`.
pub fn to_owned_string(s: &str) -> (r: String)
    ensures
        r@ == s@,
{
    let mut r = String::new();
    r.push_str(s);
    r
}

/// Does `needle` occur in `hay` at position `i`? (executable form of `occurs_at`)
fn occurs_at_exec(hay: &Vec<char>, needle: &Vec<char>, i: usize) -> (r: bool)
    requires
        i + needle.len() <= hay.len(),
    ensures
        r == occurs_at(hay@, needle@, i as int),
{
    let mut j: usize = 0;
    while j < needle.len()
        invariant
            j <= needle.len(),
            i + needle.len() <= hay.len(),
            forall|k: int| 0 <= k < j ==> hay@[i + k] == needle@[k],
        decreases needle.len() - j,
    {
        if hay[i + j] != needle[j] {
            assert(hay@.subrange(i as int, i + needle.len())[j as int] != needle@[j as int]);
            return false;
        }
        j += 1;
    }
    assert(hay@.subrange(i as int, i + needle.len()) =~= needle@);
    true
}

/// Substring search over character vectors.
pub fn contains_chars(hay: &Vec<char>, needle: &Vec<char>) -> (r: bool)
    ensures
        r == seq_contains(hay@, needle@),
{
    if needle.len() > hay.len() {
        assert forall|i: int| !occurs_at(hay@, needle@, i) by {}
        return false;
    }
    let last: usize = hay.len() - needle.len();
    let mut i: usize = 0;
    loop
        invariant
            last == hay.len() - needle.len(),
            needle.len() <= hay.len(),
            i <= last,
            forall|k: int| 0 <= k < i ==> !occurs_at(hay@, needle@, k),
        decreases last - i,
    {
        if occurs_at_exec(hay, needle, i) {
            return true;
        }
        if i == last {
            assert forall|k: int| !occurs_at(hay@, needle@, k) by {
                if 0 <= k && k < i {
                }
            }
            return false;
        }
        i += 1;
    }
}

/// Substring search over strings.
pub fn str_contains(hay: &str, needle: &str) -> (r: bool)
    ensures
        r == seq_contains(hay@, needle@),
{
    let h = str_chars(hay);
    let n = str_chars(needle);
    contains_chars(&h, &n)
}

/// Unicode `White_Space` test (`char::is_whitespace`).
pub fn is_whitespace(c: char) -> (r: bool)
    ensures
        r == is_ws(c),
{
    let u: u32 = c as u32;
    (0x09 <= u && u <= 0x0d) || u == 0x20 || u == 0x85 || u == 0xa0 || u == 0x1680 || (0x2000
        <= u && u <= 0x200a) || u == 0x2028 || u == 0x2029 || u == 0x202f || u == 0x205f || u
        == 0x3000
}

/// Punctuation test for `contains_str_only`.
pub fn is_special_char(c: char) -> (r: bool)
    ensures
        r == is_special(c),
{
    c == '!' || c == '@' || c == '#' || c == '$' || c == '%' || c == '^' || c == '&' || c == '*'
        || c == '(' || c == ')' || c == '-' || c == '_' || c == '=' || c == '+' || c == '['
        || c == ']' || c == '{' || c == '}' || c == '|' || c == '\\' || c == ':' || c == ';'
        || c == '"' || c == '\'' || c == '<' || c == '>' || c == ',' || c == '.' || c == '?'
        || c == '/' || c == '~' || c == '`'
}

/// Dropping whitespace keeps exactly the other characters, in order; and
/// keeping letters keeps exactly the characters that are neither whitespace
/// nor special punctuation, in order.
pub proof fn lemma_char_filters(s: Seq<char>)
    ensures
        without_ws(s) == s.filter(|c: char| !is_ws(c)),
        letters_only(s) == s.filter(|c: char| !is_ws(c) && !is_special(c)),
    decreases s.len(),
{
    reveal(Seq::filter);
    if s.len() > 0 {
        lemma_char_filters(s.drop_last());
    }
}

/// Keeps the characters that are neither whitespace nor special punctuation.
pub fn keep_letters(s: &Vec<char>) -> (r: Vec<char>)
    ensures
        r@ == letters_only(s@),
{
    let mut r: Vec<char> = Vec::new();
    let mut i: usize = 0;
    while i < s.len()
        invariant
            i <= s.len(),
            r@ == letters_only(s@.take(i as int)),
        decreases s.len() - i,
    {
        let c = s[i];
        assert(s@.take(i + 1).drop_last() == s@.take(i as int));
        if !is_whitespace(c) && !is_special_char(c) {
            r.push(c);
        }
        i += 1;
    }
    assert(s@.take(s.len() as int) == s@);
    r
}

/// Drops every whitespace character.
pub fn remove_whitespace(s: &Vec<char>) -> (r: Vec<char>)
    ensures
        r@ == without_ws(s@),
{
    let mut r: Vec<char> = Vec::new();
    let mut i: usize = 0;
    while i < s.len()
        invariant
            i <= s.len(),
            r@ == without_ws(s@.take(i as int)),
        decreases s.len() - i,
    {
        let c = s[i];
        assert(s@.take(i + 1).drop_last() == s@.take(i as int));
        if !is_whitespace(c) {
            r.push(c);
        }
        i += 1;
    }
    assert(s@.take(s.len() as int) == s@);
    r
}

/// ASCII case-insensitive equality of two strings.
pub fn eq_ignore_ascii_case(a: &str, b: &str) -> (r: bool)
    ensures
        r == eq_ignore_ascii_case_spec(a@, b@),
{
    let x = str_chars(a);
    let y = str_chars(b);
    if x.len() != y.len() {
        assert(ascii_lower_seq(a@).len() != ascii_lower_seq(b@).len());
        return false;
    }
    let mut i: usize = 0;
    while i < x.len()
        invariant
            x@ == a@,
            y@ == b@,
            x.len() == y.len(),
            i <= x.len(),
            forall|k: int| 0 <= k < i ==> ascii_lower(x@[k]) == ascii_lower(y@[k]),
        decreases x.len() - i,
    {
        if lower_ascii_char(x[i]) != lower_ascii_char(y[i]) {
            assert(ascii_lower_seq(a@)[i as int] != ascii_lower_seq(b@)[i as int]);
            return false;
        }
        i += 1;
    }
    assert(ascii_lower_seq(a@) =~= ascii_lower_seq(b@));
    true
}

/// ASCII lowercase of one character.
pub fn lower_ascii_char(c: char) -> (r: char)
    ensures
        r == ascii_lower(c),
{
    if 'A' <= c && c <= 'Z' {
        let b: u8 = (c as u32 + 32) as u8;
        b as char
    } else {
        c
    }
}

/// Decimal rendering of an unsigned integer (what `u64::to_string` gives).
pub fn u64_to_string(n: u64) -> (r: String)
    ensures
        r@ == decimal(n as nat),
{
    let mut digits: Vec<char> = Vec::new();
    let mut m: u64 = n;
    // digits are collected least significant first
    while m >= 10
        invariant
            decimal(n as nat) == decimal(m as nat) + digits@.reverse(),
        decreases m,
    {
        let d: u64 = m % 10;
        digits.push(digit_exec(d));
        proof {
            assert(decimal(m as nat) == decimal((m / 10) as nat).push(digit_char((m % 10) as nat)));
            assert(digits@.reverse() == seq![digit_char(d as nat)] + digits@.drop_last().reverse());
        }
        m = m / 10;
    }
    digits.push(digit_exec(m));
    let mut out: Vec<char> = Vec::new();
    let mut i: usize = digits.len();
    while i > 0
        invariant
            i <= digits.len(),
            out@ == digits@.subrange(i as int, digits.len() as int).reverse(),
        decreases i,
    {
        i -= 1;
        out.push(digits[i]);
        assert(digits@.subrange(i as int, digits.len() as int).reverse() =~= digits@.subrange(
            (i + 1) as int,
            digits.len() as int,
        ).reverse().push(digits@[i as int]));
    }
    assert(digits@.subrange(0, digits.len() as int) == digits@);
    proof {
        assert(digits@.reverse() =~= seq![digit_char(m as nat)] + digits@.drop_last().reverse());
    }
    string_from_chars(&out)
}

fn digit_exec(d: u64) -> (c: char)
    requires
        d < 10,
    ensures
        c == digit_char(d as nat),
{
    if d == 0 {
        '0'
    } else if d == 1 {
        '1'
    } else if d == 2 {
        '2'
    } else if d == 3 {
        '3'
    } else if d == 4 {
        '4'
    } else if d == 5 {
        '5'
    } else if d == 6 {
        '6'
    } else if d == 7 {
        '7'
    } else if d == 8 {
        '8'
    } else {
        '9'
    }
}


// ---------------------------------------------------------------------------
// Whitespace normalisation
// ---------------------------------------------------------------------------

/// Every word is non-empty and holds no whitespace.
pub open spec fn proper_words(ws: Seq<Seq<char>>) -> bool {
    forall|k: int|
        0 <= k < ws.len() ==> #[trigger] ws[k].len() > 0 && forall|j: int|
            0 <= j < ws[k].len() ==> !is_ws(ws[k][j])
}

/// The words of a text are non-empty and hold no whitespace, and a text
/// that ends in a non-whitespace character has a word.
pub proof fn lemma_words_proper(s: Seq<char>)
    ensures
        proper_words(words(s)),
        s.len() > 0 && !is_ws(s.last()) ==> words(s).len() > 0,
    decreases s.len(),
{
    if s.len() > 0 {
        lemma_words_proper(s.drop_last());
        let w = words(s.drop_last());
        let c = s.last();
        if !is_ws(c) && s.len() >= 2 && !is_ws(s[s.len() - 2]) {
            assert(s.drop_last().last() == s[s.len() - 2]);
            let w2 = w.update(w.len() - 1, w.last().push(c));
            assert forall|k: int| 0 <= k < w2.len() implies #[trigger] w2[k].len() > 0
                && forall|j: int| 0 <= j < w2[k].len() ==> !is_ws(w2[k][j]) by {
                if k == w.len() - 1 {
                    assert forall|j: int| 0 <= j < w2[k].len() implies !is_ws(w2[k][j]) by {
                        if j < w.last().len() {
                            assert(w2[k][j] == w[k][j]);
                        }
                    }
                }
            }
        }
    }
}

proof fn lemma_join_extend_last(w: Seq<Seq<char>>, c: char)
    requires
        w.len() > 0,
    ensures
        join_space(w.update(w.len() - 1, w.last().push(c))) == join_space(w).push(c),
{
    let w2 = w.update(w.len() - 1, w.last().push(c));
    if w.len() == 1 {
    } else {
        assert(w2.drop_last() =~= w.drop_last());
        assert(join_space(w2) =~= join_space(w).push(c));
    }
}

/// Replaces every run of whitespace by one space and trims both ends
/// (the words of `s`, joined by single spaces).
pub fn sanitize_string(s: &str) -> (r: String)
    ensures
        r@ == join_space(words(s@)),
{
    let v = str_chars(s);
    let mut acc: Vec<char> = Vec::new();
    let mut i: usize = 0;
    let mut prev_ws: bool = true;
    while i < v.len()
        invariant
            v@ == s@,
            i <= v.len(),
            acc@ == join_space(words(v@.take(i as int))),
            prev_ws == (i == 0 || is_ws(v@[i - 1])),
            acc@.len() == 0 <==> words(v@.take(i as int)).len() == 0,
        decreases v.len() - i,
    {
        let c = v[i];
        let ghost t = v@.take(i as int);
        let ghost t2 = v@.take(i + 1);
        proof {
            assert(t2.drop_last() == t);
            assert(t2.last() == c);
            lemma_words_proper(t);
            if i > 0 {
                assert(t.last() == v@[i - 1]);
                assert(t2[t2.len() - 2] == v@[i - 1]);
            }
        }
        if is_whitespace(c) {
            prev_ws = true;
        } else {
            if prev_ws {
                if acc.len() > 0 {
                    acc.push(' ');
                }
                acc.push(c);
                proof {
                    let w = words(t);
                    assert(words(t2) == w.push(seq![c]));
                    if w.len() > 0 {
                        assert(w.push(seq![c]).drop_last() =~= w);
                    }
                }
            } else {
                acc.push(c);
                proof {
                    lemma_words_proper(t);
                    lemma_join_extend_last(words(t), c);
                }
            }
            prev_ws = false;
        }
        i += 1;
    }
    assert(v@.take(v.len() as int) == v@);
    string_from_chars(&acc)
}

// ---------------------------------------------------------------------------
// Copies
// ---------------------------------------------------------------------------

/// The element at a machine-integer position.
pub open spec fn at<T>(s: Seq<T>, i: usize) -> T {
    s[i as int]
}

/// The first `i` elements.
pub open spec fn prefix<T>(s: Seq<T>, i: usize) -> Seq<T> {
    s.take(i as int)
}

/// `s` with `x` inserted at a machine-integer position.
pub open spec fn insert_at<T>(s: Seq<T>, i: usize, x: T) -> Seq<T> {
    s.insert(i as int, x)
}

/// The characters of `s` from position `i` on.
pub open spec fn skip_from(s: Seq<char>, i: usize) -> Seq<char> {
    s.skip(i as int)
}

/// The text from `i` starts with the character at `i`, followed by the
/// text from `i + 1`.
pub proof fn lemma_skip_step(s: Seq<char>, i: usize)
    requires
        i < s.len(),
        i < usize::MAX,
    ensures
        skip_from(s, i).len() > 0,
        skip_from(s, i)[0] == s[i as int],
        skip_from(s, i).drop_first() == skip_from(s, (i + 1) as usize),
{
    assert(skip_from(s, i).drop_first() =~= skip_from(s, (i + 1) as usize));
}

/// The text from position zero is the whole text.
pub proof fn lemma_skip_zero(s: Seq<char>)
    ensures
        skip_from(s, 0) == s,
{
    assert(s.skip(0) =~= s);
}

pub open spec fn opt_chars(o: Option<String>) -> Option<Seq<char>> {
    match o {
        Some(s) => Some(s@),
        None => None,
    }
}

/// The text of an optional string, or the empty text.
pub open spec fn or_empty(o: Option<String>) -> Seq<char> {
    match o {
        Some(s) => s@,
        None => Seq::empty(),
    }
}

/// A copy of an optional string.
pub fn clone_opt_string(o: &Option<String>) -> (r: Option<String>)
    ensures
        r == *o,
{
    match o {
        Some(s) => Some(s.clone()),
        None => None,
    }
}

/// The string, or the empty string when absent.
pub fn unwrap_or_empty(o: &Option<String>) -> (r: String)
    ensures
        r@ == or_empty(*o),
{
    match o {
        Some(s) => s.clone(),
        None => String::new(),
    }
}

/// A copy of a list of strings.
pub fn clone_strings(v: &Vec<String>) -> (r: Vec<String>)
    ensures
        r@ == v@,
{
    let mut r: Vec<String> = Vec::new();
    let mut i: usize = 0;
    while i < v.len()
        invariant
            i <= v.len(),
            r@ == v@.take(i as int),
        decreases v.len() - i,
    {
        r.push(v[i].clone());
        i += 1;
        assert(r@ =~= v@.take(i as int));
    }
    assert(v@.take(v.len() as int) =~= v@);
    r
}

/// Does the list hold a string equal to `s`?
pub fn vec_contains_string(v: &Vec<String>, s: &str) -> (r: bool)
    ensures
        r == exists|i: int| 0 <= i < v@.len() && (#[trigger] v@[i])@ == s@,
{
    let mut i: usize = 0;
    while i < v.len()
        invariant
            i <= v.len(),
            forall|k: int| 0 <= k < i ==> (#[trigger] v@[k])@ != s@,
        decreases v.len() - i,
    {
        if str_eq(v[i].as_str(), s) {
            return true;
        }
        i += 1;
    }
    false
}

/// Equality of two string slices.
pub fn str_eq(a: &str, b: &str) -> (r: bool)
    ensures
        r == (a@ == b@),
{
    let x = str_chars(a);
    let y = str_chars(b);
    if x.len() != y.len() {
        return false;
    }
    let mut i: usize = 0;
    while i < x.len()
        invariant
            x@ == a@,
            y@ == b@,
            x.len() == y.len(),
            i <= x.len(),
            forall|k: int| 0 <= k < i ==> x@[k] == y@[k],
        decreases x.len() - i,
    {
        if x[i] != y[i] {
            return false;
        }
        i += 1;
    }
    assert(a@ =~= b@);
    true
}


/// The lowercase form of a text: for ASCII text the ASCII mapping, for any
/// other text the Unicode mapping of `str::to_lowercase`.
pub open spec fn lowered(s: Seq<char>) -> Seq<char> {
    if ascii_chars(s) {
        ascii_lower_seq(s)
    } else {
        unicode_lowercase(s)
    }
}

/// Lowercases a string, as `str::to_lowercase` does.
pub fn lowercase(s: &str) -> (r: String)
    ensures
        r@ == lowered(s@),
        r@ == unicode_lowercase(s@),
{
    to_lowercase(s)
}

} // verus!
