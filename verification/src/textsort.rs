//! A stable sort of texts in the order of `str` (`sort_by` on strings).
use vstd::prelude::*;
use std::cmp::Ordering;
use crate::order::{compare_text, lemma_lex_antisymmetric, lemma_lex_reflexive, lemma_lex_transitive, lex_order};
use crate::search::{lemma_insert_positions, same_positions};
use crate::text::{insert_at, prefix};

verus! {

/// `a` comes strictly after `b` in the order of `str`.
pub open spec fn text_after(a: Seq<char>, b: Seq<char>) -> bool {
    lex_order(a, b) == Ordering::Greater
}

/// The texts of a list of strings.
pub open spec fn texts_of(v: Seq<String>) -> Seq<Seq<char>> {
    v.map_values(|s: String| s@)
}

/// No text at a position comes after the text at a later position.
pub open spec fn texts_sorted(keys: Seq<Seq<char>>, s: Seq<usize>) -> bool {
    forall|a: int, b: int| 0 <= a < b < s.len() ==> !text_after(keys[s[a] as int], keys[s[b] as int])
}

/// Equal texts keep their relative order.
pub open spec fn texts_stable(keys: Seq<Seq<char>>, s: Seq<usize>) -> bool {
    forall|a: int, b: int|
        0 <= a < b < s.len() && !text_after(keys[s[b] as int], keys[s[a] as int]) ==> s[a] < s[b]
}

/// The positions `0, 1, ..., n - 1`.
pub open spec fn index_range(n: nat) -> Seq<usize> {
    Seq::new(n, |i: int| i as usize)
}

/// The order of texts is the strict part of a total order.
pub proof fn lemma_text_after_step(x: Seq<char>, y: Seq<char>, z: Seq<char>)
    requires
        text_after(y, x),
        !text_after(y, z),
    ensures
        text_after(z, x),
{
    lemma_lex_antisymmetric(y, x);
    lemma_lex_transitive(x, y, z);
    lemma_lex_antisymmetric(z, x);
}

/// Two texts never come after each other, and no text after itself.
pub proof fn lemma_text_after_asymmetric(x: Seq<char>, y: Seq<char>)
    ensures
        text_after(x, y) ==> !text_after(y, x),
        !text_after(x, x),
{
    lemma_lex_antisymmetric(x, y);
    lemma_lex_reflexive(x);
}

proof fn lemma_insert_text_sorted(keys: Seq<Seq<char>>, old_out: Seq<usize>, p: usize, x: usize)
    requires
        p <= old_out.len(),
        x < keys.len(),
        forall|k: int| 0 <= k < old_out.len() ==> #[trigger] old_out[k] < keys.len(),
        forall|k: int| 0 <= k < old_out.len() ==> #[trigger] old_out[k] < x,
        forall|k: int|
            0 <= k < p ==> !text_after(keys[#[trigger] old_out[k] as int], keys[x as int]),
        p < old_out.len() ==> text_after(keys[old_out[p as int] as int], keys[x as int]),
        texts_sorted(keys, old_out),
        texts_stable(keys, old_out),
    ensures
        texts_sorted(keys, insert_at(old_out, p, x)),
        texts_stable(keys, insert_at(old_out, p, x)),
{
    let n = insert_at(old_out, p, x);
    let mx = keys[x as int];
    assert forall|a: int, b: int| 0 <= a < b < n.len() implies !text_after(
        keys[n[a] as int],
        keys[n[b] as int],
    ) by {
        if a < p && b < p {
            assert(n[a] == old_out[a] && n[b] == old_out[b]);
        } else if a < p && b == p {
            assert(n[a] == old_out[a]);
        } else if a < p && b > p {
            assert(n[a] == old_out[a]);
            assert(n[b] == old_out[b - 1]);
        } else if a == p {
            let z = keys[old_out[b - 1] as int];
            let y = keys[old_out[p as int] as int];
            assert(n[b] == old_out[b - 1]);
            if b - 1 > p {
                assert(!text_after(y, z));
            } else {
                lemma_text_after_asymmetric(y, y);
            }
            lemma_text_after_step(mx, y, z);
            lemma_text_after_asymmetric(z, mx);
        } else {
            assert(n[a] == old_out[a - 1]);
            assert(n[b] == old_out[b - 1]);
        }
    }
    assert forall|a: int, b: int|
        0 <= a < b < n.len() && !text_after(keys[n[b] as int], keys[n[a] as int]) implies n[a] < n[b] by {
        if a < p && b < p {
            assert(n[a] == old_out[a] && n[b] == old_out[b]);
        } else if a < p && b == p {
            assert(n[a] == old_out[a]);
        } else if a < p && b > p {
            assert(n[a] == old_out[a]);
            assert(n[b] == old_out[b - 1]);
        } else if a == p {
            let z = keys[old_out[b - 1] as int];
            let y = keys[old_out[p as int] as int];
            assert(n[b] == old_out[b - 1]);
            if b - 1 > p {
                assert(!text_after(y, z));
            } else {
                lemma_text_after_asymmetric(y, y);
            }
            lemma_text_after_step(mx, y, z);
        } else {
            assert(n[a] == old_out[a - 1]);
            assert(n[b] == old_out[b - 1]);
        }
    }
}

fn text_after_exec(a: &str, b: &str) -> (r: bool)
    ensures
        r == text_after(a@, b@),
{
    match compare_text(a, b) {
        Ordering::Greater => true,
        _ => false,
    }
}

fn positions(n: usize) -> (r: Vec<usize>)
    ensures
        r@ == index_range(n as nat),
{
    let mut r: Vec<usize> = Vec::new();
    let mut i: usize = 0;
    while i < n
        invariant
            i <= n,
            r@ == index_range(i as nat),
        decreases n - i,
    {
        r.push(i);
        i += 1;
        assert(r@ =~= index_range(i as nat));
    }
    r
}

/// The positions of the strings in a stable sorted order: by text, equal
/// texts in their given order.
pub fn sort_text_positions(keys: &Vec<String>) -> (out: Vec<usize>)
    ensures
        same_positions(index_range(keys@.len()), out@),
        texts_sorted(texts_of(keys@), out@),
        texts_stable(texts_of(keys@), out@),
        forall|k: int| 0 <= k < out@.len() ==> #[trigger] out@[k] < keys@.len(),
{
    let ghost kv = texts_of(keys@);
    let inp = positions(keys.len());
    let mut out: Vec<usize> = Vec::new();
    let mut t: usize = 0;
    assert(prefix(inp@, 0) =~= out@);
    while t < inp.len()
        invariant
            t <= inp@.len(),
            inp@ == index_range(keys@.len()),
            kv == texts_of(keys@),
            kv.len() == keys@.len(),
            same_positions(prefix(inp@, t), out@),
            forall|k: int| 0 <= k < out@.len() ==> #[trigger] out@[k] < keys@.len(),
            texts_sorted(kv, out@),
            texts_stable(kv, out@),
        decreases inp.len() - t,
    {
        let x = inp[t];
        let ghost old_out = out@;
        let ghost pre = prefix(inp@, t);
        proof {
            assert forall|k: int| 0 <= k < old_out.len() implies #[trigger] old_out[k] < x by {
                assert(old_out.contains(old_out[k]));
                assert(old_out.to_set().contains(old_out[k]));
                assert(pre.to_set().contains(old_out[k]));
                let j = choose|j: int| 0 <= j < pre.len() && pre[j] == old_out[k];
                assert(pre[j] == inp@[j]);
            }
        }
        let mut p: usize = 0;
        while p < out.len() && !text_after_exec(keys[out[p]].as_str(), keys[x].as_str())
            invariant
                p <= out@.len(),
                out@ == old_out,
                x < keys@.len(),
                kv == texts_of(keys@),
                forall|k: int| 0 <= k < old_out.len() ==> #[trigger] old_out[k] < keys@.len(),
                forall|k: int|
                    0 <= k < p ==> !text_after(kv[#[trigger] old_out[k] as int], kv[x as int]),
            decreases out.len() - p,
        {
            p += 1;
        }
        out.insert(p, x);
        proof {
            assert forall|k: int| 0 <= k < out@.len() implies #[trigger] out@[k] < keys@.len() by {
                if k < p {
                    assert(out@[k] == old_out[k]);
                } else if k > p {
                    assert(out@[k] == old_out[k - 1]);
                }
            }
            lemma_insert_text_sorted(kv, old_out, p, x);
            lemma_insert_positions(inp@, t, old_out, p, x);
        }
        t += 1;
    }
    assert(prefix(inp@, t) == inp@);
    out
}

} // verus!
