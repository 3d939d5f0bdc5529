//! Stable ordering of items by a key made of a group flag and a text.

use vstd::prelude::*;
use crate::text::{seq_lt, chars_lt, lemma_seq_lt_irreflexive, lemma_seq_lt_transitive, lemma_seq_lt_total};

verus! {

/// A sort key: items whose flag is `false` come first; within a group, texts
/// ascend (see [`seq_lt`]).
pub struct SortKey {
    pub later: bool,
    pub text: Vec<char>,
}

impl SortKey {
    /// The key as a flag and a character sequence.
    pub open spec fn view_key(&self) -> (bool, Seq<char>) {
        (self.later, self.text@)
    }
}

/// Strict order on keys.
pub open spec fn key_lt(a: (bool, Seq<char>), b: (bool, Seq<char>)) -> bool {
    if a.0 != b.0 {
        !a.0
    } else {
        seq_lt(a.1, b.1)
    }
}

/// No key comes before itself.
pub proof fn lemma_key_lt_irreflexive(a: (bool, Seq<char>))
    ensures
        !key_lt(a, a),
{
    lemma_seq_lt_irreflexive(a.1);
}

/// The order on keys is transitive.
pub proof fn lemma_key_lt_transitive(a: (bool, Seq<char>), b: (bool, Seq<char>), c: (bool, Seq<char>))
    requires
        key_lt(a, b),
        key_lt(b, c),
    ensures
        key_lt(a, c),
{
    if a.0 == b.0 && b.0 == c.0 {
        lemma_seq_lt_transitive(a.1, b.1, c.1);
    }
}

/// Of two different keys, one comes first.
pub proof fn lemma_key_lt_total(a: (bool, Seq<char>), b: (bool, Seq<char>))
    ensures
        a == b || key_lt(a, b) || key_lt(b, a),
{
    lemma_seq_lt_total(a.1, b.1);
}

/// The key of item `i`.
pub open spec fn key_at(keys: Seq<SortKey>, i: int) -> (bool, Seq<char>) {
    keys[i].view_key()
}

/// `p` lists each index below `n` exactly once.
pub open spec fn is_permutation(p: Seq<usize>, n: nat) -> bool {
    &&& p.len() == n
    &&& forall|k: int| 0 <= k < p.len() ==> p[k] < n
    &&& forall|a: int, b: int| 0 <= a < b < p.len() ==> p[a] != p[b]
}

/// `p` puts the keys in ascending order, keeping the given order of items
/// with equal keys.
pub open spec fn is_stable_order(keys: Seq<SortKey>, p: Seq<usize>) -> bool {
    &&& forall|a: int, b: int| 0 <= a < b < p.len() ==>
        !key_lt(key_at(keys, p[b] as int), key_at(keys, p[a] as int))
    &&& forall|a: int, b: int| 0 <= a < b < p.len()
        && key_at(keys, p[a] as int) == key_at(keys, p[b] as int) ==> p[a] < p[b]
}

/// Whether the key of item `i` comes strictly before that of item `j`.
fn key_lt_at(keys: &Vec<SortKey>, i: usize, j: usize) -> (r: bool)
    requires
        i < keys.len(),
        j < keys.len(),
    ensures
        r == key_lt(key_at(keys@, i as int), key_at(keys@, j as int)),
{
    let a = &keys[i];
    let b = &keys[j];
    if a.later != b.later {
        !a.later
    } else {
        chars_lt(&a.text, &b.text)
    }
}

/// The order in which to list items with the given keys: a permutation of
/// their indices that sorts the keys stably (as std's `sort_by`).
pub fn stable_order(keys: &Vec<SortKey>) -> (p: Vec<usize>)
    ensures
        is_permutation(p@, keys.len() as nat),
        is_stable_order(keys@, p@),
{
    let mut res: Vec<usize> = Vec::new();
    let mut i: usize = 0;
    while i < keys.len()
        invariant
            i <= keys.len(),
            res@.len() == i,
            forall|k: int| 0 <= k < res@.len() ==> res@[k] < i,
            forall|a: int, b: int| 0 <= a < b < res@.len() ==> res@[a] != res@[b],
            is_stable_order(keys@, res@),
        decreases keys.len() - i,
    {
        let ghost ki = key_at(keys@, i as int);
        let mut pos: usize = 0;
        while pos < res.len() && !key_lt_at(keys, i, res[pos])
            invariant
                i < keys.len(),
                pos <= res@.len(),
                forall|k: int| 0 <= k < res@.len() ==> res@[k] < i,
                forall|k: int| 0 <= k < pos ==> !key_lt(ki, key_at(keys@, res@[k] as int)),
                ki == key_at(keys@, i as int),
            decreases res@.len() - pos,
        {
            pos = pos + 1;
        }
        let ghost old_res = res@;
        res.insert(pos, i);
        proof {
            assert(res@ =~= old_res.take(pos as int).push(i) + old_res.skip(pos as int));
            assert forall|k: int| pos < k < res@.len() implies key_lt(ki, key_at(keys@, res@[k] as int)) by {
                let kp = key_at(keys@, old_res[pos as int] as int);
                let ky = key_at(keys@, res@[k] as int);
                assert(key_lt(ki, kp));
                if k - 1 > pos {
                    assert(!key_lt(ky, kp));
                }
                lemma_key_lt_total(kp, ky);
                if kp != ky {
                    if key_lt(kp, ky) {
                        lemma_key_lt_transitive(ki, kp, ky);
                    }
                }
            }
            assert forall|a: int, b: int| 0 <= a < b < res@.len() implies
                !key_lt(key_at(keys@, res@[b] as int), key_at(keys@, res@[a] as int)) by {
                if a == pos {
                    let kb = key_at(keys@, res@[b] as int);
                    if key_lt(kb, ki) {
                        lemma_key_lt_transitive(kb, ki, kb);
                        lemma_key_lt_irreflexive(kb);
                    }
                } else if b == pos {
                } else {
                    let oa = if a < pos { a } else { a - 1 };
                    let ob = if b < pos { b } else { b - 1 };
                    assert(res@[a] == old_res[oa]);
                    assert(res@[b] == old_res[ob]);
                }
            }
            assert forall|a: int, b: int| 0 <= a < b < res@.len()
                && key_at(keys@, res@[a] as int) == key_at(keys@, res@[b] as int) implies res@[a] < res@[b] by {
                if a == pos {
                    lemma_key_lt_irreflexive(ki);
                } else if b == pos {
                } else {
                    let oa = if a < pos { a } else { a - 1 };
                    let ob = if b < pos { b } else { b - 1 };
                    assert(res@[a] == old_res[oa]);
                    assert(res@[b] == old_res[ob]);
                }
            }
            assert forall|a: int, b: int| 0 <= a < b < res@.len() implies res@[a] != res@[b] by {
                if a != pos && b != pos {
                    let oa = if a < pos { a } else { a - 1 };
                    let ob = if b < pos { b } else { b - 1 };
                    assert(res@[a] == old_res[oa]);
                    assert(res@[b] == old_res[ob]);
                }
            }
        }
        i = i + 1;
    }
    res
}

/// A permutation of `0..n` takes every value below `n`.
pub(crate) proof fn lemma_permutation_onto(p: Seq<usize>, n: nat, j: int)
    requires
        is_permutation(p, n),
        0 <= j < n,
    ensures
        exists|k: int| 0 <= k < p.len() && p[k] == j,
{
    let q = p.map_values(|x: usize| x as int);
    assert forall|a: int, b: int| 0 <= a < q.len() && 0 <= b < q.len() && a != b implies q[a] != q[b] by {
        if a < b {
            assert(p[a] != p[b]);
        } else {
            assert(p[b] != p[a]);
        }
    }
    assert(q.no_duplicates());
    q.unique_seq_to_set();
    let range = vstd::set_lib::set_int_range(0, n as int);
    vstd::set_lib::lemma_int_range(0, n as int);
    assert forall|x: int| q.to_set().contains(x) implies range.contains(x) by {
        assert(q.contains(x));
        let i = choose|i: int| 0 <= i < q.len() && q[i] == x;
        assert(p[i] < n);
    }
    assert(q.to_set().subset_of(range));
    vstd::set_lib::lemma_len_subset(q.to_set(), range);
    vstd::set_lib::lemma_subset_equality(q.to_set(), range);
    assert(range.contains(j));
    assert(q.to_set().contains(j));
    assert(q.contains(j));
    let i = choose|i: int| 0 <= i < q.len() && q[i] == j;
    assert(p[i] == j);
}

} // verus!
