//! A stable sort by integer-sequence keys.
//!
//! Keys are compared lexicographically, a proper prefix sorting first; items
//! with equal keys keep their input order. Every ordering in the crate (by
//! pattern parameters, by window start and end, by time-zone name and rule)
//! is expressed as such a key.
use vstd::prelude::*;

verus! {

/// Lexicographic order on integer sequences; a proper prefix sorts first.
pub open spec fn seq_lt(a: Seq<i128>, b: Seq<i128>) -> bool
    decreases a.len(),
{
    if b.len() == 0 {
        false
    } else if a.len() == 0 {
        true
    } else if a[0] < b[0] {
        true
    } else if a[0] > b[0] {
        false
    } else {
        seq_lt(a.drop_first(), b.drop_first())
    }
}

/// `a` sorts before or with `b`.
pub open spec fn seq_le(a: Seq<i128>, b: Seq<i128>) -> bool {
    seq_lt(a, b) || a == b
}

/// No sequence sorts before itself.
pub proof fn lemma_seq_lt_irreflexive(a: Seq<i128>)
    ensures
        !seq_lt(a, a),
    decreases a.len(),
{
    if a.len() > 0 {
        lemma_seq_lt_irreflexive(a.drop_first());
    }
}

/// Of two different sequences, one sorts before the other, and never both.
pub proof fn lemma_seq_lt_trichotomy(a: Seq<i128>, b: Seq<i128>)
    ensures
        seq_lt(a, b) || seq_lt(b, a) || a == b,
        !(seq_lt(a, b) && seq_lt(b, a)),
        a == b ==> !seq_lt(a, b),
    decreases a.len(),
{
    if a.len() > 0 && b.len() > 0 {
        lemma_seq_lt_trichotomy(a.drop_first(), b.drop_first());
        if a[0] == b[0] && a.drop_first() == b.drop_first() {
            assert(a =~= seq![a[0]] + a.drop_first());
            assert(b =~= seq![b[0]] + b.drop_first());
        }
    } else if a.len() == 0 && b.len() == 0 {
        assert(a =~= b);
    }
    if a == b {
        lemma_seq_lt_irreflexive(a);
    }
}

/// The order is transitive.
pub proof fn lemma_seq_lt_transitive(a: Seq<i128>, b: Seq<i128>, c: Seq<i128>)
    requires
        seq_lt(a, b),
        seq_lt(b, c),
    ensures
        seq_lt(a, c),
    decreases a.len(),
{
    if a.len() > 0 && b.len() > 0 && c.len() > 0 {
        if a[0] == b[0] && b[0] == c[0] {
            lemma_seq_lt_transitive(a.drop_first(), b.drop_first(), c.drop_first());
        }
    }
}

/// Some position of `perm` holds `x`.
pub open spec fn takes(perm: Seq<int>, x: int) -> bool {
    exists|j: int| 0 <= j < perm.len() && perm[j] == x
}

/// `out` is `inp` reordered by `perm` (`out[j] == inp[perm[j]]`, `perm` a
/// permutation), ordered by key and, among equal keys, by input position.
pub open spec fn stably_sorted_by<T>(
    out: Seq<T>,
    inp: Seq<T>,
    keys: Seq<Seq<i128>>,
    perm: Seq<int>,
) -> bool {
    &&& keys.len() == inp.len()
    &&& out.len() == inp.len()
    &&& perm.len() == inp.len()
    &&& forall|j: int| 0 <= j < perm.len() ==> 0 <= #[trigger] perm[j] < inp.len()
    &&& forall|j: int| 0 <= j < perm.len() ==> #[trigger] out[j] == inp[perm[j]]
    &&& forall|j1: int, j2: int| 0 <= j1 < j2 < perm.len() ==> #[trigger] perm[j1] != #[trigger] perm[j2]
    &&& forall|i: int| 0 <= i < inp.len() ==> #[trigger] takes(perm, i)
    &&& forall|j1: int, j2: int|
        0 <= j1 < j2 < perm.len() ==> seq_lt(#[trigger] keys[perm[j1]], #[trigger] keys[perm[j2]])
            || (keys[perm[j1]] == keys[perm[j2]] && perm[j1] < perm[j2])
}

/// `out` is the stable sort of `inp` by `keys`.
pub open spec fn is_stable_sort_of<T>(out: Seq<T>, inp: Seq<T>, keys: Seq<Seq<i128>>) -> bool {
    exists|perm: Seq<int>| stably_sorted_by(out, inp, keys, perm)
}

/// The views of a vector of keys.
pub open spec fn key_views(keys: Seq<Vec<i128>>) -> Seq<Seq<i128>> {
    keys.map_values(|k: Vec<i128>| k@)
}

/// Whether key `a` sorts strictly before key `b`.
pub fn key_lt(a: &Vec<i128>, b: &Vec<i128>) -> (r: bool)
    ensures
        r == seq_lt(a@, b@),
{
    let mut i: usize = 0;
    assert(a@.skip(0) =~= a@);
    assert(b@.skip(0) =~= b@);
    while i < a.len() && i < b.len()
        invariant
            i <= a.len(),
            i <= b.len(),
            seq_lt(a@, b@) == seq_lt(a@.skip(i as int), b@.skip(i as int)),
        decreases a.len() - i,
    {
        if a[i] < b[i] {
            return true;
        }
        if a[i] > b[i] {
            return false;
        }
        assert(a@.skip(i as int).drop_first() =~= a@.skip(i + 1));
        assert(b@.skip(i as int).drop_first() =~= b@.skip(i + 1));
        i = i + 1;
    }
    i < b.len()
}

/// Sorts `items` stably by `keys` (`keys[i]` is the key of `items[i]`).
pub fn stable_sort<T>(items: Vec<T>, keys: Vec<Vec<i128>>) -> (r: Vec<T>)
    requires
        items.len() == keys.len(),
    ensures
        is_stable_sort_of(r@, items@, key_views(keys@)),
{
    let ghost inp = items@;
    let ghost ks = key_views(keys@);
    let mut items = items;
    let mut keys = keys;
    let mut out: Vec<T> = Vec::new();
    let mut out_keys: Vec<Vec<i128>> = Vec::new();
    let ghost mut perm: Seq<int> = Seq::empty();
    let n = items.len();
    let mut i: usize = 0;
    assert(inp.skip(0) =~= inp);
    assert(key_views(keys@) =~= ks.skip(0));
    while items.len() > 0
        invariant
            n == inp.len(),
            ks.len() == n,
            i + items.len() == n,
            keys.len() == items.len(),
            items@ == inp.skip(i as int),
            key_views(keys@) == ks.skip(i as int),
            out.len() == i,
            out_keys.len() == i,
            perm.len() == i,
            forall|j: int| 0 <= j < i ==> #[trigger] out_keys@[j]@ == ks[perm[j]],
            forall|j: int| 0 <= j < i ==> 0 <= #[trigger] perm[j] < i,
            forall|j: int| 0 <= j < i ==> #[trigger] out@[j] == inp[perm[j]],
            forall|j1: int, j2: int| 0 <= j1 < j2 < i ==> #[trigger] perm[j1] != #[trigger] perm[j2],
            forall|x: int| 0 <= x < i ==> #[trigger] takes(perm, x),
            forall|j1: int, j2: int|
                0 <= j1 < j2 < i ==> seq_lt(#[trigger] ks[perm[j1]], #[trigger] ks[perm[j2]])
                    || (ks[perm[j1]] == ks[perm[j2]] && perm[j1] < perm[j2]),
        decreases items.len(),
    {
        let ghost keys_before = keys@;
        let x = items.remove(0);
        let kx = keys.remove(0);
        proof {
            assert(kx == keys_before[0]);
            assert(key_views(keys_before)[0] == kx@);
            assert(inp.skip(i as int).drop_first() =~= inp.skip(i + 1));
            assert(ks.skip(i as int)[0] == kx@);
            assert(key_views(keys@) =~= ks.skip(i + 1)) by {
                assert(ks.skip(i as int).drop_first() =~= ks.skip(i + 1));
            }
            assert(kx@ == ks[i as int]);
            assert(x == inp[i as int]);
        }
        let mut p: usize = 0;
        while p < out_keys.len() && !key_lt(&kx, &out_keys[p])
            invariant
                p <= out_keys.len(),
                out_keys.len() == i,
                forall|j: int| 0 <= j < p ==> !seq_lt(kx@, #[trigger] out_keys@[j]@),
            decreases out_keys.len() - p,
        {
            p = p + 1;
        }
        let ghost old_perm = perm;
        let ghost old_out = out@;
        let ghost old_keys = out_keys@;
        out.insert(p, x);
        out_keys.insert(p, kx);
        proof {
            perm = old_perm.insert(p as int, i as int);
            let ni = i + 1;
            assert forall|j: int| 0 <= j < ni implies #[trigger] out_keys@[j]@ == ks[perm[j]] by {
                if j < p {
                } else if j == p {
                } else {
                    assert(out_keys@[j] == old_keys[j - 1]);
                }
            }
            assert forall|j: int| 0 <= j < ni implies 0 <= #[trigger] perm[j] < ni by {
                if j > p {
                    assert(perm[j] == old_perm[j - 1]);
                }
            }
            assert forall|j: int| 0 <= j < ni implies #[trigger] out@[j] == inp[perm[j]] by {
                if j > p {
                    assert(out@[j] == old_out[j - 1]);
                }
            }
            assert forall|j1: int, j2: int| 0 <= j1 < j2 < ni implies #[trigger] perm[j1]
                != #[trigger] perm[j2] by {
                if j1 == p {
                    assert(perm[j2] == old_perm[j2 - 1]);
                } else if j2 == p {
                } else if j1 < p && j2 > p {
                    assert(perm[j2] == old_perm[j2 - 1]);
                    assert(old_perm[j1] != old_perm[j2 - 1]);
                } else if j1 > p {
                    assert(old_perm[j1 - 1] != old_perm[j2 - 1]);
                }
            }
            assert forall|xx: int| 0 <= xx < ni implies #[trigger] takes(perm, xx) by {
                if xx == i {
                    assert(perm[p as int] == xx);
                } else {
                    assert(takes(old_perm, xx));
                    let j0 = choose|j: int| 0 <= j < old_perm.len() && old_perm[j] == xx;
                    if j0 < p {
                        assert(perm[j0] == xx);
                    } else {
                        assert(perm[j0 + 1] == xx);
                    }
                }
            }
            assert forall|j1: int, j2: int| 0 <= j1 < j2 < ni implies seq_lt(
                #[trigger] ks[perm[j1]],
                #[trigger] ks[perm[j2]],
            ) || (ks[perm[j1]] == ks[perm[j2]] && perm[j1] < perm[j2]) by {
                if j1 == p {
                    // every later element has a key strictly above kx
                    let o = j2 - 1;
                    assert(perm[j2] == old_perm[o]);
                    assert(seq_lt(kx@, old_keys[p as int]@)) by {
                        assert(p < i);
                    }
                    if o > p {
                        assert(seq_lt(ks[old_perm[p as int]], ks[old_perm[o]]) || ks[old_perm[
                            p as int]] == ks[old_perm[o]]);
                        if seq_lt(ks[old_perm[p as int]], ks[old_perm[o]]) {
                            lemma_seq_lt_transitive(kx@, ks[old_perm[p as int]], ks[old_perm[o]]);
                        }
                    }
                } else if j2 == p {
                    // every earlier element has a key at most kx, and an earlier input position
                    assert(perm[j1] == old_perm[j1]);
                    assert(!seq_lt(kx@, old_keys[j1]@));
                    lemma_seq_lt_trichotomy(kx@, ks[old_perm[j1]]);
                } else if j1 < p && j2 > p {
                    assert(perm[j1] == old_perm[j1]);
                    assert(perm[j2] == old_perm[j2 - 1]);
                } else if j1 > p {
                    assert(perm[j1] == old_perm[j1 - 1]);
                    assert(perm[j2] == old_perm[j2 - 1]);
                } else {
                    assert(perm[j1] == old_perm[j1]);
                    assert(perm[j2] == old_perm[j2]);
                }
            }
        }
        i = i + 1;
    }
    proof {
        assert(stably_sorted_by(out@, inp, ks, perm));
    }
    out
}

} // verus!
