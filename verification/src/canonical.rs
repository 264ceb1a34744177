//! The canonicalizer: an authorization payload's key/value pairs, minus the
//! signature field, are sorted lexicographically, rendered as `key=value`
//! lines, and joined with single newlines. The resulting byte string is what
//! the keyed signature is computed over.

use vstd::prelude::*;
use vstd::relations::{sorted_by, total_ordering};
use vstd::seq_lib::{group_to_multiset_ensures, lemma_sorted_unique};

use crate::bytes::{
    bytes_eq, hash_key, hash_key_bytes, lemma_lex_le_refl, lemma_lex_le_total,
    lemma_lex_le_trans, lex_le, lex_le_bytes, push_bytes,
};

verus! {

/// The mathematical value of one decoded key/value pair.
pub open spec fn pair_view(p: (Vec<u8>, Vec<u8>)) -> (Seq<u8>, Seq<u8>) {
    (p.0@, p.1@)
}

/// The mathematical value of a list of decoded key/value pairs.
pub open spec fn pairs_view(v: Seq<(Vec<u8>, Vec<u8>)>) -> Seq<(Seq<u8>, Seq<u8>)> {
    v.map_values(|p: (Vec<u8>, Vec<u8>)| pair_view(p))
}

/// Order on pairs: by key, and among equal keys by value, both
/// lexicographically.
pub open spec fn pair_le(x: (Seq<u8>, Seq<u8>), y: (Seq<u8>, Seq<u8>)) -> bool {
    if x.0 != y.0 {
        lex_le(x.0, y.0)
    } else {
        lex_le(x.1, y.1)
    }
}

/// The pair order as a relation value.
pub open spec fn pair_order() -> spec_fn((Seq<u8>, Seq<u8>), (Seq<u8>, Seq<u8>)) -> bool {
    |x: (Seq<u8>, Seq<u8>), y: (Seq<u8>, Seq<u8>)| pair_le(x, y)
}

/// The pair order is a total order, so sorting by it has a unique result.
pub proof fn lemma_pair_order_total()
    ensures
        total_ordering(pair_order()),
{
    let r = pair_order();
    assert forall|x: (Seq<u8>, Seq<u8>)| #[trigger] r(x, x) by {
        lemma_lex_le_refl(x.1);
    }
    assert forall|x: (Seq<u8>, Seq<u8>), y: (Seq<u8>, Seq<u8>)| #[trigger] r(x, y) && #[trigger] r(
        y,
        x,
    ) implies x == y by {
        if x.0 != y.0 {
            lemma_lex_le_total(x.0, y.0);
            assert(false);
        } else {
            lemma_lex_le_total(x.1, y.1);
            assert(x =~= y);
        }
    }
    assert forall|x: (Seq<u8>, Seq<u8>), y: (Seq<u8>, Seq<u8>), z: (Seq<u8>, Seq<u8>)|
        #[trigger] r(x, y) && #[trigger] r(y, z) implies r(x, z) by {
        if x.0 == y.0 && y.0 == z.0 {
            lemma_lex_le_trans(x.1, y.1, z.1);
        } else if x.0 == y.0 {
            assert(x.0 != z.0 && lex_le(y.0, z.0));
        } else if y.0 == z.0 {
            assert(x.0 != z.0 && lex_le(x.0, y.0));
        } else {
            lemma_lex_le_trans(x.0, y.0, z.0);
            if x.0 == z.0 {
                lemma_lex_le_total(x.0, y.0);
                assert(false);
            }
        }
    }
    assert forall|x: (Seq<u8>, Seq<u8>), y: (Seq<u8>, Seq<u8>)| #[trigger] r(x, y) || #[trigger] r(
        y,
        x,
    ) by {
        if x.0 != y.0 {
            lemma_lex_le_total(x.0, y.0);
        } else {
            lemma_lex_le_total(x.1, y.1);
        }
    }
}

/// The pair order relates every two pairs, one way or the other.
pub proof fn lemma_pair_le_connected(x: (Seq<u8>, Seq<u8>), y: (Seq<u8>, Seq<u8>))
    ensures
        pair_le(x, y) || pair_le(y, x),
{
    if x.0 != y.0 {
        lemma_lex_le_total(x.0, y.0);
    } else {
        lemma_lex_le_total(x.1, y.1);
    }
}

/// The pair order is transitive.
pub proof fn lemma_pair_le_trans(x: (Seq<u8>, Seq<u8>), y: (Seq<u8>, Seq<u8>), z: (Seq<u8>, Seq<u8>))
    requires
        pair_le(x, y),
        pair_le(y, z),
    ensures
        pair_le(x, z),
{
    if x.0 == y.0 && y.0 == z.0 {
        lemma_lex_le_trans(x.1, y.1, z.1);
    } else if x.0 == y.0 {
    } else if y.0 == z.0 {
    } else {
        lemma_lex_le_trans(x.0, y.0, z.0);
        if x.0 == z.0 {
            lemma_lex_le_total(x.0, y.0);
        }
    }
}

fn pair_le_exec(x: &(Vec<u8>, Vec<u8>), y: &(Vec<u8>, Vec<u8>)) -> (r: bool)
    ensures
        r == pair_le(pair_view(*x), pair_view(*y)),
{
    if bytes_eq(x.0.as_slice(), y.0.as_slice()) {
        lex_le_bytes(x.1.as_slice(), y.1.as_slice())
    } else {
        lex_le_bytes(x.0.as_slice(), y.0.as_slice())
    }
}

/// The payload's pairs in canonical order.
pub open spec fn sort_pairs(s: Seq<(Seq<u8>, Seq<u8>)>) -> Seq<(Seq<u8>, Seq<u8>)> {
    s.sort_by(pair_order())
}

fn clone_pair(p: &(Vec<u8>, Vec<u8>)) -> (r: (Vec<u8>, Vec<u8>))
    ensures
        pair_view(r) == pair_view(*p),
{
    (vstd::slice::slice_to_vec(p.0.as_slice()), vstd::slice::slice_to_vec(p.1.as_slice()))
}

/// Sorts a payload's pairs into canonical order.
pub fn sort_pairs_vec(input: &Vec<(Vec<u8>, Vec<u8>)>) -> (r: Vec<(Vec<u8>, Vec<u8>)>)
    ensures
        pairs_view(r@) == sort_pairs(pairs_view(input@)),
{
    broadcast use group_to_multiset_ensures;

    let n = input.len();
    let mut out: Vec<(Vec<u8>, Vec<u8>)> = Vec::new();
    let mut i: usize = 0;
    proof {
        assert(pairs_view(input@.take(0)) =~= Seq::<(Seq<u8>, Seq<u8>)>::empty());
        assert(pairs_view(out@) =~= Seq::<(Seq<u8>, Seq<u8>)>::empty());
    }
    while i < n
        invariant
            n == input@.len(),
            i <= n,
            sorted_by(pairs_view(out@), pair_order()),
            pairs_view(out@).to_multiset() == pairs_view(input@.take(i as int)).to_multiset(),
        decreases n - i,
    {
        let x = clone_pair(&input[i]);
        let ghost xv = pair_view(x);
        let mut j: usize = 0;
        loop
            invariant
                j <= out@.len(),
                sorted_by(pairs_view(out@), pair_order()),
                pair_view(x) == xv,
                forall|m: int| 0 <= m < j ==> pair_le(#[trigger] pairs_view(out@)[m], xv),
            ensures
                j <= out@.len(),
                forall|m: int| 0 <= m < j ==> pair_le(#[trigger] pairs_view(out@)[m], xv),
                j == out@.len() || pair_le(xv, pairs_view(out@)[j as int]),
            decreases out@.len() - j,
        {
            if j == out.len() {
                break ;
            }
            if !pair_le_exec(&out[j], &x) {
                proof {
                    lemma_pair_le_connected(pairs_view(out@)[j as int], xv);
                }
                break ;
            }
            j += 1;
        }
        proof {
            let ov = pairs_view(out@);
            let rr = pair_order();
            assert forall|m: int| j <= m < ov.len() implies pair_le(xv, #[trigger] ov[m]) by {
                if m > j {
                    assert(rr(ov[j as int], ov[m]));
                    lemma_pair_le_trans(xv, ov[j as int], ov[m]);
                }
            }
        }
        let ghost old_out = out@;
        out.insert(j, x);
        proof {
            let ov = pairs_view(old_out);
            let nv = pairs_view(out@);
            let rr = pair_order();
            assert(nv =~= ov.insert(j as int, xv));
            assert forall|p: int, q: int| 0 <= p < q < nv.len() implies #[trigger] rr(
                nv[p],
                nv[q],
            ) by {
                let ji = j as int;
                if q < ji {
                    assert(rr(ov[p], ov[q]));
                } else if p < ji && q == ji {
                    assert(nv[q] == xv);
                    assert(pair_le(ov[p], xv));
                } else if p < ji && q > ji {
                    assert(rr(ov[p], ov[q - 1]));
                } else if p == ji {
                    assert(nv[p] == xv);
                    assert(pair_le(xv, ov[q - 1]));
                } else {
                    assert(rr(ov[p - 1], ov[q - 1]));
                }
            }
            assert(sorted_by(nv, rr));
            vstd::seq_lib::to_multiset_insert(ov, j as int, xv);
            assert(nv.to_multiset() == ov.to_multiset().insert(xv));
            let tv = pairs_view(input@.take(i as int));
            assert(pairs_view(input@.take(i + 1)) =~= tv.push(xv));
            vstd::seq_lib::to_multiset_build(tv, xv);
            assert(tv.push(xv).to_multiset() =~= tv.to_multiset().insert(xv));
        }
        i += 1;
    }
    proof {
        assert(pairs_view(input@.take(n as int)) =~= pairs_view(input@));
        lemma_pair_order_total();
        pairs_view(input@).lemma_sort_by_ensures(pair_order());
        lemma_sorted_unique(pairs_view(out@), sort_pairs(pairs_view(input@)), pair_order());
    }
    out
}

/// The value of the last pair carrying the given key, if any.
pub open spec fn find_spec(s: Seq<(Seq<u8>, Seq<u8>)>, k: Seq<u8>) -> Option<Seq<u8>>
    decreases s.len(),
{
    if s.len() == 0 {
        None
    } else if s.last().0 == k {
        Some(s.last().1)
    } else {
        find_spec(s.drop_last(), k)
    }
}

/// Finds the value of the last pair carrying the given key.
pub fn find_last(v: &Vec<(Vec<u8>, Vec<u8>)>, key: &[u8]) -> (r: Option<Vec<u8>>)
    ensures
        match r {
            Some(val) => find_spec(pairs_view(v@), key@) == Some(val@),
            None => find_spec(pairs_view(v@), key@) is None,
        },
{
    let mut i = v.len();
    proof {
        assert(pairs_view(v@).take(i as int) =~= pairs_view(v@));
    }
    while i > 0
        invariant
            i <= v@.len(),
            find_spec(pairs_view(v@), key@) == find_spec(
                pairs_view(v@).take(i as int),
                key@,
            ),
        decreases i,
    {
        i -= 1;
        proof {
            assert(pairs_view(v@).take(i + 1).drop_last() =~= pairs_view(v@).take(i as int));
            assert(pairs_view(v@).take(i + 1).last() == pair_view(v@[i as int]));
        }
        if bytes_eq(v[i].0.as_slice(), key) {
            return Some(vstd::slice::slice_to_vec(v[i].1.as_slice()));
        }
    }
    proof {
        assert(pairs_view(v@).take(0).len() == 0);
    }
    None
}

/// Holds of the pairs whose key is not the given one.
pub open spec fn other_key(k: Seq<u8>) -> spec_fn((Seq<u8>, Seq<u8>)) -> bool {
    |p: (Seq<u8>, Seq<u8>)| p.0 != k
}

/// The pairs that remain once the given key is taken out.
pub open spec fn remove_key(s: Seq<(Seq<u8>, Seq<u8>)>, k: Seq<u8>) -> Seq<(Seq<u8>, Seq<u8>)> {
    s.filter(other_key(k))
}

/// When every pair carrying the key holds one and the same value, the lookup
/// finds exactly that value.
pub proof fn lemma_find_unique(s: Seq<(Seq<u8>, Seq<u8>)>, k: Seq<u8>, v: Seq<u8>)
    requires
        s.contains((k, v)),
        forall|i: int| 0 <= i < s.len() && (#[trigger] s[i]).0 == k ==> s[i].1 == v,
    ensures
        find_spec(s, k) == Some(v),
    decreases s.len(),
{
    let w = choose|i: int| 0 <= i < s.len() && s[i] == (k, v);
    assert(s.len() > 0);
    if s.last().0 == k {
        assert(s[s.len() - 1].1 == v);
    } else {
        assert(w < s.len() - 1);
        assert(s.drop_last()[w] == s[w]);
        assert(s.drop_last().contains((k, v)));
        assert forall|m: int|
            0 <= m < s.drop_last().len() && (#[trigger] s.drop_last()[m]).0 == k implies s.drop_last()[m].1
            == v by {
            assert(s.drop_last()[m] == s[m]);
        }
        lemma_find_unique(s.drop_last(), k, v);
    }
}

/// Taking one element out of a payload takes exactly that element out of the
/// multiset of what removal keeps.
proof fn lemma_remove_key_multiset_remove(s: Seq<(Seq<u8>, Seq<u8>)>, j: int, k: Seq<u8>)
    requires
        0 <= j < s.len(),
    ensures
        remove_key(s, k).to_multiset() == if other_key(k)(s[j]) {
            remove_key(s.remove(j), k).to_multiset().insert(s[j])
        } else {
            remove_key(s.remove(j), k).to_multiset()
        },
    decreases s.len(),
{
    broadcast use vstd::seq_lib::group_to_multiset_ensures;
    broadcast use vstd::multiset::group_multiset_axioms;

    let pred = other_key(k);
    let x = s.last();
    let t = s.drop_last();
    assert(s =~= t.push(x));
    t.lemma_filter_push(x, pred);
    if j == s.len() - 1 {
        assert(s.remove(j) =~= t);
    } else {
        assert(s.remove(j) =~= t.remove(j).push(x));
        t.remove(j).lemma_filter_push(x, pred);
        lemma_remove_key_multiset_remove(t, j, k);
        assert(t[j] == s[j]);
        if pred(x) && pred(s[j]) {
            assert(remove_key(t.remove(j), k).to_multiset().insert(s[j]).insert(x)
                =~= remove_key(t.remove(j), k).to_multiset().insert(x).insert(s[j]));
        }
    }
}

/// Two payloads holding the same pairs keep the same pairs, as multisets,
/// when a key is removed from each.
pub proof fn lemma_remove_key_multiset_congruence(
    a: Seq<(Seq<u8>, Seq<u8>)>,
    b: Seq<(Seq<u8>, Seq<u8>)>,
    k: Seq<u8>,
)
    requires
        a.to_multiset() == b.to_multiset(),
    ensures
        remove_key(a, k).to_multiset() == remove_key(b, k).to_multiset(),
    decreases a.len(),
{
    broadcast use vstd::seq_lib::group_to_multiset_ensures;
    broadcast use vstd::multiset::group_multiset_axioms;

    let pred = other_key(k);
    if a.len() == 0 {
        assert(a.to_multiset().len() == 0);
        assert(b.len() == 0);
        assert(remove_key(a, k) =~= Seq::<(Seq<u8>, Seq<u8>)>::empty()) by {
            reveal(Seq::filter);
        }
        assert(remove_key(b, k) =~= Seq::<(Seq<u8>, Seq<u8>)>::empty()) by {
            reveal(Seq::filter);
        }
    } else {
        let x = a.last();
        let t = a.drop_last();
        assert(a =~= t.push(x));
        assert(a.contains(x)) by {
            assert(a[a.len() - 1] == x);
        }
        assert(a.to_multiset().count(x) > 0);
        assert(b.to_multiset().count(x) > 0);
        assert(b.contains(x));
        let j = choose|j: int| 0 <= j < b.len() && b[j] == x;
        assert(a.to_multiset() == t.to_multiset().insert(x));
        assert(t.to_multiset() =~= a.to_multiset().remove(x));
        assert(b.remove(j).to_multiset() == b.to_multiset().remove(b[j]));
        assert(t.to_multiset() == b.remove(j).to_multiset());
        lemma_remove_key_multiset_congruence(t, b.remove(j), k);
        t.lemma_filter_push(x, pred);
        lemma_remove_key_multiset_remove(b, j, k);
    }
}

/// Removing a key from a payload in canonical order leaves it in canonical
/// order.
pub proof fn lemma_remove_key_sorted(s: Seq<(Seq<u8>, Seq<u8>)>, k: Seq<u8>)
    requires
        sorted_by(s, pair_order()),
    ensures
        sorted_by(remove_key(s, k), pair_order()),
    decreases s.len(),
{
    let rr = pair_order();
    let pred = other_key(k);
    if s.len() == 0 {
        assert(remove_key(s, k) =~= s) by {
            reveal(Seq::filter);
        }
    } else {
        let x = s.last();
        let t = s.drop_last();
        assert(s =~= t.push(x));
        assert(sorted_by(t, rr)) by {
            assert forall|i: int, j: int| 0 <= i < j < t.len() implies #[trigger] rr(
                t[i],
                t[j],
            ) by {
                assert(rr(s[i], s[j]));
            }
        }
        lemma_remove_key_sorted(t, k);
        t.lemma_filter_push(x, pred);
        if pred(x) {
            let f = remove_key(t, k);
            let g = f.push(x);
            assert forall|i: int, j: int| 0 <= i < j < g.len() implies #[trigger] rr(
                g[i],
                g[j],
            ) by {
                if j < f.len() {
                    assert(rr(f[i], f[j]));
                } else {
                    assert(g[j] == x);
                    assert(f.contains(f[i])) by {
                        assert(f[i] == f[i]);
                    }
                    t.lemma_filter_contains_rev(pred, f[i]);
                    let m = choose|m: int| 0 <= m < t.len() && t[m] == f[i];
                    assert(rr(s[m], s[s.len() - 1]));
                }
            }
        }
    }
}

/// One pair rendered as `key=value`.
pub open spec fn render_pair(p: (Seq<u8>, Seq<u8>)) -> Seq<u8> {
    p.0 + seq![61u8] + p.1
}

/// Rendered pairs joined with single newlines, no trailing separator.
pub open spec fn join_lines(s: Seq<(Seq<u8>, Seq<u8>)>) -> Seq<u8>
    decreases s.len(),
{
    if s.len() == 0 {
        Seq::empty()
    } else if s.len() == 1 {
        render_pair(s[0])
    } else {
        join_lines(s.drop_last()) + seq![10u8] + render_pair(s.last())
    }
}

/// The canonical byte string of a payload: its pairs in canonical order,
/// minus the signature field, rendered and joined.
pub open spec fn canonical_of(raw: Seq<(Seq<u8>, Seq<u8>)>) -> Seq<u8> {
    join_lines(remove_key(sort_pairs(raw), hash_key()))
}

/// Builds the canonical byte string from pairs already in canonical order.
pub fn canonical_bytes(v: &Vec<(Vec<u8>, Vec<u8>)>) -> (r: Vec<u8>)
    ensures
        r@ == join_lines(remove_key(pairs_view(v@), hash_key())),
{
    let hk = hash_key_bytes();
    let mut out: Vec<u8> = Vec::new();
    let mut first = true;
    let n = v.len();
    let mut i: usize = 0;
    proof {
        reveal(Seq::filter);
        assert(pairs_view(v@).take(0).len() == 0);
        assert(remove_key(pairs_view(v@).take(0), hash_key()).len() == 0);
    }
    while i < n
        invariant
            n == v@.len(),
            i <= n,
            hk@ == hash_key(),
            out@ == join_lines(remove_key(pairs_view(v@).take(i as int), hash_key())),
            first == (remove_key(pairs_view(v@).take(i as int), hash_key()).len() == 0),
        decreases n - i,
    {
        let ghost pre = pairs_view(v@).take(i as int);
        let ghost fpre = remove_key(pre, hash_key());
        proof {
            reveal(Seq::filter);
            assert(pairs_view(v@).take(i + 1).drop_last() =~= pre);
            assert(pairs_view(v@).take(i + 1).last() == pair_view(v@[i as int]));
        }
        if bytes_eq(v[i].0.as_slice(), hk.as_slice()) {
            proof {
                assert(remove_key(pairs_view(v@).take(i + 1), hash_key()) == fpre);
            }
        } else {
            let ghost fpost = remove_key(pairs_view(v@).take(i + 1), hash_key());
            proof {
                assert(fpost == fpre.push(pair_view(v@[i as int])));
                assert(fpost.drop_last() =~= fpre);
                assert(fpost.last() == pair_view(v@[i as int]));
            }
            if !first {
                out.push(10);
            }
            push_bytes(&mut out, v[i].0.as_slice());
            out.push(61);
            push_bytes(&mut out, v[i].1.as_slice());
            first = false;
            proof {
                if fpre.len() == 0 {
                    assert(fpost.len() == 1);
                    assert(fpost[0] == fpost.last());
                    assert(out@ =~= render_pair(pair_view(v@[i as int])));
                } else {
                    assert(out@ =~= join_lines(fpre) + seq![10u8] + render_pair(
                        pair_view(v@[i as int]),
                    ));
                }
            }
        }
        i += 1;
    }
    proof {
        assert(pairs_view(v@).take(n as int) =~= pairs_view(v@));
    }
    out
}

} // verus!
