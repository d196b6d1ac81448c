//! The order of strings (code point by code point, which is the byte order
//! that `str`'s `Ord` uses on UTF-8) and sorted lists without duplicates.

use vstd::prelude::*;
use crate::status::string_views;
use crate::text::chars_of;

verus! {

/// `a` sorts before `b`.
pub open spec fn seq_lt(a: Seq<char>, b: Seq<char>) -> bool
    decreases a.len(),
{
    if a.len() == 0 {
        b.len() > 0
    } else if b.len() == 0 {
        false
    } else if a[0] != b[0] {
        a[0] < b[0]
    } else {
        seq_lt(a.drop_first(), b.drop_first())
    }
}

pub proof fn lemma_lt_irreflexive(a: Seq<char>)
    ensures
        !seq_lt(a, a),
    decreases a.len(),
{
    if a.len() > 0 {
        lemma_lt_irreflexive(a.drop_first());
    }
}

pub proof fn lemma_lt_asymmetric(a: Seq<char>, b: Seq<char>)
    ensures
        !(seq_lt(a, b) && seq_lt(b, a)),
    decreases a.len(),
{
    if a.len() > 0 && b.len() > 0 && a[0] == b[0] {
        lemma_lt_asymmetric(a.drop_first(), b.drop_first());
    }
}

pub proof fn lemma_lt_total(a: Seq<char>, b: Seq<char>)
    ensures
        a == b || seq_lt(a, b) || seq_lt(b, a),
        !(seq_lt(a, b) && seq_lt(b, a)),
    decreases a.len(),
{
    lemma_lt_asymmetric(a, b);
    if a.len() > 0 && b.len() > 0 && a[0] == b[0] {
        let da = a.drop_first();
        let db = b.drop_first();
        lemma_lt_total(da, db);
        if da == db {
            assert forall|i: int| 0 <= i < a.len() implies a[i] == b[i] by {
                if i > 0 {
                    assert(a[i] == da[i - 1]);
                    assert(b[i] == db[i - 1]);
                }
            }
            assert(a =~= b);
        }
    } else if a.len() == 0 && b.len() == 0 {
        assert(a =~= b);
    }
}

pub proof fn lemma_lt_transitive(a: Seq<char>, b: Seq<char>, c: Seq<char>)
    requires
        seq_lt(a, b),
        seq_lt(b, c),
    ensures
        seq_lt(a, c),
    decreases a.len(),
{
    if a.len() > 0 && b.len() > 0 && c.len() > 0 && a[0] == b[0] && b[0] == c[0] {
        lemma_lt_transitive(a.drop_first(), b.drop_first(), c.drop_first());
    }
}

/// Each member sorts before the next: sorted, without duplicates.
pub open spec fn strictly_sorted(s: Seq<Seq<char>>) -> bool {
    forall|i: int, j: int| 0 <= i < j < s.len() ==> seq_lt(#[trigger] s[i], #[trigger] s[j])
}

/// Compares two texts in the order of [`seq_lt`].
pub fn text_lt(a: &str, b: &str) -> (r: bool)
    ensures
        r == seq_lt(a@, b@),
{
    let x = chars_of(a);
    let y = chars_of(b);
    let mut i: usize = 0;
    proof {
        assert(x@.subrange(0, x.len() as int) == x@);
        assert(y@.subrange(0, y.len() as int) == y@);
    }
    while i < x.len() && i < y.len() && x[i] == y[i]
        invariant
            i <= x.len(),
            i <= y.len(),
            x@.subrange(0, i as int) == y@.subrange(0, i as int),
            seq_lt(x@, y@) == seq_lt(x@.subrange(i as int, x.len() as int), y@.subrange(i as int, y.len() as int)),
        decreases x.len() - i,
    {
        proof {
            let xs = x@.subrange(i as int, x.len() as int);
            let ys = y@.subrange(i as int, y.len() as int);
            assert(xs.drop_first() == x@.subrange(i + 1, x.len() as int));
            assert(ys.drop_first() == y@.subrange(i + 1, y.len() as int));
            assert(x@.subrange(0, i + 1) == x@.subrange(0, i as int).push(x@[i as int]));
            assert(y@.subrange(0, i + 1) == y@.subrange(0, i as int).push(y@[i as int]));
        }
        i += 1;
    }
    proof {
        assert(x@.subrange(0, x.len() as int) == x@);
        assert(y@.subrange(0, y.len() as int) == y@);
    }
    proof {
        if i < x.len() && i < y.len() {
            assert(x@.subrange(i as int, x.len() as int)[0] == x@[i as int]);
            assert(y@.subrange(i as int, y.len() as int)[0] == y@[i as int]);
        }
    }
    if i == x.len() {
        i < y.len()
    } else if i == y.len() {
        false
    } else {
        x[i] < y[i]
    }
}

/// Adds `x` to a strictly sorted list, where it is not already.
pub fn insert_sorted(v: &mut Vec<String>, x: String)
    requires
        strictly_sorted(string_views(old(v)@)),
    ensures
        strictly_sorted(string_views(final(v)@)),
        forall|s: Seq<char>| #[trigger] string_views(final(v)@).contains(s) <==> (string_views(old(v)@).contains(s) || s == x@),
{
    let ghost sv = string_views(v@);
    let mut p: usize = 0;
    while p < v.len() && text_lt(v[p].as_str(), x.as_str())
        invariant
            p <= v.len(),
            sv == string_views(v@),
            strictly_sorted(sv),
            forall|k: int| 0 <= k < p ==> seq_lt(#[trigger] sv[k], x@),
        decreases v.len() - p,
    {
        p += 1;
    }
    if p < v.len() && v[p] == x {
        proof {
            assert(sv[p as int] == x@);
        }
        return;
    }
    proof {
        if p < v.len() {
            lemma_lt_total(sv[p as int], x@);
            assert(seq_lt(x@, sv[p as int]));
            assert forall|k: int| p < k < sv.len() implies seq_lt(x@, #[trigger] sv[k]) by {
                lemma_lt_transitive(x@, sv[p as int], sv[k]);
            }
        }
    }
    let ghost xv = x@;
    v.insert(p, x);
    proof {
        let nv = string_views(v@);
        assert(nv =~= sv.insert(p as int, xv));
        assert forall|i: int, j: int| 0 <= i < j < nv.len() implies seq_lt(
            #[trigger] nv[i],
            #[trigger] nv[j],
        ) by {
            if j < p {
            } else if j == p {
            } else if i < p {
                assert(nv[j] == sv[j - 1]);
                if j - 1 == p as int {
                } else {
                    lemma_lt_transitive(sv[i], sv[p as int], sv[j - 1]);
                }
            } else if i == p {
            } else {
                assert(nv[i] == sv[i - 1]);
                assert(nv[j] == sv[j - 1]);
            }
        }
        assert forall|s: Seq<char>| #[trigger] nv.contains(s) <==> (sv.contains(s) || s == xv) by {
            if nv.contains(s) {
                let k = choose|k: int| 0 <= k < nv.len() && nv[k] == s;
                if k < p {
                    assert(sv[k] == s);
                } else if k > p {
                    assert(sv[k - 1] == s);
                }
            }
            if sv.contains(s) {
                let k = choose|k: int| 0 <= k < sv.len() && sv[k] == s;
                if k < p {
                    assert(nv[k] == s);
                } else {
                    assert(nv[k + 1] == s);
                }
            }
            if s == xv {
                assert(nv[p as int] == s);
            }
        }
    }
}

pub open spec fn keys_of(v: Seq<(String, String)>) -> Seq<Seq<char>> {
    v.map_values(|p: (String, String)| p.0@)
}

/// The value paired with `k` in a list whose keys are distinct.
pub open spec fn value_for(v: Seq<(String, String)>, k: Seq<char>) -> Seq<char> {
    v[key_index(v, k)].1@
}

/// The position of the pair whose key is `k`.
pub open spec fn key_index(v: Seq<(String, String)>, k: Seq<char>) -> int {
    choose|i: int| 0 <= i < v.len() && v[i].0@ == k
}

pub proof fn lemma_value_for(v: Seq<(String, String)>, i: int)
    requires
        strictly_sorted(keys_of(v)),
        0 <= i < v.len(),
    ensures
        value_for(v, v[i].0@) == v[i].1@,
{
    let k = v[i].0@;
    assert(keys_of(v)[i] == k);
    assert(0 <= i < v.len() && v[i].0@ == k);
    let j = key_index(v, k);
    assert(0 <= j < v.len() && v[j].0@ == k);
    if j != i {
        assert(keys_of(v)[j] == k);
        if j < i {
            assert(seq_lt(keys_of(v)[j], keys_of(v)[i]));
        } else {
            assert(seq_lt(keys_of(v)[i], keys_of(v)[j]));
        }
        lemma_lt_irreflexive(k);
    }
}

/// Puts `val` under `key` in a list sorted by key: a new key is added in
/// its place; an existing one takes the new value only when `overwrite`.
pub fn put_sorted(v: &mut Vec<(String, String)>, key: String, val: String, overwrite: bool)
    requires
        strictly_sorted(keys_of(old(v)@)),
    ensures
        strictly_sorted(keys_of(final(v)@)),
        forall|k: Seq<char>| #[trigger] keys_of(final(v)@).contains(k) <==> (keys_of(old(v)@).contains(k) || k == key@),
        forall|k: Seq<char>|
            keys_of(final(v)@).contains(k) ==> #[trigger] value_for(final(v)@, k) == if k == key@ && (
            overwrite || !keys_of(old(v)@).contains(k)) {
                val@
            } else {
                value_for(old(v)@, k)
            },
{
    let ghost ov = v@;
    let ghost ks = keys_of(v@);
    let mut p: usize = 0;
    while p < v.len() && text_lt(v[p].0.as_str(), key.as_str())
        invariant
            p <= v.len(),
            v@ == ov,
            ks == keys_of(v@),
            strictly_sorted(ks),
            forall|i: int| 0 <= i < p ==> seq_lt(#[trigger] ks[i], key@),
        decreases v.len() - p,
    {
        p += 1;
    }
    if p < v.len() && v[p].0 == key {
        proof {
            assert(ks[p as int] == key@);
        }
        if overwrite {
            let ghost kv = key@;
            let ghost vv = val@;
            v.set(p, (key, val));
            proof {
                let nv = v@;
                assert(keys_of(nv) =~= ks);
                assert forall|k: Seq<char>| keys_of(nv).contains(k) implies #[trigger] value_for(nv, k)
                    == if k == kv {
                    vv
                } else {
                    value_for(ov, k)
                } by {
                    let i = choose|i: int| 0 <= i < keys_of(nv).len() && keys_of(nv)[i] == k;
                    lemma_value_for(nv, i);
                    if i != p {
                        lemma_value_for(ov, i);
                        assert(nv[i] == ov[i]);
                        if k == kv {
                            assert(ks[i] == ks[p as int]);
                            if i < p {
                                assert(seq_lt(ks[i], ks[p as int]));
                            } else {
                                assert(seq_lt(ks[p as int], ks[i]));
                            }
                            lemma_lt_irreflexive(k);
                        }
                    }
                }
            }
        }
        return;
    }
    proof {
        if p < v.len() {
            lemma_lt_total(ks[p as int], key@);
            assert forall|k: int| p < k < ks.len() implies seq_lt(key@, #[trigger] ks[k]) by {
                lemma_lt_transitive(key@, ks[p as int], ks[k]);
            }
        }
        assert forall|i: int| 0 <= i < ks.len() implies ks[i] != key@ by {
            if i < p {
                lemma_lt_irreflexive(key@);
            } else {
                lemma_lt_irreflexive(key@);
            }
        }
    }
    let ghost kv = key@;
    let ghost vv = val@;
    v.insert(p, (key, val));
    proof {
        let nv = v@;
        let nk = keys_of(nv);
        assert(nk =~= ks.insert(p as int, kv));
        assert forall|i: int, j: int| 0 <= i < j < nk.len() implies seq_lt(
            #[trigger] nk[i],
            #[trigger] nk[j],
        ) by {
            if j < p {
            } else if j == p {
            } else if i < p {
                assert(nk[j] == ks[j - 1]);
                if j - 1 == p as int {
                } else {
                    lemma_lt_transitive(ks[i], ks[p as int], ks[j - 1]);
                }
            } else if i == p {
            } else {
                assert(nk[i] == ks[i - 1]);
                assert(nk[j] == ks[j - 1]);
            }
        }
        assert forall|k: Seq<char>| #[trigger] nk.contains(k) <==> (ks.contains(k) || k == kv) by {
            if nk.contains(k) {
                let i = choose|i: int| 0 <= i < nk.len() && nk[i] == k;
                if i < p {
                    assert(ks[i] == k);
                } else if i > p {
                    assert(ks[i - 1] == k);
                }
            }
            if ks.contains(k) {
                let i = choose|i: int| 0 <= i < ks.len() && ks[i] == k;
                if i < p {
                    assert(nk[i] == k);
                } else {
                    assert(nk[i + 1] == k);
                }
            }
            if k == kv {
                assert(nk[p as int] == k);
            }
        }
        assert forall|k: Seq<char>| nk.contains(k) implies #[trigger] value_for(nv, k) == if k == kv
            && (overwrite || !ks.contains(k)) {
            vv
        } else {
            value_for(ov, k)
        } by {
            let i = choose|i: int| 0 <= i < nk.len() && nk[i] == k;
            lemma_value_for(nv, i);
            if i < p {
                assert(nv[i] == ov[i]);
                lemma_value_for(ov, i);
            } else if i > p {
                assert(nv[i] == ov[i - 1]);
                lemma_value_for(ov, i - 1);
            } else {
                assert(!ks.contains(kv));
            }
        }
    }
}

} // verus!
