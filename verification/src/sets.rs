//! Ordered sets of strings: a strictly ascending vector stands for the set it holds,
//! in the order of `str`.
use vstd::prelude::*;

use crate::projection::{compare_strings, lemma_str_order_antisym, lemma_str_order_trans, str_order};

verus! {

/// Whether the strings ascend strictly in the order of `str`.
pub open spec fn strictly_sorted(s: Seq<Seq<char>>) -> bool {
    forall|i: int, j: int| 0 <= i < j < s.len() ==> str_order(#[trigger] s[i], #[trigger] s[j]) < 0
}

/// `s` with `x` added at its place in the order, unless `s` already holds it.
pub open spec fn set_insert(s: Seq<Seq<char>>, x: Seq<char>) -> Seq<Seq<char>>
    decreases s.len(),
{
    if s.len() == 0 {
        seq![x]
    } else if str_order(s[0], x) == 0 {
        s
    } else if str_order(s[0], x) > 0 {
        seq![x] + s
    } else {
        seq![s[0]] + set_insert(s.drop_first(), x)
    }
}

/// The ordered set of the first `n` strings of `s`.
pub open spec fn set_of(s: Seq<Seq<char>>, n: nat) -> Seq<Seq<char>>
    decreases n,
{
    if n == 0 || n > s.len() {
        Seq::empty()
    } else {
        set_insert(set_of(s, (n - 1) as nat), s[n - 1])
    }
}

/// The ordered set of all strings of `s`.
pub open spec fn ordered_set(s: Seq<Seq<char>>) -> Seq<Seq<char>> {
    set_of(s, s.len())
}

/// Inserting into an ordered set keeps it ordered and adds exactly the new string.
pub proof fn lemma_set_insert(s: Seq<Seq<char>>, x: Seq<char>)
    requires
        strictly_sorted(s),
    ensures
        strictly_sorted(set_insert(s, x)),
        forall|y: Seq<char>| #[trigger] set_insert(s, x).contains(y) <==> (s.contains(y) || y == x),
    decreases s.len(),
{
    if s.len() == 0 {
        assert(seq![x][0] == x);
    } else {
        lemma_str_order_antisym(s[0], x);
        if str_order(s[0], x) == 0 {
        } else if str_order(s[0], x) > 0 {
            let r = seq![x] + s;
            assert forall|i: int, j: int| 0 <= i < j < r.len() implies str_order(
                #[trigger] r[i],
                #[trigger] r[j],
            ) < 0 by {
                if i == 0 {
                    if j > 1 {
                        assert(str_order(s[0], s[j - 1]) < 0);
                        lemma_str_order_trans(x, s[0], s[j - 1]);
                    }
                } else {
                    assert(r[i] == s[i - 1] && r[j] == s[j - 1]);
                }
            }
            assert forall|y: Seq<char>| #[trigger] r.contains(y) <==> (s.contains(y) || y == x) by {
                if s.contains(y) {
                    let k = choose|k: int| 0 <= k < s.len() && s[k] == y;
                    assert(r[k + 1] == y);
                }
                if r.contains(y) && y != x {
                    let k = choose|k: int| 0 <= k < r.len() && r[k] == y;
                    assert(s[k - 1] == y);
                }
                if y == x {
                    assert(r[0] == x);
                }
            }
        } else {
            let rest = s.drop_first();
            assert forall|i: int, j: int| 0 <= i < j < rest.len() implies str_order(
                #[trigger] rest[i],
                #[trigger] rest[j],
            ) < 0 by {
                assert(rest[i] == s[i + 1] && rest[j] == s[j + 1]);
            }
            lemma_set_insert(rest, x);
            let tail = set_insert(rest, x);
            let r = seq![s[0]] + tail;
            assert forall|i: int, j: int| 0 <= i < j < r.len() implies str_order(
                #[trigger] r[i],
                #[trigger] r[j],
            ) < 0 by {
                if i == 0 {
                    assert(tail.contains(r[j]));
                    if r[j] == x {
                    } else {
                        let k = choose|k: int| 0 <= k < rest.len() && rest[k] == r[j];
                        assert(s[k + 1] == r[j]);
                    }
                } else {
                    assert(r[i] == tail[i - 1] && r[j] == tail[j - 1]);
                }
            }
            assert forall|y: Seq<char>| #[trigger] r.contains(y) <==> (s.contains(y) || y == x) by {
                if s.contains(y) {
                    let k = choose|k: int| 0 <= k < s.len() && s[k] == y;
                    if k == 0 {
                        assert(r[0] == y);
                    } else {
                        assert(rest[k - 1] == y);
                        assert(tail.contains(y));
                        let m = choose|m: int| 0 <= m < tail.len() && tail[m] == y;
                        assert(r[m + 1] == y);
                    }
                }
                if r.contains(y) {
                    let k = choose|k: int| 0 <= k < r.len() && r[k] == y;
                    if k == 0 {
                        assert(s[0] == y);
                    } else {
                        assert(tail[k - 1] == y);
                        assert(tail.contains(y));
                        if y != x {
                            assert(rest.contains(y));
                            let m = choose|m: int| 0 <= m < rest.len() && rest[m] == y;
                            assert(s[m + 1] == y);
                        }
                    }
                }
                if y == x {
                    assert(tail.contains(x));
                    let m = choose|m: int| 0 <= m < tail.len() && tail[m] == x;
                    assert(r[m + 1] == x);
                }
            }
        }
    }
}

/// The ordered set of a prefix is ordered and holds exactly the strings of the prefix.
pub proof fn lemma_set_of(s: Seq<Seq<char>>, n: nat)
    requires
        n <= s.len(),
    ensures
        strictly_sorted(set_of(s, n)),
        forall|y: Seq<char>| #[trigger] set_of(s, n).contains(y) <==> s.take(n as int).contains(y),
    decreases n,
{
    if n == 0 {
        assert(s.take(0) =~= Seq::<Seq<char>>::empty());
    } else {
        lemma_set_of(s, (n - 1) as nat);
        lemma_set_insert(set_of(s, (n - 1) as nat), s[n - 1]);
        assert(s.take(n as int) =~= s.take(n - 1).push(s[n - 1]));
        assert forall|y: Seq<char>| #[trigger] set_of(s, n).contains(y) <==> s.take(
            n as int,
        ).contains(y) by {
            let p = s.take(n - 1);
            if p.contains(y) {
                let k = choose|k: int| 0 <= k < p.len() && p[k] == y;
                assert(s.take(n as int)[k] == y);
            }
            if y == s[n - 1] {
                assert(s.take(n as int)[n - 1] == y);
            }
            if s.take(n as int).contains(y) {
                let k = choose|k: int| 0 <= k < n && s.take(n as int)[k] == y;
                if k < n - 1 {
                    assert(p[k] == y);
                }
            }
        }
    }
}

/// A strictly ascending sequence is its own ordered set.
pub proof fn lemma_ordered_set_of_sorted(s: Seq<Seq<char>>)
    requires
        strictly_sorted(s),
    ensures
        ordered_set(s) == s,
{
    lemma_set_of_sorted(s, s.len());
    assert(s.take(s.len() as int) =~= s);
}

proof fn lemma_set_of_sorted(s: Seq<Seq<char>>, n: nat)
    requires
        strictly_sorted(s),
        n <= s.len(),
    ensures
        set_of(s, n) == s.take(n as int),
    decreases n,
{
    if n == 0 {
        assert(s.take(0) =~= Seq::<Seq<char>>::empty());
    } else {
        lemma_set_of_sorted(s, (n - 1) as nat);
        lemma_insert_last(s.take(n - 1), s[n - 1]);
        assert(s.take(n - 1).push(s[n - 1]) =~= s.take(n as int));
    }
}

/// Inserting a string greater than all of an ordered set appends it.
proof fn lemma_insert_last(s: Seq<Seq<char>>, x: Seq<char>)
    requires
        forall|i: int| 0 <= i < s.len() ==> str_order(#[trigger] s[i], x) < 0,
    ensures
        set_insert(s, x) == s.push(x),
    decreases s.len(),
{
    if s.len() > 0 {
        let rest = s.drop_first();
        assert forall|i: int| 0 <= i < rest.len() implies str_order(#[trigger] rest[i], x) < 0 by {
            assert(rest[i] == s[i + 1]);
        }
        lemma_insert_last(rest, x);
        assert(seq![s[0]] + rest.push(x) =~= s.push(x));
    } else {
        assert(seq![x] =~= Seq::<Seq<char>>::empty().push(x));
    }
}

/// Two ordered sets holding the same strings are the same sequence.
pub proof fn lemma_sorted_unique(a: Seq<Seq<char>>, b: Seq<Seq<char>>)
    requires
        strictly_sorted(a),
        strictly_sorted(b),
        forall|y: Seq<char>| a.contains(y) <==> b.contains(y),
    ensures
        a == b,
    decreases a.len(),
{
    if a.len() == 0 {
        if b.len() > 0 {
            assert(b.contains(b[0]));
        }
        assert(a =~= b);
    } else if b.len() == 0 {
        assert(a.contains(a[0]));
    } else {
        assert(a.contains(a[0]));
        assert(b.contains(b[0]));
        let ka = choose|k: int| 0 <= k < a.len() && a[k] == b[0];
        let kb = choose|k: int| 0 <= k < b.len() && b[k] == a[0];
        if ka > 0 {
            assert(str_order(a[0], a[ka]) < 0);
            if kb > 0 {
                assert(str_order(b[0], b[kb]) < 0);
                lemma_str_order_antisym(a[0], b[0]);
            }
        }
        if kb > 0 {
            assert(str_order(b[0], b[kb]) < 0);
            lemma_str_order_antisym(a[0], b[0]);
        }
        assert(a[0] == b[0]) by {
            lemma_str_order_antisym(a[0], b[0]);
            if ka > 0 && kb > 0 {
                lemma_str_order_antisym(a[0], a[ka]);
            }
        }
        let ra = a.drop_first();
        let rb = b.drop_first();
        assert forall|i: int, j: int| 0 <= i < j < ra.len() implies str_order(
            #[trigger] ra[i],
            #[trigger] ra[j],
        ) < 0 by {
            assert(ra[i] == a[i + 1] && ra[j] == a[j + 1]);
        }
        assert forall|i: int, j: int| 0 <= i < j < rb.len() implies str_order(
            #[trigger] rb[i],
            #[trigger] rb[j],
        ) < 0 by {
            assert(rb[i] == b[i + 1] && rb[j] == b[j + 1]);
        }
        assert forall|y: Seq<char>| ra.contains(y) <==> rb.contains(y) by {
            if ra.contains(y) {
                let k = choose|k: int| 0 <= k < ra.len() && ra[k] == y;
                assert(a[k + 1] == y);
                assert(str_order(a[0], y) < 0);
                lemma_str_order_antisym(a[0], y);
                assert(b.contains(y));
                let m = choose|m: int| 0 <= m < b.len() && b[m] == y;
                assert(m != 0);
                assert(rb[m - 1] == y);
            }
            if rb.contains(y) {
                let k = choose|k: int| 0 <= k < rb.len() && rb[k] == y;
                assert(b[k + 1] == y);
                assert(str_order(b[0], y) < 0);
                lemma_str_order_antisym(b[0], y);
                assert(a.contains(y));
                let m = choose|m: int| 0 <= m < a.len() && a[m] == y;
                assert(m != 0);
                assert(ra[m - 1] == y);
            }
        }
        lemma_sorted_unique(ra, rb);
        assert(a =~= seq![a[0]] + ra);
        assert(b =~= seq![b[0]] + rb);
    }
}

/// Adds `x` to the ordered set `v`.
pub fn insert_string(v: &mut Vec<String>, x: &String)
    ensures
        final(v).deep_view() == set_insert(old(v).deep_view(), x@),
{
    let ghost s = old(v).deep_view();
    let mut k: usize = 0;
    assert(s.skip(0) =~= s);
    assert(s.take(0) + s =~= s);
    while k < v.len()
        invariant
            k <= v.len(),
            s == v.deep_view(),
            s == old(v).deep_view(),
            set_insert(s, x@) == s.take(k as int) + set_insert(s.skip(k as int), x@),
        decreases v.len() - k,
    {
        let c = compare_strings(v[k].as_str(), x.as_str());
        let ghost rest = s.skip(k as int);
        assert(rest[0] == s[k as int]);
        if c == 0 {
            assert(set_insert(rest, x@) == rest);
            assert(s.take(k as int) + rest =~= s);
            return;
        }
        if c > 0 {
            assert(set_insert(rest, x@) == seq![x@] + rest);
            let ghost before = v.deep_view();
            v.insert(k, x.clone());
            proof {
                assert(v.deep_view() =~= before.insert(k as int, x@));
                assert(s.take(k as int) + (seq![x@] + rest) =~= s.insert(k as int, x@));
            }
            return;
        }
        proof {
            assert(rest.drop_first() =~= s.skip(k + 1));
            assert(s.take(k as int) + (seq![rest[0]] + set_insert(rest.drop_first(), x@))
                =~= s.take(k + 1) + set_insert(s.skip(k + 1), x@));
        }
        k = k + 1;
    }
    let ghost before = v.deep_view();
    v.push(x.clone());
    proof {
        assert(s.skip(k as int) =~= Seq::<Seq<char>>::empty());
        assert(s.take(k as int) =~= s);
        assert(v.deep_view() =~= before.push(x@));
        assert(s + seq![x@] =~= s.push(x@));
    }
}

/// The ordered set of the strings of `v`.
pub fn ordered_strings(v: &Vec<String>) -> (r: Vec<String>)
    ensures
        r.deep_view() == ordered_set(v.deep_view()),
{
    let ghost s = v.deep_view();
    let mut r: Vec<String> = Vec::new();
    assert(r.deep_view() =~= Seq::<Seq<char>>::empty());
    let mut n: usize = 0;
    while n < v.len()
        invariant
            n <= v.len(),
            s == v.deep_view(),
            r.deep_view() == set_of(s, n as nat),
        decreases v.len() - n,
    {
        insert_string(&mut r, &v[n]);
        n = n + 1;
    }
    r
}

/// Whether the strings of `v` include `x`.
pub fn has_string(v: &Vec<String>, x: &str) -> (r: bool)
    ensures
        r == v.deep_view().contains(x@),
{
    let ghost s = v.deep_view();
    let mut k: usize = 0;
    while k < v.len()
        invariant
            k <= v.len(),
            s == v.deep_view(),
            forall|j: int| 0 <= j < k ==> s[j] != x@,
        decreases v.len() - k,
    {
        if crate::text::same_string(&v[k], x) {
            assert(s[k as int] == x@);
            return true;
        }
        k = k + 1;
    }
    false
}

// ---------------------------------------------------------------------------
// Keyed sequences ordered by key.

/// The keys of a keyed sequence.
pub open spec fn keys<T>(s: Seq<(Seq<char>, T)>) -> Seq<Seq<char>> {
    Seq::new(s.len(), |k: int| s[k].0)
}

/// `s` with the entry for `key` set to `val`: replaced where `s` has the key, and
/// otherwise inserted at its place in the order.
pub open spec fn keyed_place<T>(s: Seq<(Seq<char>, T)>, key: Seq<char>, val: T) -> Seq<(Seq<char>, T)>
    decreases s.len(),
{
    if s.len() == 0 {
        seq![(key, val)]
    } else if str_order(s[0].0, key) == 0 {
        seq![(key, val)] + s.drop_first()
    } else if str_order(s[0].0, key) > 0 {
        seq![(key, val)] + s
    } else {
        seq![s[0]] + keyed_place(s.drop_first(), key, val)
    }
}

/// Placing an entry adds its key to the ordered keys.
pub proof fn lemma_keyed_place<T>(s: Seq<(Seq<char>, T)>, key: Seq<char>, val: T)
    ensures
        keys(keyed_place(s, key, val)) == set_insert(keys(s), key),
    decreases s.len(),
{
    if s.len() == 0 {
        assert(keys(keyed_place(s, key, val)) =~= seq![key]);
    } else {
        let ks = keys(s);
        assert(ks[0] == s[0].0);
        assert(keys(s.drop_first()) =~= ks.drop_first());
        lemma_str_order_antisym(s[0].0, key);
        if str_order(s[0].0, key) == 0 {
            assert(keys(keyed_place(s, key, val)) =~= ks);
        } else if str_order(s[0].0, key) > 0 {
            assert(keys(keyed_place(s, key, val)) =~= seq![key] + ks);
        } else {
            lemma_keyed_place(s.drop_first(), key, val);
            assert(keys(keyed_place(s, key, val)) =~= seq![ks[0]] + set_insert(ks.drop_first(), key));
        }
    }
}

/// Sets the entry for `key` to `val`, keeping the keys ordered.
pub fn place_keyed<T: DeepView>(s: &mut Vec<(String, T)>, key: String, val: T)
    ensures
        final(s).deep_view() == keyed_place(old(s).deep_view(), key@, val.deep_view()),
{
    let ghost sv = old(s).deep_view();
    let ghost entry = (key@, val.deep_view());
    let mut k: usize = 0;
    assert(sv.skip(0) =~= sv);
    assert(sv.take(0) + sv =~= sv);
    while k < s.len()
        invariant
            k <= s.len(),
            sv == s.deep_view(),
            sv == old(s).deep_view(),
            entry == (key@, val.deep_view()),
            keyed_place(sv, key@, val.deep_view()) == sv.take(k as int) + keyed_place(
                sv.skip(k as int),
                key@,
                val.deep_view(),
            ),
        decreases s.len() - k,
    {
        let c = compare_strings(s[k].0.as_str(), key.as_str());
        let ghost rest = sv.skip(k as int);
        assert(rest[0] == sv[k as int]);
        if c == 0 {
            assert(keyed_place(rest, key@, val.deep_view()) == seq![entry] + rest.drop_first());
            let ghost before = s.deep_view();
            s.set(k, (key, val));
            proof {
                assert(s.deep_view() =~= before.update(k as int, entry));
                assert(sv.take(k as int) + (seq![entry] + rest.drop_first()) =~= before.update(
                    k as int,
                    entry,
                ));
            }
            return;
        }
        if c > 0 {
            assert(keyed_place(rest, key@, val.deep_view()) == seq![entry] + rest);
            let ghost before = s.deep_view();
            s.insert(k, (key, val));
            proof {
                assert(s.deep_view() =~= before.insert(k as int, entry));
                assert(sv.take(k as int) + (seq![entry] + rest) =~= sv.insert(k as int, entry));
            }
            return;
        }
        proof {
            assert(rest.drop_first() =~= sv.skip(k + 1));
            assert(sv.take(k as int) + (seq![rest[0]] + keyed_place(
                rest.drop_first(),
                key@,
                val.deep_view(),
            )) =~= sv.take(k + 1) + keyed_place(sv.skip(k + 1), key@, val.deep_view()));
        }
        k = k + 1;
    }
    let ghost before = s.deep_view();
    s.push((key, val));
    proof {
        assert(sv.skip(k as int) =~= Seq::<(Seq<char>, T::V)>::empty());
        assert(sv.take(k as int) =~= sv);
        assert(s.deep_view() =~= before.push(entry));
        assert(sv + seq![entry] =~= sv.push(entry));
    }
}

/// Position of the first entry keyed `key` at or after `i`.
pub open spec fn find_key<T>(s: Seq<(Seq<char>, T)>, key: Seq<char>, i: int) -> Option<int>
    decreases s.len() - i,
{
    if i < 0 || i >= s.len() {
        None
    } else if s[i].0 == key {
        Some(i)
    } else {
        find_key(s, key, i + 1)
    }
}

/// Position of the entry keyed `key`.
pub fn key_position<T: DeepView>(s: &Vec<(String, T)>, key: &str) -> (r: Option<usize>)
    ensures
        match r {
            Some(k) => find_key(s.deep_view(), key@, 0) == Some(k as int) && k < s@.len(),
            None => find_key(s.deep_view(), key@, 0) is None,
        },
{
    let ghost sv = s.deep_view();
    let mut i: usize = 0;
    while i < s.len()
        invariant
            i <= s.len(),
            sv == s.deep_view(),
            find_key(sv, key@, 0) == find_key(sv, key@, i as int),
        decreases s.len() - i,
    {
        if crate::text::same_string(&s[i].0, key) {
            return Some(i);
        }
        i = i + 1;
    }
    None
}

/// Every entry of `keyed_place(s, key, val)` is the placed one or an entry of `s`.
pub proof fn lemma_keyed_place_entries<T>(s: Seq<(Seq<char>, T)>, key: Seq<char>, val: T)
    ensures
        forall|i: int|
            0 <= i < keyed_place(s, key, val).len() ==> (#[trigger] keyed_place(s, key, val)[i] == (
                key,
                val,
            ) || s.contains(keyed_place(s, key, val)[i])),
    decreases s.len(),
{
    let r = keyed_place(s, key, val);
    if s.len() > 0 {
        if str_order(s[0].0, key) < 0 {
            lemma_keyed_place_entries(s.drop_first(), key, val);
            assert forall|i: int| 0 <= i < r.len() implies (#[trigger] r[i] == (key, val) || s.contains(r[i])) by {
                if i == 0 {
                    assert(s[0] == r[0]);
                } else {
                    let t = keyed_place(s.drop_first(), key, val);
                    assert(r[i] == t[i - 1]);
                    if t[i - 1] != (key, val) {
                        assert(s.drop_first().contains(t[i - 1]));
                        let j = choose|j: int| 0 <= j < s.drop_first().len() && s.drop_first()[j] == t[i - 1];
                        assert(s[j + 1] == r[i]);
                    }
                }
            }
        } else if str_order(s[0].0, key) == 0 {
            assert forall|i: int| 0 <= i < r.len() implies (#[trigger] r[i] == (key, val) || s.contains(r[i])) by {
                if i > 0 {
                    assert(s[i] == r[i]);
                }
            }
        } else {
            assert forall|i: int| 0 <= i < r.len() implies (#[trigger] r[i] == (key, val) || s.contains(r[i])) by {
                if i > 0 {
                    assert(s[i - 1] == r[i]);
                }
            }
        }
    }
}

/// `base` with the first `n` strings of `xs` added.
pub open spec fn insert_all(base: Seq<Seq<char>>, xs: Seq<Seq<char>>, n: nat) -> Seq<Seq<char>>
    decreases n,
{
    if n == 0 || n > xs.len() {
        base
    } else {
        set_insert(insert_all(base, xs, (n - 1) as nat), xs[n - 1])
    }
}

/// Adding strings to an ordered set keeps it ordered.
pub proof fn lemma_insert_all(base: Seq<Seq<char>>, xs: Seq<Seq<char>>, n: nat)
    requires
        strictly_sorted(base),
    ensures
        strictly_sorted(insert_all(base, xs, n)),
    decreases n,
{
    if n > 0 && n <= xs.len() {
        lemma_insert_all(base, xs, (n - 1) as nat);
        lemma_set_insert(insert_all(base, xs, (n - 1) as nat), xs[n - 1]);
    }
}

/// The set under `key`, or the empty set.
pub open spec fn set_under(m: Seq<(Seq<char>, Seq<Seq<char>>)>, key: Seq<char>) -> Seq<Seq<char>> {
    match find_key(m, key, 0) {
        Some(k) => m[k].1,
        None => Seq::empty(),
    }
}

/// The set map `m` with the strings `xs` added to the set under `key`, the key added
/// where it was missing.
pub open spec fn set_map_add(m: Seq<(Seq<char>, Seq<Seq<char>>)>, key: Seq<char>, xs: Seq<Seq<char>>) -> Seq<(Seq<char>, Seq<Seq<char>>)> {
    keyed_place(m, key, insert_all(set_under(m, key), xs, xs.len()))
}

/// Whether every value of a keyed set map is an ordered set.
pub open spec fn values_sorted(s: Seq<(Seq<char>, Seq<Seq<char>>)>) -> bool {
    forall|k: int| 0 <= k < s.len() ==> strictly_sorted(#[trigger] s[k].1)
}

/// Adding to a canonical set map keeps its keys and its sets ordered.
pub proof fn lemma_set_map_add(m: Seq<(Seq<char>, Seq<Seq<char>>)>, key: Seq<char>, xs: Seq<Seq<char>>)
    requires
        strictly_sorted(keys(m)),
        values_sorted(m),
    ensures
        strictly_sorted(keys(set_map_add(m, key, xs))),
        values_sorted(set_map_add(m, key, xs)),
{
    let v = insert_all(set_under(m, key), xs, xs.len());
    lemma_keyed_place(m, key, v);
    lemma_set_insert(keys(m), key);
    match find_key(m, key, 0) {
        Some(k) => {
            lemma_find_key(m, key, 0);
        },
        None => {},
    }
    lemma_insert_all(set_under(m, key), xs, xs.len());
    lemma_keyed_place_entries(m, key, v);
    let r = set_map_add(m, key, xs);
    assert forall|k: int| 0 <= k < r.len() implies strictly_sorted(#[trigger] r[k].1) by {
        if r[k] != (key, v) {
            assert(m.contains(r[k]));
            let j = choose|j: int| 0 <= j < m.len() && m[j] == r[k];
            assert(strictly_sorted(m[j].1));
        }
    }
}

/// Adding strings to an ordered set yields exactly the strings it held and the added
/// ones.
pub proof fn lemma_insert_all_contents(base: Seq<Seq<char>>, xs: Seq<Seq<char>>, n: nat)
    requires
        strictly_sorted(base),
        n <= xs.len(),
    ensures
        forall|y: Seq<char>|
            #[trigger] insert_all(base, xs, n).contains(y) <==> (base.contains(y) || xs.take(
                n as int,
            ).contains(y)),
    decreases n,
{
    if n == 0 {
        assert(xs.take(0) =~= Seq::<Seq<char>>::empty());
    } else {
        lemma_insert_all_contents(base, xs, (n - 1) as nat);
        lemma_insert_all(base, xs, (n - 1) as nat);
        lemma_set_insert(insert_all(base, xs, (n - 1) as nat), xs[n - 1]);
        let t = xs.take(n as int);
        let p = xs.take(n - 1);
        assert(t =~= p.push(xs[n - 1]));
        assert forall|y: Seq<char>| t.contains(y) <==> (p.contains(y) || y == xs[n - 1]) by {
            if t.contains(y) {
                let i = choose|i: int| 0 <= i < t.len() && t[i] == y;
                if i < n - 1 {
                    assert(p[i] == y);
                }
            }
            if p.contains(y) {
                let i = choose|i: int| 0 <= i < p.len() && p[i] == y;
                assert(t[i] == y);
            }
            if y == xs[n - 1] {
                assert(t[n - 1] == y);
            }
        }
    }
}

/// Every string in a set of a set map after adding `xs` under `key` was in some set of
/// the map before, or is one of `xs`.
pub proof fn lemma_set_map_add_contents(m: Seq<(Seq<char>, Seq<Seq<char>>)>, key: Seq<char>, xs: Seq<Seq<char>>)
    requires
        values_sorted(m),
    ensures
        forall|i: int, y: Seq<char>|
            0 <= i < set_map_add(m, key, xs).len() && #[trigger] set_map_add(m, key, xs)[i].1.contains(y)
                ==> xs.contains(y) || exists|k: int| 0 <= k < m.len() && #[trigger] m[k].1.contains(y),
{
    let u = set_under(m, key);
    let v = insert_all(u, xs, xs.len());
    lemma_keyed_place_entries(m, key, v);
    lemma_find_key(m, key, 0);
    assert(strictly_sorted(u)) by {
        match find_key(m, key, 0) {
            Some(k) => {
                assert(strictly_sorted(m[k].1));
            },
            None => {
                assert(u =~= Seq::<Seq<char>>::empty());
            },
        }
    }
    lemma_insert_all_contents(u, xs, xs.len());
    assert(xs.take(xs.len() as int) =~= xs);
    let r = set_map_add(m, key, xs);
    assert forall|i: int, y: Seq<char>|
        0 <= i < r.len() && #[trigger] r[i].1.contains(y) implies xs.contains(y) || exists|k: int|
            0 <= k < m.len() && #[trigger] m[k].1.contains(y) by {
        if r[i] == (key, v) {
            if !xs.contains(y) {
                assert(u.contains(y));
                let k = find_key(m, key, 0)->Some_0;
                assert(m[k].1.contains(y));
            }
        } else {
            assert(m.contains(r[i]));
            let k = choose|k: int| 0 <= k < m.len() && m[k] == r[i];
            assert(m[k].1.contains(y));
        }
    }
}

/// A found key is at a valid position.
pub proof fn lemma_find_key<T>(s: Seq<(Seq<char>, T)>, key: Seq<char>, i: int)
    ensures
        match find_key(s, key, i) {
            Some(k) => 0 <= k < s.len() && s[k].0 == key,
            None => true,
        },
    decreases s.len() - i,
{
    if 0 <= i < s.len() && s[i].0 != key {
        lemma_find_key(s, key, i + 1);
    }
}

/// Adds the strings `xs` to the set under `key`.
pub fn add_to_set_map(m: &mut Vec<(String, Vec<String>)>, key: &String, xs: &Vec<String>)
    ensures
        final(m).deep_view() == set_map_add(old(m).deep_view(), key@, xs.deep_view()),
{
    let ghost mv = m.deep_view();
    let mut set = match key_position(m, key.as_str()) {
        Some(k) => clone_strings_here(&m[k].1),
        None => Vec::new(),
    };
    assert(set.deep_view() =~= set_under(mv, key@));
    let ghost base = set.deep_view();
    let ghost xv = xs.deep_view();
    let mut j: usize = 0;
    while j < xs.len()
        invariant
            j <= xs.len(),
            xv == xs.deep_view(),
            set.deep_view() == insert_all(base, xv, j as nat),
        decreases xs.len() - j,
    {
        insert_string(&mut set, &xs[j]);
        j = j + 1;
    }
    place_keyed(m, key.clone(), set);
}

fn clone_strings_here(v: &Vec<String>) -> (r: Vec<String>)
    ensures
        r.deep_view() == v.deep_view(),
{
    crate::text::clone_strings(v)
}

} // verus!
