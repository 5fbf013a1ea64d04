//! The order of strings: lexicographic by character. Rust orders `String`
//! by its UTF-8 bytes, and UTF-8 keeps the order of code points, so this is
//! the order that `String`'s `Ord` gives.
use vstd::prelude::*;
use crate::text::{chars_of, views};
use vstd::multiset::Multiset;

verus! {

/// Whether `a` comes strictly before `b`.
pub open spec fn lex_lt(a: Seq<char>, b: Seq<char>) -> bool
    decreases a.len(),
{
    if a.len() == 0 {
        b.len() > 0
    } else if b.len() == 0 {
        false
    } else if a[0] != b[0] {
        a[0] < b[0]
    } else {
        lex_lt(a.drop_first(), b.drop_first())
    }
}

/// Nothing comes before itself.
pub proof fn lemma_lex_irreflexive(a: Seq<char>)
    ensures
        !lex_lt(a, a),
    decreases a.len(),
{
    if a.len() > 0 {
        lemma_lex_irreflexive(a.drop_first());
    }
}

/// Two different strings are ordered one way or the other, and not both.
pub proof fn lemma_lex_total(a: Seq<char>, b: Seq<char>)
    ensures
        a != b ==> (lex_lt(a, b) || lex_lt(b, a)),
        !(lex_lt(a, b) && lex_lt(b, a)),
    decreases a.len(),
{
    if a.len() == 0 {
        if b.len() == 0 {
            assert(a == b);
        }
    } else if b.len() == 0 {
    } else if a[0] != b[0] {
        assert(a[0] < b[0] || b[0] < a[0]);
    } else {
        lemma_lex_total(a.drop_first(), b.drop_first());
        if a.drop_first() == b.drop_first() {
            assert(a == seq![a[0]] + a.drop_first());
            assert(b == seq![b[0]] + b.drop_first());
        }
    }
}

/// The order is transitive.
pub proof fn lemma_lex_transitive(a: Seq<char>, b: Seq<char>, c: Seq<char>)
    requires
        lex_lt(a, b),
        lex_lt(b, c),
    ensures
        lex_lt(a, c),
    decreases a.len(),
{
    if a.len() == 0 {
    } else if a[0] != b[0] {
        if b[0] != c[0] {
        } else {
        }
    } else if b[0] != c[0] {
    } else {
        lemma_lex_transitive(a.drop_first(), b.drop_first(), c.drop_first());
    }
}

/// Whether `a` comes strictly before `b`.
pub fn lex_less(a: &[char], b: &[char]) -> (r: bool)
    ensures
        r == lex_lt(a@, b@),
{
    let mut i: usize = 0;
    assert(a@.skip(0) == a@);
    assert(b@.skip(0) == b@);
    while i < a.len() && i < b.len() && a[i] == b[i]
        invariant
            i <= a@.len(),
            i <= b@.len(),
            lex_lt(a@, b@) == lex_lt(a@.skip(i as int), b@.skip(i as int)),
        decreases a@.len() - i,
    {
        assert(a@.skip(i as int).drop_first() == a@.skip(i + 1));
        assert(b@.skip(i as int).drop_first() == b@.skip(i + 1));
        i = i + 1;
    }
    if i == a.len() {
        i < b.len()
    } else if i == b.len() {
        false
    } else {
        a[i] < b[i]
    }
}

/// Whether every element of `ks` comes strictly before every later one.
pub open spec fn strictly_sorted(ks: Seq<Seq<char>>) -> bool {
    forall|i: int, j: int| 0 <= i < j < ks.len() ==> lex_lt(#[trigger] ks[i], #[trigger] ks[j])
}

/// Inserts `k` into the increasing list `ks` unless it is there already.
pub fn insert_sorted(ks: &mut Vec<String>, k: String)
    requires
        strictly_sorted(views(old(ks)@)),
    ensures
        strictly_sorted(views(final(ks)@)),
        forall|q: Seq<char>| #[trigger]
            views(final(ks)@).contains(q) <==> (views(old(ks)@).contains(q) || q == k@),
{
    let kc = chars_of(k.as_str());
    let ghost old_v = views(ks@);
    let mut p: usize = 0;
    while p < ks.len() && lex_less(chars_of(ks[p].as_str()).as_slice(), kc.as_slice())
        invariant
            p <= ks@.len(),
            views(ks@) == old_v,
            kc@ == k@,
            forall|j: int| 0 <= j < p ==> lex_lt(#[trigger] old_v[j], k@),
        decreases ks@.len() - p,
    {
        p = p + 1;
    }
    if p < ks.len() && ks[p] == k {
        assert(old_v[p as int] == k@);
        assert forall|q: Seq<char>| #[trigger] old_v.contains(q) <==> (old_v.contains(q) || q == k@) by {
            if q == k@ {
                assert(old_v[p as int] == q);
            }
        }
        return;
    }
    proof {
        if p < old_v.len() {
            assert(!lex_lt(old_v[p as int], k@));
            assert(old_v[p as int] != k@);
            lemma_lex_total(old_v[p as int], k@);
        }
    }
    ks.insert(p, k);
    let ghost nv = old_v.insert(p as int, kc@);
    assert(views(ks@) =~= nv);
    assert forall|i: int, j: int| 0 <= i < j < nv.len() implies lex_lt(#[trigger] nv[i], #[trigger] nv[j]) by {
        if j < p {
        } else if j == p {
        } else if i == p {
            if j - 1 > p {
                lemma_lex_transitive(kc@, old_v[p as int], old_v[j - 1]);
            }
        } else if i < p {
            assert(lex_lt(old_v[i], old_v[j - 1]));
        } else {
            assert(lex_lt(old_v[i - 1], old_v[j - 1]));
        }
    }
    assert forall|q: Seq<char>| #[trigger] nv.contains(q) <==> (old_v.contains(q) || q == k@) by {
        if nv.contains(q) {
            let i = choose|i: int| 0 <= i < nv.len() && nv[i] == q;
            if i < p {
                assert(old_v[i] == q);
            } else if i > p {
                assert(old_v[i - 1] == q);
            }
        }
        if old_v.contains(q) {
            let i = choose|i: int| 0 <= i < old_v.len() && old_v[i] == q;
            if i < p {
                assert(nv[i] == q);
            } else {
                assert(nv[i + 1] == q);
            }
        }
        if q == k@ {
            assert(nv[p as int] == q);
        }
    }
}

} // verus!

verus! {

/// Where a stable insertion puts key `k` among `keys`: after every key
/// that does not come after `k`.
pub open spec fn ins_pos(keys: Seq<Seq<char>>, k: Seq<char>) -> int
    decreases keys.len(),
{
    if keys.len() == 0 {
        0
    } else if lex_lt(k, keys[0]) {
        0
    } else {
        1 + ins_pos(keys.drop_first(), k)
    }
}

/// `ins_pos` lies within the list.
pub proof fn lemma_ins_pos_bounds(keys: Seq<Seq<char>>, k: Seq<char>)
    ensures
        0 <= ins_pos(keys, k) <= keys.len(),
    decreases keys.len(),
{
    if keys.len() > 0 && !lex_lt(k, keys[0]) {
        lemma_ins_pos_bounds(keys.drop_first(), k);
    }
}

/// Inserts the items of `rest` one by one into `acc`, each at its
/// `ins_pos` by `key`.
pub open spec fn stable_fold<T>(acc: Seq<T>, rest: Seq<T>, key: spec_fn(T) -> Seq<char>) -> Seq<T>
    decreases rest.len(),
{
    if rest.len() == 0 {
        acc
    } else {
        stable_fold(
            acc.insert(ins_pos(acc.map_values(key), key(rest[0])), rest[0]),
            rest.drop_first(),
            key,
        )
    }
}

/// The stable sort of `s` by `key`, in the order of `lex_lt`: what
/// `sort_by` with `String` comparison gives.
pub open spec fn stable_sort<T>(s: Seq<T>, key: spec_fn(T) -> Seq<char>) -> Seq<T> {
    stable_fold(Seq::empty(), s, key)
}

/// The position at which a stable insertion puts `k` among `keys`.
pub fn insertion_point(keys: &Vec<Vec<char>>, k: &[char]) -> (p: usize)
    ensures
        p as int == ins_pos(keys@.map_values(|v: Vec<char>| v@), k@),
{
    let ghost kv = keys@.map_values(|v: Vec<char>| v@);
    let mut p: usize = 0;
    assert(kv.skip(0) == kv);
    while p < keys.len() && !lex_less(k, keys[p].as_slice())
        invariant
            p <= keys@.len(),
            kv == keys@.map_values(|v: Vec<char>| v@),
            ins_pos(kv, k@) == p + ins_pos(kv.skip(p as int), k@),
        decreases keys@.len() - p,
    {
        assert(kv.skip(p as int).drop_first() == kv.skip(p + 1));
        assert(kv.skip(p as int)[0] == keys@[p as int]@);
        p = p + 1;
    }
    if p < keys.len() {
        assert(kv.skip(p as int)[0] == keys@[p as int]@);
    }
    p
}


/// The increasing list of the distinct names in `names`.
pub fn sorted_unique(names: &Vec<String>) -> (r: Vec<String>)
    ensures
        strictly_sorted(views(r@)),
        forall|k: Seq<char>| #[trigger] views(r@).contains(k) <==> views(names@).contains(k),
{
    let mut out: Vec<String> = Vec::new();
    let mut i: usize = 0;
    while i < names.len()
        invariant
            i <= names@.len(),
            strictly_sorted(views(out@)),
            forall|k: Seq<char>| #[trigger]
                views(out@).contains(k) <==> views(names@.take(i as int)).contains(k),
        decreases names@.len() - i,
    {
        let ghost before = views(out@);
        let nm = names[i].clone();
        let ghost nmv = nm@;
        insert_sorted(&mut out, nm);
        let ghost pre = views(names@.take(i as int));
        assert(views(names@.take(i + 1)) =~= pre.push(nmv));
        assert forall|k: Seq<char>| #[trigger] views(out@).contains(k) <==> pre.push(nmv).contains(k) by {
            if pre.push(nmv).contains(k) && k != nmv {
                let j = choose|j: int| 0 <= j < pre.push(nmv).len() && pre.push(nmv)[j] == k;
                assert(pre[j] == k);
            }
            if pre.contains(k) {
                let j = choose|j: int| 0 <= j < pre.len() && pre[j] == k;
                assert(pre.push(nmv)[j] == k);
            }
            if k == nmv {
                assert(pre.push(nmv)[pre.len() as int] == k);
            }
        }
        i = i + 1;
    }
    assert(names@.take(names@.len() as int) =~= names@);
    out
}


/// A strictly increasing list has no repeats.
pub proof fn lemma_sorted_no_duplicates(ks: Seq<Seq<char>>)
    requires
        strictly_sorted(ks),
    ensures
        ks.no_duplicates(),
{
    assert forall|i: int, j: int| 0 <= i < ks.len() && 0 <= j < ks.len() && i != j implies ks[i] != ks[j] by {
        if i < j {
            lemma_lex_irreflexive(ks[i]);
        } else {
            lemma_lex_irreflexive(ks[j]);
        }
    }
}

} // verus!

verus! {

/// Whether `s` is in order of `key`: no item's key comes before the key
/// of an item ahead of it.
pub open spec fn sorted_by<T>(s: Seq<T>, key: spec_fn(T) -> Seq<char>) -> bool {
    forall|i: int, j: int|
        0 <= i < j < s.len() ==> !lex_lt(key(#[trigger] s[j]), key(#[trigger] s[i]))
}

/// Every key before `ins_pos` does not come after `k`, and the key at
/// `ins_pos`, if any, comes after `k`.
proof fn lemma_ins_pos_spec(keys: Seq<Seq<char>>, k: Seq<char>)
    ensures
        forall|i: int| 0 <= i < ins_pos(keys, k) ==> !lex_lt(k, #[trigger] keys[i]),
        ins_pos(keys, k) < keys.len() ==> lex_lt(k, keys[ins_pos(keys, k)]),
    decreases keys.len(),
{
    lemma_ins_pos_bounds(keys, k);
    if keys.len() > 0 && !lex_lt(k, keys[0]) {
        let rest = keys.drop_first();
        lemma_ins_pos_spec(rest, k);
        assert forall|i: int| 0 <= i < ins_pos(keys, k) implies !lex_lt(k, #[trigger] keys[i]) by {
            if i > 0 {
                assert(keys[i] == rest[i - 1]);
            }
        }
        lemma_ins_pos_bounds(rest, k);
        assert(ins_pos(keys, k) == 1 + ins_pos(rest, k));
        if ins_pos(keys, k) < keys.len() {
            assert(keys[1 + ins_pos(rest, k)] == rest[ins_pos(rest, k)]);
        }
    }
}

/// Inserting at `ins_pos` keeps a list in order.
proof fn lemma_insert_keeps_sorted<T>(acc: Seq<T>, x: T, key: spec_fn(T) -> Seq<char>)
    requires
        sorted_by(acc, key),
    ensures
        sorted_by(acc.insert(ins_pos(acc.map_values(key), key(x)), x), key),
{
    let keys = acc.map_values(key);
    let k = key(x);
    let p = ins_pos(keys, k);
    lemma_ins_pos_bounds(keys, k);
    lemma_ins_pos_spec(keys, k);
    let r = acc.insert(p, x);
    assert forall|i: int| p <= i < acc.len() implies !lex_lt(key(#[trigger] acc[i]), k) by {
        assert(keys[p] == key(acc[p]));
        if lex_lt(key(acc[i]), k) {
            lemma_lex_transitive(key(acc[i]), k, key(acc[p]));
            if i == p {
                lemma_lex_irreflexive(key(acc[p]));
            }
        }
    }
    assert forall|i: int, j: int| 0 <= i < j < r.len() implies !lex_lt(
        key(#[trigger] r[j]),
        key(#[trigger] r[i]),
    ) by {
        if j < p {
            assert(r[i] == acc[i] && r[j] == acc[j]);
        } else if j == p {
            assert(r[i] == acc[i]);
            assert(keys[i] == key(acc[i]));
        } else if i < p {
            assert(r[i] == acc[i] && r[j] == acc[j - 1]);
            assert(keys[i] == key(acc[i]));
            assert(!lex_lt(key(acc[j - 1]), k));
            if lex_lt(key(acc[j - 1]), key(acc[i])) {
                lemma_lex_total(k, key(acc[i]));
                if k == key(acc[i]) {
                } else {
                    lemma_lex_transitive(key(acc[j - 1]), key(acc[i]), k);
                }
            }
        } else if i == p {
            assert(r[j] == acc[j - 1]);
        } else {
            assert(r[i] == acc[i - 1] && r[j] == acc[j - 1]);
        }
    }
}

proof fn lemma_stable_fold<T>(acc: Seq<T>, rest: Seq<T>, key: spec_fn(T) -> Seq<char>)
    requires
        sorted_by(acc, key),
    ensures
        sorted_by(stable_fold(acc, rest, key), key),
        stable_fold(acc, rest, key).to_multiset() =~= acc.to_multiset().add(rest.to_multiset()),
    decreases rest.len(),
{
    broadcast use vstd::multiset::group_multiset_axioms;
    broadcast use vstd::seq_lib::group_to_multiset_ensures;

    if rest.len() == 0 {
        assert(rest.to_multiset() =~= Multiset::<T>::empty());
    } else {
        let x = rest[0];
        let p = ins_pos(acc.map_values(key), key(x));
        lemma_ins_pos_bounds(acc.map_values(key), key(x));
        lemma_insert_keeps_sorted(acc, x, key);
        let acc2 = acc.insert(p, x);
        vstd::seq_lib::to_multiset_insert(acc, p, x);
        assert(rest.remove(0) =~= rest.drop_first());
        assert(rest.drop_first().to_multiset() =~= rest.to_multiset().remove(x));
        assert(rest.contains(x)) by {
            assert(rest[0] == x);
        }
        lemma_stable_fold(acc2, rest.drop_first(), key);
    }
}

/// A stable sort puts its items in order of the key and keeps every item,
/// as often as it occurs.
pub proof fn law_stable_sort_orders_and_keeps<T>(s: Seq<T>, key: spec_fn(T) -> Seq<char>)
    ensures
        sorted_by(stable_sort(s, key), key),
        stable_sort(s, key).to_multiset() == s.to_multiset(),
{
    broadcast use vstd::multiset::group_multiset_axioms;
    broadcast use vstd::seq_lib::group_to_multiset_ensures;

    lemma_stable_fold(Seq::empty(), s, key);
    assert(Seq::<T>::empty().to_multiset() =~= Multiset::<T>::empty());
    assert(stable_sort(s, key).to_multiset() =~= s.to_multiset());
}

} // verus!
