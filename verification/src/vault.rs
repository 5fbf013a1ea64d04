//! The secrets vault: values of secret variables, keyed by
//! `<envName>/<varName>`.
use vstd::prelude::*;
use crate::order::{insert_sorted, lemma_sorted_no_duplicates, strictly_sorted};
use crate::model::opt_str;
use crate::strmap::{StrMap, lemma_lookup_some, spec_lookup};
use crate::text::{chars_of, extend_chars, extend_str, slice_chars, spec_starts_with, starts_with, string_from, views};
use age::secrecy::SecretString;

verus! {

/// Decrypted vault contents.
#[derive(Debug)]
pub struct VaultData {
    /// Secret values keyed by `<envName>/<varName>`.
    pub secrets: StrMap,
}

/// The key under which the secret `name` of environment `env` is stored.
pub open spec fn spec_key(env: Seq<char>, name: Seq<char>) -> Seq<char> {
    env + seq!['/'] + name
}

/// `env/`: the common beginning of the keys of one environment.
pub open spec fn env_prefix(env: Seq<char>) -> Seq<char> {
    env + seq!['/']
}

/// `m` without the keys that begin with `env/`.
pub open spec fn without_env(m: Map<Seq<char>, Seq<char>>, env: Seq<char>) -> Map<
    Seq<char>,
    Seq<char>,
> {
    Map::new(
        |k: Seq<char>| m.contains_key(k) && !spec_starts_with(k, env_prefix(env)),
        |k: Seq<char>| m[k],
    )
}

impl VaultData {
    /// An empty vault.
    pub fn new() -> (d: VaultData)
        ensures
            forall|k: Seq<char>| d.secrets.lookup(k) is None,
    {
        VaultData { secrets: StrMap::new() }
    }
}

/// The characters of `env/`.
fn prefix_chars(env: &str) -> (v: Vec<char>)
    ensures
        v@ == env_prefix(env@),
{
    let mut v = chars_of(env);
    v.push('/');
    v
}

/// The key under which the secret `name` of environment `env` is stored.
pub fn key(env: &str, name: &str) -> (k: String)
    ensures
        k@ == spec_key(env@, name@),
{
    let mut v = prefix_chars(env);
    extend_str(&mut v, name);
    string_from(v.as_slice())
}

/// The stored value of secret `name` of environment `env`.
pub fn get_from(data: &VaultData, env: &str, name: &str) -> (r: Option<String>)
    ensures
        match r {
            Some(v) => data.secrets.lookup(spec_key(env@, name@)) == Some(v@),
            None => data.secrets.lookup(spec_key(env@, name@)) is None,
        },
        opt_str(r) == data.secrets.as_map().get(spec_key(env@, name@)),
{
    let k = key(env, name);
    data.secrets.get(&k)
}

/// Stores `value` as secret `name` of environment `env`.
pub fn set_in(data: &mut VaultData, env: &str, name: &str, value: &str)
    ensures
        forall|q: Seq<char>| #[trigger]
            final(data).secrets.lookup(q) == if q == spec_key(env@, name@) {
                Some(value@)
            } else {
                old(data).secrets.lookup(q)
            },
        final(data).secrets.as_map() == old(data).secrets.as_map().insert(
            spec_key(env@, name@),
            value@,
        ),
{
    let k = key(env, name);
    let v = value.to_owned();
    data.secrets.insert(k, v);
    assert(data.secrets.as_map() =~= old(data).secrets.as_map().insert(
        spec_key(env@, name@),
        value@,
    ));
}

/// Removes secret `name` of environment `env`.
pub fn delete_in(data: &mut VaultData, env: &str, name: &str)
    ensures
        forall|q: Seq<char>| #[trigger]
            final(data).secrets.lookup(q) == if q == spec_key(env@, name@) {
                None
            } else {
                old(data).secrets.lookup(q)
            },
        final(data).secrets.as_map() == old(data).secrets.as_map().remove(spec_key(env@, name@)),
{
    let k = key(env, name);
    data.secrets.remove(&k);
    assert(data.secrets.as_map() =~= old(data).secrets.as_map().remove(spec_key(env@, name@)));
}

/// Removes every secret of environment `env`: every key that begins with
/// `env/`.
pub fn delete_env_in(data: &mut VaultData, env: &str)
    ensures
        forall|q: Seq<char>| #[trigger]
            final(data).secrets.lookup(q) == if spec_starts_with(q, env_prefix(env@)) {
                None
            } else {
                old(data).secrets.lookup(q)
            },
        final(data).secrets.as_map() == without_env(old(data).secrets.as_map(), env@),
{
    let p = prefix_chars(env);
    let ghost old_entries = data.secrets.entries@;
    let mut kept: Vec<(String, String)> = Vec::new();
    let mut i: usize = 0;
    while i < data.secrets.entries.len()
        invariant
            i <= data.secrets.entries@.len(),
            data.secrets.entries@ == old_entries,
            p@ == env_prefix(env@),
            forall|q: Seq<char>| #[trigger]
                spec_lookup(kept@, q) == if spec_starts_with(q, p@) {
                    None
                } else {
                    spec_lookup(old_entries.take(i as int), q)
                },
        decreases data.secrets.entries@.len() - i,
    {
        let ghost before = kept@;
        let e0 = data.secrets.entries[i].0.clone();
        let e1 = data.secrets.entries[i].1.clone();
        let kc = chars_of(e0.as_str());
        let drop = starts_with(kc.as_slice(), p.as_slice());
        if !drop {
            kept.push((e0, e1));
        }
        assert(old_entries.take(i + 1).drop_last() == old_entries.take(i as int));
        assert forall|q: Seq<char>| #[trigger]
            spec_lookup(kept@, q) == if spec_starts_with(q, p@) {
                None
            } else {
                spec_lookup(old_entries.take(i + 1), q)
            } by {
            let tk = old_entries.take(i + 1);
            assert(tk.last() == old_entries[i as int]);
            assert(e0@ == old_entries[i as int].0@);
            assert(e1@ == old_entries[i as int].1@);
            assert(drop == spec_starts_with(e0@, p@));
            assert(spec_lookup(tk, q) == if tk.last().0@ == q {
                Some(tk.last().1@)
            } else {
                spec_lookup(tk.drop_last(), q)
            });
            assert(spec_lookup(before, q) == if spec_starts_with(q, p@) {
                None
            } else {
                spec_lookup(old_entries.take(i as int), q)
            });
            if q == e0@ {
                assert(spec_starts_with(q, p@) == drop);
            }
            if !drop {
                assert(kept@.drop_last() == before);
                assert(kept@.last() == (e0, e1));
            } else {
                assert(kept@ == before);
            }
        }
        i = i + 1;
    }
    assert(old_entries.take(old_entries.len() as int) == old_entries);
    data.secrets.entries = kept;
    assert(data.secrets.as_map() =~= without_env(old(data).secrets.as_map(), env@));
}

} // verus!

verus! {

/// Moves the value of key `k` to the key made of `np` and what follows
/// `op` in `k`.
pub open spec fn rename_step(
    m: Map<Seq<char>, Seq<char>>,
    k: Seq<char>,
    op: Seq<char>,
    np: Seq<char>,
) -> Map<Seq<char>, Seq<char>> {
    if m.contains_key(k) {
        m.remove(k).insert(np + k.skip(op.len() as int), m[k])
    } else {
        m
    }
}

/// The steps of `rename_step` for the keys `ks`, in order.
pub open spec fn rename_fold(
    m: Map<Seq<char>, Seq<char>>,
    ks: Seq<Seq<char>>,
    op: Seq<char>,
    np: Seq<char>,
) -> Map<Seq<char>, Seq<char>>
    decreases ks.len(),
{
    if ks.len() == 0 {
        m
    } else {
        rename_step(rename_fold(m, ks.drop_last(), op, np), ks.last(), op, np)
    }
}

/// `ks` lists, in increasing order, the keys of `m` that begin with `p`.
pub open spec fn sorted_keys_with_prefix(
    ks: Seq<Seq<char>>,
    m: Map<Seq<char>, Seq<char>>,
    p: Seq<char>,
) -> bool {
    &&& strictly_sorted(ks)
    &&& forall|k: Seq<char>| #[trigger]
        ks.contains(k) <==> (m.contains_key(k) && spec_starts_with(k, p))
}

/// The keys of `m` that begin with `p`, in increasing order.
fn sorted_prefix_keys(m: &StrMap, p: &[char]) -> (ks: Vec<String>)
    ensures
        sorted_keys_with_prefix(views(ks@), m.as_map(), p@),
{
    let mut ks: Vec<String> = Vec::new();
    let mut i: usize = 0;
    while i < m.entries.len()
        invariant
            i <= m.entries@.len(),
            strictly_sorted(views(ks@)),
            forall|k: Seq<char>| #[trigger]
                views(ks@).contains(k) <==> ((exists|j: int|
                    0 <= j < i && (#[trigger] m.entries@[j]).0@ == k) && spec_starts_with(k, p@)),
        decreases m.entries@.len() - i,
    {
        let kc = chars_of(m.entries[i].0.as_str());
        if starts_with(kc.as_slice(), p) {
            insert_sorted(&mut ks, m.entries[i].0.clone());
        }
        assert forall|k: Seq<char>| #[trigger]
            views(ks@).contains(k) <==> ((exists|j: int|
                0 <= j < i + 1 && (#[trigger] m.entries@[j]).0@ == k) && spec_starts_with(k, p@)) by {
            if k == m.entries@[i as int].0@ {
                assert(m.entries@[i as int].0@ == k);
            }
        }
        i = i + 1;
    }
    assert forall|k: Seq<char>| #[trigger]
        views(ks@).contains(k) <==> (m.as_map().contains_key(k) && spec_starts_with(k, p@)) by {
        lemma_lookup_some(m.entries@, k);
    }
    ks
}

/// Moves every secret of environment `old_env` to environment `new_env`:
/// each key `old_env/<rest>` becomes `new_env/<rest>`. The keys are
/// handled one at a time in increasing order, so where a moved key meets
/// an existing one the later move wins.
pub fn rename_env_in(data: &mut VaultData, old_env: &str, new_env: &str)
    ensures
        exists|ks: Seq<Seq<char>>|
            sorted_keys_with_prefix(ks, old(data).secrets.as_map(), env_prefix(old_env@))
                && final(data).secrets.as_map() == rename_fold(
                old(data).secrets.as_map(),
                ks,
                env_prefix(old_env@),
                env_prefix(new_env@),
            ),
        no_key_with_prefix(old(data).secrets.as_map(), env_prefix(new_env@))
            ==> final(data).secrets.as_map() == moved_env(
            old(data).secrets.as_map(),
            env_prefix(old_env@),
            env_prefix(new_env@),
        ),
{
    let op = prefix_chars(old_env);
    let np = prefix_chars(new_env);
    let ks = sorted_prefix_keys(&data.secrets, op.as_slice());
    let ghost m0 = data.secrets.as_map();
    let ghost kv = views(ks@);
    let mut idx: usize = 0;
    assert(kv.take(0) == Seq::<Seq<char>>::empty());
    while idx < ks.len()
        invariant
            idx <= ks@.len(),
            kv == views(ks@),
            op@ == env_prefix(old_env@),
            np@ == env_prefix(new_env@),
            sorted_keys_with_prefix(kv, m0, op@),
            data.secrets.as_map() == rename_fold(m0, kv.take(idx as int), op@, np@),
        decreases ks@.len() - idx,
    {
        let ghost prev = data.secrets.as_map();
        let k = &ks[idx];
        assert(kv.take(idx + 1).drop_last() == kv.take(idx as int));
        assert(kv.take(idx + 1).last() == k@);
        match data.secrets.get(k) {
            Some(v) => {
                assert(kv.contains(k@)) by {
                    assert(kv[idx as int] == k@);
                }
                let kc = chars_of(k.as_str());
                let suffix = slice_chars(kc.as_slice(), op.len(), kc.len());
                let mut nk = np.clone();
                extend_chars(&mut nk, suffix.as_slice());
                let nks = string_from(nk.as_slice());
                assert(nks@ == np@ + k@.skip(op@.len() as int));
                data.secrets.remove(k);
                data.secrets.insert(nks, v);
                assert(data.secrets.as_map() =~= rename_step(prev, k@, op@, np@));
            },
            None => {
                assert(data.secrets.as_map() =~= rename_step(prev, k@, op@, np@));
            },
        }
        idx = idx + 1;
    }
    assert(kv.take(kv.len() as int) == kv);
    proof {
        if no_key_with_prefix(m0, np@) {
            law_rename_moves_secrets(m0, kv, old_env@, new_env@);
        }
    }
}

} // verus!

verus! {

/// No key of `m` begins with `p`.
pub open spec fn no_key_with_prefix(m: Map<Seq<char>, Seq<char>>, p: Seq<char>) -> bool {
    forall|k: Seq<char>| #[trigger] m.contains_key(k) ==> !spec_starts_with(k, p)
}

/// `m` with its `op` keys moved under `np`: no key that begins with `op`
/// is left, each key `np + s` holds what `op + s` held, and every other key
/// keeps its value.
pub open spec fn moved_env(
    m: Map<Seq<char>, Seq<char>>,
    op: Seq<char>,
    np: Seq<char>,
) -> Map<Seq<char>, Seq<char>> {
    Map::new(
        |q: Seq<char>|
            if spec_starts_with(q, np) {
                m.contains_key(op + q.skip(np.len() as int))
            } else {
                !spec_starts_with(q, op) && m.contains_key(q)
            },
        |q: Seq<char>|
            if spec_starts_with(q, np) {
                m[op + q.skip(np.len() as int)]
            } else {
                m[q]
            },
    )
}

/// `m` once the keys `done` have been moved from `op` to `np`.
spec fn moved_so_far(
    m: Map<Seq<char>, Seq<char>>,
    done: Seq<Seq<char>>,
    op: Seq<char>,
    np: Seq<char>,
) -> Map<Seq<char>, Seq<char>> {
    Map::new(
        |q: Seq<char>|
            if spec_starts_with(q, np) {
                done.contains(op + q.skip(np.len() as int))
            } else {
                !done.contains(q) && m.contains_key(q)
            },
        |q: Seq<char>|
            if spec_starts_with(q, np) {
                m[op + q.skip(np.len() as int)]
            } else {
                m[q]
            },
    )
}

proof fn lemma_moved_so_far(
    m: Map<Seq<char>, Seq<char>>,
    ks: Seq<Seq<char>>,
    op: Seq<char>,
    np: Seq<char>,
    i: int,
)
    requires
        sorted_keys_with_prefix(ks, m, op),
        no_key_with_prefix(m, np),
        0 <= i <= ks.len(),
    ensures
        rename_fold(m, ks.take(i), op, np) == moved_so_far(m, ks.take(i), op, np),
    decreases i,
{
    if i == 0 {
        assert(ks.take(0) =~= Seq::<Seq<char>>::empty());
        assert(rename_fold(m, ks.take(0), op, np) =~= moved_so_far(m, ks.take(0), op, np));
    } else {
        lemma_moved_so_far(m, ks, op, np, i - 1);
        let done = ks.take(i - 1);
        let cur = ks.take(i);
        let k = ks[i - 1];
        assert(cur.drop_last() =~= done);
        assert(cur.last() == k);
        assert(cur =~= done.push(k));
        assert(ks.contains(k)) by {
            assert(ks[i - 1] == k);
        }
        assert(m.contains_key(k) && spec_starts_with(k, op));
        assert(!spec_starts_with(k, np));
        lemma_sorted_no_duplicates(ks);
        assert(!done.contains(k)) by {
            if done.contains(k) {
                let j = choose|j: int| 0 <= j < done.len() && done[j] == k;
                assert(ks[j] == k);
            }
        }
        let prev = rename_fold(m, done, op, np);
        assert(prev.contains_key(k));
        assert(prev[k] == m[k]);
        let t = np + k.skip(op.len() as int);
        assert(t.take(np.len() as int) =~= np);
        assert(spec_starts_with(t, np));
        assert(t.skip(np.len() as int) =~= k.skip(op.len() as int));
        assert(op + k.skip(op.len() as int) =~= k) by {
            assert(k.take(op.len() as int) == op);
        }
        assert forall|x: Seq<char>| #[trigger] cur.contains(x) <==> (done.contains(x) || x == k) by {
            if cur.contains(x) {
                let j = choose|j: int| 0 <= j < cur.len() && cur[j] == x;
                if j < done.len() {
                    assert(done[j] == x);
                }
            }
            if done.contains(x) {
                let j = choose|j: int| 0 <= j < done.len() && done[j] == x;
                assert(cur[j] == x);
            }
            if x == k {
                assert(cur[i - 1] == x);
            }
        }
        let next = rename_fold(m, cur, op, np);
        let want = moved_so_far(m, cur, op, np);
        assert(next == prev.remove(k).insert(t, m[k]));
        assert forall|q: Seq<char>| #[trigger] next.contains_key(q) == want.contains_key(q) by {
            if spec_starts_with(q, np) && q != t {
                if op + q.skip(np.len() as int) == k {
                    assert(q =~= np + q.skip(np.len() as int)) by {
                        assert(q.take(np.len() as int) == np);
                    }
                    assert(q.skip(np.len() as int) =~= (op + q.skip(np.len() as int)).skip(
                        op.len() as int,
                    ));
                }
            }
        }
        assert forall|q: Seq<char>| next.contains_key(q) implies #[trigger] next[q] == want[q] by {
            if q != t {
                assert(q != k);
            }
        }
        assert(next =~= want);
    }
}

/// When no key begins with `new_env/`, renaming `old_env` to `new_env`
/// moves each secret `old_env/<rest>` to `new_env/<rest>` with its value,
/// leaves no key that begins with `old_env/`, and keeps every other key.
pub proof fn law_rename_moves_secrets(
    m: Map<Seq<char>, Seq<char>>,
    ks: Seq<Seq<char>>,
    old_env: Seq<char>,
    new_env: Seq<char>,
)
    requires
        sorted_keys_with_prefix(ks, m, env_prefix(old_env)),
        no_key_with_prefix(m, env_prefix(new_env)),
    ensures
        rename_fold(m, ks, env_prefix(old_env), env_prefix(new_env)) == moved_env(
            m,
            env_prefix(old_env),
            env_prefix(new_env),
        ),
        forall|name: Seq<char>| #[trigger]
            rename_fold(m, ks, env_prefix(old_env), env_prefix(new_env)).get(
                spec_key(new_env, name),
            ) == m.get(spec_key(old_env, name)),
{
    let op = env_prefix(old_env);
    let np = env_prefix(new_env);
    lemma_moved_so_far(m, ks, op, np, ks.len() as int);
    assert(ks.take(ks.len() as int) =~= ks);
    let r = rename_fold(m, ks, op, np);
    let want = moved_env(m, op, np);
    assert forall|q: Seq<char>| #[trigger] r.contains_key(q) == want.contains_key(q) by {
        if spec_starts_with(q, np) {
            let src = op + q.skip(np.len() as int);
            assert(src.take(op.len() as int) =~= op);
            assert(ks.contains(src) <==> m.contains_key(src));
        }
    }
    assert(r =~= want);
    assert forall|name: Seq<char>| #[trigger] r.get(spec_key(new_env, name)) == m.get(
        spec_key(old_env, name),
    ) by {
        let q = spec_key(new_env, name);
        assert(q.take(np.len() as int) =~= np);
        assert(q.skip(np.len() as int) =~= name);
        assert(op + name =~= spec_key(old_env, name));
    }
}

/// `m` with its `op` keys moved under `np`, over what was there: no key
/// that begins with `op` is left unless it begins with `np` too, each key
/// `np + s` holds what `op + s` held where that was a key, and every other
/// key keeps its value.
pub open spec fn renamed_env(
    m: Map<Seq<char>, Seq<char>>,
    op: Seq<char>,
    np: Seq<char>,
) -> Map<Seq<char>, Seq<char>> {
    Map::new(
        |q: Seq<char>|
            if spec_starts_with(q, np) {
                m.contains_key(op + q.skip(np.len() as int)) || m.contains_key(q)
            } else {
                !spec_starts_with(q, op) && m.contains_key(q)
            },
        |q: Seq<char>|
            if spec_starts_with(q, np) && m.contains_key(op + q.skip(np.len() as int)) {
                m[op + q.skip(np.len() as int)]
            } else {
                m[q]
            },
    )
}

/// `m` once the keys `done` have been moved from `op` to `np`, over what
/// was there.
spec fn renamed_so_far(
    m: Map<Seq<char>, Seq<char>>,
    done: Seq<Seq<char>>,
    op: Seq<char>,
    np: Seq<char>,
) -> Map<Seq<char>, Seq<char>> {
    Map::new(
        |q: Seq<char>|
            if spec_starts_with(q, np) {
                done.contains(op + q.skip(np.len() as int)) || m.contains_key(q)
            } else {
                !done.contains(q) && m.contains_key(q)
            },
        |q: Seq<char>|
            if spec_starts_with(q, np) && done.contains(op + q.skip(np.len() as int)) {
                m[op + q.skip(np.len() as int)]
            } else {
                m[q]
            },
    )
}

/// No text begins with both `op` and `np`.
pub open spec fn prefixes_apart(op: Seq<char>, np: Seq<char>) -> bool {
    forall|q: Seq<char>| !(#[trigger] spec_starts_with(q, op) && spec_starts_with(q, np))
}

proof fn lemma_renamed_so_far(
    m: Map<Seq<char>, Seq<char>>,
    ks: Seq<Seq<char>>,
    op: Seq<char>,
    np: Seq<char>,
    i: int,
)
    requires
        sorted_keys_with_prefix(ks, m, op),
        prefixes_apart(op, np),
        0 <= i <= ks.len(),
    ensures
        rename_fold(m, ks.take(i), op, np) == renamed_so_far(m, ks.take(i), op, np),
    decreases i,
{
    if i == 0 {
        assert(ks.take(0) =~= Seq::<Seq<char>>::empty());
        assert(rename_fold(m, ks.take(0), op, np) =~= renamed_so_far(m, ks.take(0), op, np));
    } else {
        lemma_renamed_so_far(m, ks, op, np, i - 1);
        let done = ks.take(i - 1);
        let cur = ks.take(i);
        let k = ks[i - 1];
        assert(cur.drop_last() =~= done);
        assert(cur.last() == k);
        assert(ks.contains(k)) by {
            assert(ks[i - 1] == k);
        }
        assert(m.contains_key(k) && spec_starts_with(k, op));
        assert(!spec_starts_with(k, np));
        lemma_sorted_no_duplicates(ks);
        assert(!done.contains(k)) by {
            if done.contains(k) {
                let j = choose|j: int| 0 <= j < done.len() && done[j] == k;
                assert(ks[j] == k);
            }
        }
        let prev = rename_fold(m, done, op, np);
        assert(prev.contains_key(k));
        assert(prev[k] == m[k]);
        let t = np + k.skip(op.len() as int);
        assert(t.take(np.len() as int) =~= np);
        assert(spec_starts_with(t, np));
        assert(t.skip(np.len() as int) =~= k.skip(op.len() as int));
        assert(op + k.skip(op.len() as int) =~= k) by {
            assert(k.take(op.len() as int) == op);
        }
        assert forall|x: Seq<char>| #[trigger] cur.contains(x) <==> (done.contains(x) || x == k) by {
            if cur.contains(x) {
                let j = choose|j: int| 0 <= j < cur.len() && cur[j] == x;
                if j < done.len() {
                    assert(done[j] == x);
                }
            }
            if done.contains(x) {
                let j = choose|j: int| 0 <= j < done.len() && done[j] == x;
                assert(cur[j] == x);
            }
            if x == k {
                assert(cur[i - 1] == x);
            }
        }
        let next = rename_fold(m, cur, op, np);
        let want = renamed_so_far(m, cur, op, np);
        assert(next == prev.remove(k).insert(t, m[k]));
        assert forall|q: Seq<char>| #[trigger] next.contains_key(q) == want.contains_key(q) by {
            if spec_starts_with(q, np) && q != t {
                if op + q.skip(np.len() as int) == k {
                    assert(q =~= np + q.skip(np.len() as int)) by {
                        assert(q.take(np.len() as int) == np);
                    }
                    assert(q.skip(np.len() as int) =~= (op + q.skip(np.len() as int)).skip(
                        op.len() as int,
                    ));
                }
            }
        }
        assert forall|q: Seq<char>| next.contains_key(q) implies #[trigger] next[q] == want[q] by {
            if q != t {
                assert(q != k);
                if spec_starts_with(q, np) && op + q.skip(np.len() as int) == k {
                    assert(q =~= np + q.skip(np.len() as int)) by {
                        assert(q.take(np.len() as int) == np);
                    }
                    assert(q.skip(np.len() as int) =~= (op + q.skip(np.len() as int)).skip(
                        op.len() as int,
                    ));
                }
            }
        }
        assert(next =~= want);
    }
}

proof fn lemma_rename_onto_itself(m: Map<Seq<char>, Seq<char>>, ks: Seq<Seq<char>>, p: Seq<char>)
    requires
        forall|i: int| 0 <= i < ks.len() ==> spec_starts_with(#[trigger] ks[i], p),
    ensures
        rename_fold(m, ks, p, p) == m,
    decreases ks.len(),
{
    if ks.len() > 0 {
        let d = ks.drop_last();
        assert forall|i: int| 0 <= i < d.len() implies spec_starts_with(#[trigger] d[i], p) by {
            assert(d[i] == ks[i]);
        }
        lemma_rename_onto_itself(m, d, p);
        let k = ks.last();
        assert(spec_starts_with(ks[ks.len() - 1], p));
        assert(p + k.skip(p.len() as int) =~= k) by {
            assert(k.take(p.len() as int) == p);
        }
        if m.contains_key(k) {
            assert(m.remove(k).insert(k, m[k]) =~= m);
        }
    }
}

proof fn lemma_env_prefixes_apart(a: Seq<char>, b: Seq<char>)
    requires
        a != b,
        forall|i: int| 0 <= i < a.len() ==> a[i] != '/',
        forall|i: int| 0 <= i < b.len() ==> b[i] != '/',
    ensures
        prefixes_apart(env_prefix(a), env_prefix(b)),
{
    assert forall|q: Seq<char>| !(#[trigger] spec_starts_with(q, env_prefix(a)) && spec_starts_with(
        q,
        env_prefix(b),
    )) by {
        if spec_starts_with(q, env_prefix(a)) && spec_starts_with(q, env_prefix(b)) {
            let pa = env_prefix(a);
            let pb = env_prefix(b);
            assert(q.take(pa.len() as int) == pa);
            assert(q.take(pb.len() as int) == pb);
            if a.len() < b.len() {
                assert(q[a.len() as int] == pa[a.len() as int]);
                assert(q[a.len() as int] == pb[a.len() as int]);
                assert(pb[a.len() as int] == b[a.len() as int]);
            } else if b.len() < a.len() {
                assert(q[b.len() as int] == pb[b.len() as int]);
                assert(q[b.len() as int] == pa[b.len() as int]);
                assert(pa[b.len() as int] == a[b.len() as int]);
            } else {
                assert forall|i: int| 0 <= i < a.len() implies a[i] == b[i] by {
                    assert(q[i] == pa[i]);
                    assert(q[i] == pb[i]);
                }
                assert(a =~= b);
            }
        }
    }
}

/// Renaming an environment whose name and new name hold no `/`, whether
/// or not keys under the new name exist: every secret `old_env/<rest>` is
/// moved to `new_env/<rest>` over any value that was there, every other
/// key keeps its value, and, for a new name, no key under the old name is
/// left.
pub proof fn law_rename_over_existing(
    m: Map<Seq<char>, Seq<char>>,
    ks: Seq<Seq<char>>,
    old_env: Seq<char>,
    new_env: Seq<char>,
)
    requires
        sorted_keys_with_prefix(ks, m, env_prefix(old_env)),
        forall|i: int| 0 <= i < old_env.len() ==> old_env[i] != '/',
        forall|i: int| 0 <= i < new_env.len() ==> new_env[i] != '/',
    ensures
        rename_fold(m, ks, env_prefix(old_env), env_prefix(new_env)) == renamed_env(
            m,
            env_prefix(old_env),
            env_prefix(new_env),
        ),
        old_env != new_env ==> no_key_with_prefix(
            rename_fold(m, ks, env_prefix(old_env), env_prefix(new_env)),
            env_prefix(old_env),
        ),
{
    let op = env_prefix(old_env);
    let np = env_prefix(new_env);
    let r = rename_fold(m, ks, op, np);
    let want = renamed_env(m, op, np);
    if old_env == new_env {
        assert forall|i: int| 0 <= i < ks.len() implies spec_starts_with(#[trigger] ks[i], op) by {
            assert(ks.contains(ks[i]));
        }
        lemma_rename_onto_itself(m, ks, op);
        assert forall|q: Seq<char>| spec_starts_with(q, np) implies op + q.skip(np.len() as int) == q by {
            assert(q.take(np.len() as int) == np);
            assert(op + q.skip(np.len() as int) =~= q);
        }
        assert(r =~= want);
    } else {
        lemma_env_prefixes_apart(old_env, new_env);
        lemma_renamed_so_far(m, ks, op, np, ks.len() as int);
        assert(ks.take(ks.len() as int) =~= ks);
        assert forall|q: Seq<char>| #[trigger] r.contains_key(q) == want.contains_key(q) by {
            if spec_starts_with(q, np) {
                let src = op + q.skip(np.len() as int);
                assert(src.take(op.len() as int) =~= op);
                assert(ks.contains(src) <==> m.contains_key(src));
            } else if spec_starts_with(q, op) {
                assert(ks.contains(q) <==> m.contains_key(q));
            }
        }
        assert forall|q: Seq<char>| r.contains_key(q) implies #[trigger] r[q] == want[q] by {
            if spec_starts_with(q, np) {
                let src = op + q.skip(np.len() as int);
                assert(src.take(op.len() as int) =~= op);
                assert(ks.contains(src) <==> m.contains_key(src));
            }
        }
        assert(r =~= want);
        assert forall|k: Seq<char>| #[trigger] r.contains_key(k) implies !spec_starts_with(k, op) by {
            if spec_starts_with(k, op) {
                assert(!spec_starts_with(k, np));
                assert(ks.contains(k) <==> m.contains_key(k));
            }
        }
    }
}

} // verus!

verus! {

/// A read gives back what the last write stored under the same key, and a
/// write leaves every other key as it was.
pub proof fn law_read_after_write(
    m: Map<Seq<char>, Seq<char>>,
    env: Seq<char>,
    name: Seq<char>,
    value: Seq<char>,
    other_env: Seq<char>,
    other_name: Seq<char>,
)
    ensures
        m.insert(spec_key(env, name), value).get(spec_key(env, name)) == Some(value),
        spec_key(other_env, other_name) != spec_key(env, name) ==> m.insert(
            spec_key(env, name),
            value,
        ).get(spec_key(other_env, other_name)) == m.get(spec_key(other_env, other_name)),
{
}

/// After a delete, a read of the same secret finds nothing; writing a
/// secret that was absent and then deleting it gives back the vault as it
/// was.
pub proof fn law_delete_undoes_write(
    m: Map<Seq<char>, Seq<char>>,
    env: Seq<char>,
    name: Seq<char>,
    value: Seq<char>,
)
    ensures
        m.remove(spec_key(env, name)).get(spec_key(env, name)) is None,
        !m.contains_key(spec_key(env, name)) ==> m.insert(spec_key(env, name), value).remove(
            spec_key(env, name),
        ) == m,
{
    assert(!m.contains_key(spec_key(env, name)) ==> m.insert(spec_key(env, name), value).remove(
        spec_key(env, name),
    ) =~= m);
}

/// Deleting an environment leaves none of its secrets, and keeps every key
/// that does not begin with `env/`.
pub proof fn law_delete_env_purges(m: Map<Seq<char>, Seq<char>>, env: Seq<char>, name: Seq<char>, q: Seq<char>)
    ensures
        without_env(m, env).get(spec_key(env, name)) is None,
        !spec_starts_with(q, env_prefix(env)) ==> without_env(m, env).get(q) == m.get(q),
{
    assert(spec_key(env, name).take(env_prefix(env).len() as int) =~= env_prefix(env));
}

} // verus!

verus! {

/// The plaintext that an age file opens to with a passphrase, where it
/// opens: age authenticates the payload, so it is a function of the file
/// and the passphrase.
pub uninterp spec fn spec_age_plaintext(file: Seq<u8>, passphrase: Seq<char>) -> Seq<u8>;

/// Where opening an age file failed, with the error's text.
#[derive(Debug)]
pub enum AgeOpenFailure {
    /// The header could not be read.
    Header(String),
    /// No key opened the file: a wrong passphrase, or a damaged file.
    Key(String),
    /// The payload could not be read to its end.
    Read(String),
}

/// Where writing an age file failed, with the error's text.
#[derive(Debug)]
pub enum AgeWriteFailure {
    /// The header could not be written.
    Init(String),
    /// The payload could not be written or finished.
    Write(String),
}

/// Opens an age file with a passphrase and reads its plaintext, as
/// `age::Decryptor::new`, `age::scrypt::Identity::new`,
/// `age::Decryptor::decrypt` and `std::io::Read::read_to_end` do in turn.
/// What comes back is the file's plaintext for that passphrase. Whether it
/// opens at all depends on the passphrase and on a work limit that age
/// derives from this machine's speed, so no outcome is promised.
#[verifier::external_body]
fn age_open(file: &[u8], passphrase: &str) -> (r: Result<Vec<u8>, AgeOpenFailure>)
    ensures
        r matches Ok(p) ==> p@ == spec_age_plaintext(file@, passphrase@),
{
    let dec = match age::Decryptor::new(file) {
        Ok(d) => d,
        Err(e) => return Err(AgeOpenFailure::Header(e.to_string())),
    };
    let id = age::scrypt::Identity::new(SecretString::from(passphrase.to_string()));
    let mut reader = match dec.decrypt(std::iter::once(&id as &dyn age::Identity)) {
        Ok(r) => r,
        Err(e) => return Err(AgeOpenFailure::Key(e.to_string())),
    };
    let mut out = Vec::new();
    match std::io::Read::read_to_end(&mut reader, &mut out) {
        Ok(_) => Ok(out),
        Err(e) => Err(AgeOpenFailure::Read(e.to_string())),
    }
}

/// Encrypts bytes to a passphrase in the age format, as
/// `age::Encryptor::with_user_passphrase`, `age::Encryptor::wrap_output`,
/// `std::io::Write::write_all` and `age::stream::StreamWriter::finish` do
/// in turn. The file differs from call to call (a fresh salt and nonce);
/// what is claimed is only what age is for: the file opens, with the same
/// passphrase, to the bytes written.
#[verifier::external_body]
fn age_seal(plaintext: &[u8], passphrase: &str) -> (r: Result<Vec<u8>, AgeWriteFailure>)
    ensures
        r matches Ok(c) ==> spec_age_plaintext(c@, passphrase@) == plaintext@,
{
    let enc = age::Encryptor::with_user_passphrase(SecretString::from(passphrase.to_string()));
    let mut buf = Vec::new();
    let mut w = match enc.wrap_output(&mut buf) {
        Ok(w) => w,
        Err(e) => return Err(AgeWriteFailure::Init(e.to_string())),
    };
    if let Err(e) = std::io::Write::write_all(&mut w, plaintext) {
        return Err(AgeWriteFailure::Write(e.to_string()));
    }
    match w.finish() {
        Ok(_) => Ok(buf),
        Err(e) => Err(AgeWriteFailure::Write(e.to_string())),
    }
}

/// The message for a vault that could not be opened.
pub open spec fn spec_open_message(f: AgeOpenFailure) -> Seq<char> {
    match f {
        AgeOpenFailure::Header(d) => "decrypt init: "@ + d@,
        AgeOpenFailure::Key(d) => "wrong password or corrupt vault: "@ + d@,
        AgeOpenFailure::Read(d) => d@,
    }
}

/// The message for a vault that could not be opened: the header error
/// after `decrypt init: `, a key error after `wrong password or corrupt
/// vault: `, a read error as it is.
pub fn open_message(f: AgeOpenFailure) -> (r: String)
    ensures
        r@ == spec_open_message(f),
{
    match f {
        AgeOpenFailure::Header(d) => {
            let mut v = chars_of("decrypt init: ");
            extend_str(&mut v, d.as_str());
            string_from(v.as_slice())
        },
        AgeOpenFailure::Key(d) => {
            let mut v = chars_of("wrong password or corrupt vault: ");
            extend_str(&mut v, d.as_str());
            string_from(v.as_slice())
        },
        AgeOpenFailure::Read(d) => d,
    }
}

/// The message for a vault that could not be written: a header error
/// after `encrypt init: `, a write error as it is.
pub open spec fn spec_write_message(f: AgeWriteFailure) -> Seq<char> {
    match f {
        AgeWriteFailure::Init(d) => "encrypt init: "@ + d@,
        AgeWriteFailure::Write(d) => d@,
    }
}

/// The message for a vault that could not be written.
pub fn write_message(f: AgeWriteFailure) -> (r: String)
    ensures
        r@ == spec_write_message(f),
{
    match f {
        AgeWriteFailure::Init(d) => {
            let mut v = chars_of("encrypt init: ");
            extend_str(&mut v, d.as_str());
            string_from(v.as_slice())
        },
        AgeWriteFailure::Write(d) => d,
    }
}

/// What a vault file opens to with a passphrase: none for an empty
/// plaintext (an empty vault), else the serialized vault.
pub open spec fn opened_vault(file: Seq<u8>, passphrase: Seq<char>) -> Option<Seq<u8>> {
    if spec_age_plaintext(file, passphrase).len() == 0 {
        None
    } else {
        Some(spec_age_plaintext(file, passphrase))
    }
}

/// The view of optional bytes.
pub open spec fn opt_bytes(o: Option<Vec<u8>>) -> Option<Seq<u8>> {
    match o {
        Some(b) => Some(b@),
        None => None,
    }
}

/// What opening a vault gives for age's outcome: `Ok(None)` for an empty
/// plaintext (an empty vault), `Ok(Some(p))` for the plaintext `p`
/// otherwise, and the failure's message for a failure.
pub open spec fn outcome_gives(
    o: Result<Vec<u8>, AgeOpenFailure>,
    r: Result<Option<Vec<u8>>, String>,
) -> bool {
    match o {
        Ok(p) => if p@.len() == 0 {
            r matches Ok(None)
        } else {
            r matches Ok(Some(q)) && q@ == p@
        },
        Err(f) => r matches Err(e) && e@ == spec_open_message(f),
    }
}

/// The result of opening a vault, from age's outcome.
pub fn vault_from_outcome(o: Result<Vec<u8>, AgeOpenFailure>) -> (r: Result<Option<Vec<u8>>, String>)
    ensures
        outcome_gives(o, r),
{
    match o {
        Ok(p) => {
            if p.len() == 0 {
                Ok(None)
            } else {
                Ok(Some(p))
            }
        },
        Err(f) => {
            let ghost fv = f;
            let m = open_message(f);
            assert(m@ == spec_open_message(fv));
            Err(m)
        },
    }
}

/// Opens the vault file with the passphrase: what `vault_from_outcome`
/// gives for age's outcome, whose plaintext is the file's for that
/// passphrase. Whether age opens the file at all rests on age.
pub fn open_vault(file: &[u8], passphrase: &str) -> (r: Result<Option<Vec<u8>>, String>)
    ensures
        exists|o: Result<Vec<u8>, AgeOpenFailure>|
            (o matches Ok(p) ==> p@ == spec_age_plaintext(file@, passphrase@)) && #[trigger]
                outcome_gives(o, r),
        r matches Ok(x) ==> opt_bytes(x) == opened_vault(file@, passphrase@),
{
    let o = age_open(file, passphrase);
    let ghost ov = o;
    let r = vault_from_outcome(o);
    assert(outcome_gives(ov, r));
    r
}

/// What sealing a vault gives for age's outcome: the file, or the
/// failure's message.
pub open spec fn seal_gives(o: Result<Vec<u8>, AgeWriteFailure>, r: Result<Vec<u8>, String>) -> bool {
    match o {
        Ok(c) => r matches Ok(d) && d@ == c@,
        Err(f) => r matches Err(e) && e@ == spec_write_message(f),
    }
}

/// The result of sealing a vault, from age's outcome.
pub fn seal_from_outcome(o: Result<Vec<u8>, AgeWriteFailure>) -> (r: Result<Vec<u8>, String>)
    ensures
        seal_gives(o, r),
{
    match o {
        Ok(c) => Ok(c),
        Err(f) => {
            let ghost fv = f;
            let m = write_message(f);
            assert(m@ == spec_write_message(fv));
            Err(m)
        },
    }
}

/// Encrypts the serialized vault with the passphrase: what
/// `seal_from_outcome` gives for age's outcome, whose file opens with the
/// passphrase to `json`. Whether age writes the file rests on age.
pub fn seal_vault(json: &[u8], passphrase: &str) -> (r: Result<Vec<u8>, String>)
    ensures
        exists|o: Result<Vec<u8>, AgeWriteFailure>|
            (o matches Ok(c) ==> spec_age_plaintext(c@, passphrase@) == json@) && #[trigger]
                seal_gives(o, r),
        r matches Ok(c) ==> spec_age_plaintext(c@, passphrase@) == json@,
{
    let o = age_seal(json, passphrase);
    let ghost ov = o;
    let r = seal_from_outcome(o);
    assert(seal_gives(ov, r));
    r
}

/// A vault file opens to what it was sealed with: a file that
/// `seal_vault` made from `json` opens, with the same passphrase, to
/// `json`, or to the empty vault when `json` is empty.
pub proof fn law_open_gives_back_sealed(file: Seq<u8>, passphrase: Seq<char>, json: Seq<u8>)
    requires
        spec_age_plaintext(file, passphrase) == json,
    ensures
        opened_vault(file, passphrase) == if json.len() == 0 {
            None
        } else {
            Some(json)
        },
{
}

} // verus!

verus! {

/// The vault as the host holds it: locked, or unlocked with its decrypted
/// contents read lazily on first use. The passphrase itself stays with
/// the caller.
#[derive(Debug)]
pub struct VaultSession {
    pub unlocked: bool,
    /// The decrypted vault, once read.
    pub cache: Option<VaultData>,
}

impl VaultSession {
    /// A locked vault, nothing read.
    pub fn new() -> (s: VaultSession)
        ensures
            !s.unlocked,
            s.cache is None,
    {
        VaultSession { unlocked: false, cache: None }
    }

    /// Locks the vault: forgets that it was unlocked and what was read, so
    /// that the next read asks for the passphrase again.
    pub fn lock(&mut self)
        ensures
            !final(self).unlocked,
            final(self).cache is None,
    {
        self.unlocked = false;
        self.cache = None;
    }

    /// Records a passphrase that was accepted: unlocked, and nothing read
    /// yet under it.
    pub fn unlock(&mut self)
        ensures
            final(self).unlocked,
            final(self).cache is None,
    {
        self.unlocked = true;
        self.cache = None;
    }

    /// `Ok` when the vault is unlocked, else the error `vault_locked`.
    pub fn require_unlocked(&self) -> (r: Result<(), String>)
        ensures
            match r {
                Ok(()) => self.unlocked,
                Err(e) => !self.unlocked && e@ == "vault_locked"@,
            },
    {
        if self.unlocked {
            Ok(())
        } else {
            Err(String::from_str("vault_locked"))
        }
    }

    /// Whether the vault must be read before it is used: unlocked, nothing
    /// read yet. `Err(vault_locked)` when it is locked and nothing is held.
    pub fn needs_read(&self) -> (r: Result<bool, String>)
        ensures
            match r {
                Ok(b) => b == (self.cache is None) && (self.cache is None ==> self.unlocked),
                Err(e) => self.cache is None && !self.unlocked && e@ == "vault_locked"@,
            },
    {
        if self.cache.is_some() {
            return Ok(false);
        }
        if !self.unlocked {
            return Err(String::from_str("vault_locked"));
        }
        Ok(true)
    }

    /// Keeps what was read from the vault file.
    pub fn fill(&mut self, data: VaultData)
        ensures
            final(self).unlocked == old(self).unlocked,
            final(self).cache == Some(data),
    {
        self.cache = Some(data);
    }
}

} // verus!
