use vstd::prelude::*;

use crate::env::{assign, define, lookup, nearest, Scopes};

verus! {

/// `nearest` finds frame `i` when it binds `k` and no frame inside it does.
pub proof fn lemma_nearest_is<V>(fs: Scopes<V>, k: Seq<char>, i: int)
    requires
        0 <= i < fs.len(),
        fs[i].contains_key(k),
        forall|j: int| i < j < fs.len() ==> !(#[trigger] fs[j]).contains_key(k),
    ensures
        nearest(fs, k) == Some(i),
    decreases fs.len(),
{
    if i < fs.len() - 1 {
        assert(!fs[fs.len() - 1].contains_key(k));
        let d = fs.drop_last();
        assert forall|j: int| i < j < d.len() implies !(#[trigger] d[j]).contains_key(k) by {
            assert(d[j] == fs[j]);
        }
        lemma_nearest_is(d, k, i);
    }
}

/// After defining `k` as `v` in a chain with at least one frame, `k` resolves to `v`.
pub proof fn lemma_get_after_set<V>(fs: Scopes<V>, k: Seq<char>, v: V)
    requires
        fs.len() > 0,
    ensures
        lookup(define(fs, k, v), k) == Some(v),
{
    let g = define(fs, k, v);
    assert(g.last().contains_key(k));
}

/// Entering an empty scope and defining `k` there makes `k` resolve to the new
/// value; leaving that scope gives back the chain as it was, so an outer
/// binding of `k` is visible again (or none, if there was none).
pub proof fn lemma_shadowing<V>(fs: Scopes<V>, k: Seq<char>, v: V)
    ensures
        lookup(define(fs.push(Map::empty()), k, v), k) == Some(v),
        define(fs.push(Map::empty()), k, v).drop_last() == fs,
        lookup(define(fs.push(Map::empty()), k, v).drop_last(), k) == lookup(fs, k),
{
    let g = define(fs.push(Map::empty()), k, v);
    lemma_get_after_set(fs.push(Map::empty()), k, v);
    assert(g.drop_last() =~= fs);
}

/// Assigning to a symbol that no frame binds leaves the chain as it was.
pub proof fn lemma_update_unbound<V>(fs: Scopes<V>, k: Seq<char>, v: V)
    requires
        forall|j: int| 0 <= j < fs.len() ==> !(#[trigger] fs[j]).contains_key(k),
    ensures
        nearest(fs, k) is None,
        assign(fs, k, v) == fs,
    decreases fs.len(),
{
    if fs.len() > 0 {
        let d = fs.drop_last();
        assert forall|j: int| 0 <= j < d.len() implies !(#[trigger] d[j]).contains_key(k) by {
            assert(d[j] == fs[j]);
        }
        lemma_update_unbound(d, k, v);
    }
}

/// Assigning to `k` rewrites the innermost frame that binds it and no other:
/// afterwards `k` resolves to the new value, and frames inside it still do not bind `k`.
pub proof fn lemma_update_nearest<V>(fs: Scopes<V>, k: Seq<char>, v: V, i: int)
    requires
        0 <= i < fs.len(),
        fs[i].contains_key(k),
        forall|j: int| i < j < fs.len() ==> !(#[trigger] fs[j]).contains_key(k),
    ensures
        assign(fs, k, v) == fs.update(i, fs[i].insert(k, v)),
        lookup(assign(fs, k, v), k) == Some(v),
        forall|j: int| i < j < fs.len() ==> !(#[trigger] assign(fs, k, v)[j]).contains_key(k),
{
    lemma_nearest_is(fs, k, i);
    let g = fs.update(i, fs[i].insert(k, v));
    assert forall|j: int| i < j < g.len() implies !(#[trigger] g[j]).contains_key(k) by {
        assert(g[j] == fs[j]);
    }
    lemma_nearest_is(g, k, i);
}

/// During a call, with the closure's frame `c` under the argument frame `a`,
/// assigning to a symbol that `c` binds and `a` does not rewrites `c` itself,
/// so the frame handed back when the call's frames are popped holds the new value.
pub proof fn lemma_update_reaches_closure<V>(
    fs: Scopes<V>,
    c: Map<Seq<char>, V>,
    a: Map<Seq<char>, V>,
    k: Seq<char>,
    v: V,
)
    requires
        c.contains_key(k),
        !a.contains_key(k),
    ensures
        assign(fs.push(c).push(a), k, v) == fs.push(c.insert(k, v)).push(a),
{
    let s = fs.push(c).push(a);
    lemma_update_nearest(s, k, v, fs.len() as int);
    assert(s.update(fs.len() as int, c.insert(k, v)) =~= fs.push(c.insert(k, v)).push(a));
}

/// The chain after pushing `ns` in order.
pub open spec fn push_frames<V>(fs: Scopes<V>, ns: Scopes<V>) -> Scopes<V>
    decreases ns.len(),
{
    if ns.len() == 0 {
        fs
    } else {
        push_frames(fs, ns.drop_last()).push(ns.last())
    }
}

/// The chain after popping `n` frames (fewer where it runs out).
pub open spec fn pop_frames<V>(fs: Scopes<V>, n: nat) -> Scopes<V>
    decreases n,
{
    if n == 0 || fs.len() == 0 {
        fs
    } else {
        pop_frames(fs.drop_last(), (n - 1) as nat)
    }
}

/// Pushing frames and then popping as many gives back the original chain.
pub proof fn lemma_push_pop_round_trip<V>(fs: Scopes<V>, ns: Scopes<V>)
    ensures
        push_frames(fs, ns).len() == fs.len() + ns.len(),
        pop_frames(push_frames(fs, ns), ns.len()) == fs,
    decreases ns.len(),
{
    if ns.len() > 0 {
        lemma_push_pop_round_trip(fs, ns.drop_last());
        assert(push_frames(fs, ns).drop_last() =~= push_frames(fs, ns.drop_last()));
    }
}

} // verus!
