//! How the declarations of a well-formed tree stand above and below one
//! another.

use vstd::prelude::*;
use crate::model::{home, linked, well_formed, within, DeclView};

verus! {

/// What stands within something stands at or after it in the tree.
pub proof fn lemma_within_order(t: Seq<DeclView>, n: usize, m: usize)
    requires
        within(t, n, m),
    ensures
        m <= n,
    decreases n,
{
    if n != m {
        lemma_within_order(t, t[n as int].parent->Some_0, m);
    }
}

/// What stands within something that stands within a third stands within
/// the third.
pub proof fn lemma_within_trans(t: Seq<DeclView>, a: usize, b: usize, c: usize)
    requires
        within(t, a, b),
        within(t, b, c),
    ensures
        within(t, a, c),
    decreases a,
{
    if a != b {
        lemma_within_trans(t, t[a as int].parent->Some_0, b, c);
    }
}

/// Every declaration stands within the root.
pub proof fn lemma_within_root(t: Seq<DeclView>, n: usize)
    requires
        well_formed(t),
        n < t.len(),
    ensures
        within(t, n, 0),
    decreases n,
{
    if n != 0 {
        assert(linked(t, n));
        lemma_within_root(t, t[n as int].parent->Some_0);
    }
}

/// What stands within something else than itself has an owner that stands
/// within it too.
pub proof fn lemma_within_step(t: Seq<DeclView>, n: usize, m: usize)
    requires
        within(t, n, m),
        n != m,
    ensures
        t[n as int].parent is Some,
        t[n as int].parent->Some_0 < n,
        within(t, t[n as int].parent->Some_0, m),
{
}

/// Two declarations that a third stands within stand one within the other.
pub proof fn lemma_within_chain(t: Seq<DeclView>, n: usize, a: usize, b: usize)
    requires
        within(t, n, a),
        within(t, n, b),
    ensures
        within(t, a, b) || within(t, b, a),
    decreases n,
{
    if n != a && n != b {
        lemma_within_chain(t, t[n as int].parent->Some_0, a, b);
    }
}

/// Two declarations that stand within each other are one.
pub proof fn lemma_within_same(t: Seq<DeclView>, a: usize, b: usize)
    requires
        within(t, a, b),
        within(t, b, a),
    ensures
        a == b,
{
    lemma_within_order(t, a, b);
    lemma_within_order(t, b, a);
}

/// A declaration stands within the namespace that owns it, and that
/// namespace is a declaration of the tree.
pub proof fn lemma_within_home(t: Seq<DeclView>, d: usize)
    requires
        well_formed(t),
        d < t.len(),
    ensures
        within(t, d, home(t, d)),
        home(t, d) < t.len(),
        t[home(t, d) as int].kind is Namespace,
{
    if d != 0 {
        assert(linked(t, d));
        let p = t[d as int].parent->Some_0;
        if !(t[p as int].kind is Namespace) {
            assert(linked(t, p));
            let g = t[p as int].parent->Some_0;
            assert(within(t, g, g));
            assert(within(t, p, g));
        }
        assert(within(t, p, p));
        assert(within(t, d, p));
    }
}

/// The owner of a declaration that owns something is a namespace: it is the
/// namespace that owns the declaration.
pub proof fn lemma_home_of_owner(t: Seq<DeclView>, x: usize, d: usize)
    requires
        well_formed(t),
        0 < d < t.len(),
        t[d as int].parent == Some(x),
        x != 0,
    ensures
        t[x as int].parent is Some,
        home(t, x) == t[x as int].parent->Some_0,
{
    assert(linked(t, d));
    assert(linked(t, x));
}

/// The nearest declaration that both `n` and `m` stand within.
pub open spec fn meet(t: Seq<DeclView>, n: usize, m: usize) -> usize
    decreases m,
{
    if within(t, n, m) {
        m
    } else {
        match t[m as int].parent {
            Some(p) => if p < m {
                meet(t, n, p)
            } else {
                m
            },
            None => m,
        }
    }
}

/// Both stand within their meet.
pub proof fn lemma_meet_above(t: Seq<DeclView>, n: usize, m: usize)
    requires
        well_formed(t),
        n < t.len(),
        m < t.len(),
    ensures
        within(t, n, meet(t, n, m)),
        within(t, m, meet(t, n, m)),
        meet(t, n, m) < t.len(),
    decreases m,
{
    if !within(t, n, m) {
        if m == 0 {
            lemma_within_root(t, n);
        } else {
            assert(linked(t, m));
            lemma_meet_above(t, n, t[m as int].parent->Some_0);
        }
    }
}

/// Whatever both stand within, their meet stands within too.
pub proof fn lemma_meet_nearest(t: Seq<DeclView>, n: usize, m: usize, c: usize)
    requires
        within(t, n, c),
        within(t, m, c),
    ensures
        within(t, meet(t, n, m), c),
    decreases m,
{
    if !within(t, n, m) {
        lemma_meet_nearest(t, n, t[m as int].parent->Some_0, c);
    }
}

} // verus!
