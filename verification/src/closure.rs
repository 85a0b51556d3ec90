//! The dependency-closure walker.
//!
//! Given a root, the walker finds every definition transitively reachable
//! through definition uses, generic arguments and definition bodies — exactly
//! once, cycles included. Reachability is defined by explicit reference
//! paths; the walker saturates a visited set and is proved to mark exactly
//! the reachable identities. The closure sequence lists them in ascending
//! order of identity, which fixes a deterministic output order (the target
//! syntax tolerates forward references, so no dependency order is owed).

use vstd::prelude::*;

use crate::ir::{
    expr_refs, expr_wf, exprs_refs, fields_refs, info_refs, info_wf, lemma_exprs_refs_mem,
    lemma_fields_refs_mem, ObjectField, TypeExpr, TypeGraph, TypeInfo,
};

verus! {

/// Definition `a` refers to definition `b` directly from its body.
pub open spec fn def_edge(g: TypeGraph, a: int, b: int) -> bool {
    0 <= a < g.defs@.len() && expr_refs(g.defs@[a].def).contains(b)
}

/// `p` is a chain of body references leading from a definition used by the
/// root to `d`.
pub open spec fn is_ref_path(g: TypeGraph, root: TypeInfo, p: Seq<int>, d: int) -> bool {
    &&& p.len() >= 1
    &&& info_refs(root).contains(p[0])
    &&& p.last() == d
    &&& forall|i: int| 0 <= i < p.len() - 1 ==> #[trigger] def_edge(g, p[i], p[i + 1])
}

/// `d` is reachable from the root.
pub open spec fn reaches(g: TypeGraph, root: TypeInfo, d: int) -> bool {
    exists|p: Seq<int>| is_ref_path(g, root, p, d)
}

/// The reachable definition identities below `k`, in ascending order.
pub open spec fn closure_upto(g: TypeGraph, root: TypeInfo, k: int) -> Seq<usize>
    decreases k,
{
    if k <= 0 {
        Seq::empty()
    } else {
        closure_upto(g, root, k - 1) + if reaches(g, root, k - 1) {
            seq![(k - 1) as usize]
        } else {
            Seq::empty()
        }
    }
}

/// The dependency closure of the root: every reachable definition identity,
/// exactly once, in ascending order.
pub open spec fn closure_seq(g: TypeGraph, root: TypeInfo) -> Seq<usize> {
    closure_upto(g, root, g.defs@.len() as int)
}

/// Everything the root refers to directly is reachable.
pub proof fn lemma_reach_seed(g: TypeGraph, root: TypeInfo, d: int)
    requires
        info_refs(root).contains(d),
    ensures
        reaches(g, root, d),
{
    let p: Seq<int> = seq![d];
    assert(p.last() == d);
    assert(is_ref_path(g, root, p, d));
}

/// Reachability extends along body references.
pub proof fn lemma_reach_step(g: TypeGraph, root: TypeInfo, a: int, b: int)
    requires
        reaches(g, root, a),
        def_edge(g, a, b),
    ensures
        reaches(g, root, b),
{
    let p = choose|p: Seq<int>| is_ref_path(g, root, p, a);
    let q = p.push(b);
    assert(q[0] == p[0]);
    assert(q.last() == b);
    assert forall|i: int| 0 <= i < q.len() - 1 implies #[trigger] def_edge(g, q[i], q[i + 1]) by {
        if i < p.len() - 1 {
            assert(q[i] == p[i]);
            assert(q[i + 1] == p[i + 1]);
        } else {
            assert(i == p.len() - 1);
            assert(q[i] == p[i]);
            assert(p[i] == p.last());
            assert(q[i + 1] == b);
        }
    }
    assert(is_ref_path(g, root, q, b));
}

/// Along a reference path, a marking that covers the root's direct references
/// and is closed under body references covers the path's end.
proof fn lemma_path_in_marked(g: TypeGraph, root: TypeInfo, v: Seq<bool>, p: Seq<int>, d: int)
    requires
        forall|r: int| #[trigger] info_refs(root).contains(r) ==> 0 <= r < v.len() && v[r],
        forall|a: int, b: int|
            0 <= a < v.len() && v[a] && #[trigger] def_edge(g, a, b) ==> 0 <= b < v.len() && v[b],
        is_ref_path(g, root, p, d),
    ensures
        0 <= d < v.len() && v[d],
    decreases p.len(),
{
    if p.len() == 1 {
        assert(p.last() == p[0]);
    } else {
        let q = p.drop_last();
        let m = p.len() - 2;
        assert(q.last() == p[m]);
        assert forall|i: int| 0 <= i < q.len() - 1 implies #[trigger] def_edge(g, q[i], q[i + 1]) by {
            assert(def_edge(g, p[i], p[i + 1]));
            assert(q[i] == p[i]);
            assert(q[i + 1] == p[i + 1]);
        }
        assert(is_ref_path(g, root, q, p[m]));
        lemma_path_in_marked(g, root, v, q, p[m]);
        assert(def_edge(g, p[m], p[m + 1]));
        assert(p[m + 1] == p.last());
    }
}

/// A marking that covers the root's direct references and is closed under
/// body references covers everything reachable.
pub proof fn lemma_marked_closed_complete(g: TypeGraph, root: TypeInfo, v: Seq<bool>, d: int)
    requires
        forall|r: int| #[trigger] info_refs(root).contains(r) ==> 0 <= r < v.len() && v[r],
        forall|a: int, b: int|
            0 <= a < v.len() && v[a] && #[trigger] def_edge(g, a, b) ==> 0 <= b < v.len() && v[b],
        reaches(g, root, d),
    ensures
        0 <= d < v.len() && v[d],
{
    let p = choose|p: Seq<int>| is_ref_path(g, root, p, d);
    lemma_path_in_marked(g, root, v, p, d);
}

/// How many entries of a marking are still false.
pub open spec fn count_false(v: Seq<bool>) -> nat
    decreases v.len(),
{
    if v.len() == 0 {
        0
    } else {
        count_false(v.drop_last()) + if v.last() {
            0nat
        } else {
            1nat
        }
    }
}

/// Marking one entry true decreases the false count by one.
pub proof fn lemma_count_false_update(v: Seq<bool>, j: int)
    requires
        0 <= j < v.len(),
        !v[j],
    ensures
        count_false(v.update(j, true)) + 1 == count_false(v),
    decreases v.len(),
{
    let w = v.update(j, true);
    if j == v.len() - 1 {
        assert(w.drop_last() =~= v.drop_last());
        assert(w.last());
    } else {
        assert(w.drop_last() =~= v.drop_last().update(j, true));
        assert(w.last() == v.last());
        lemma_count_false_update(v.drop_last(), j);
    }
}

/// A marking that covers the references of every element of a sequence covers
/// the references of the sequence.
proof fn lemma_exprs_refs_covered(es: Seq<TypeExpr>, v: Seq<bool>)
    requires
        forall|i: int, r: int|
            0 <= i < es.len() && #[trigger] expr_refs(es[i]).contains(r) ==> 0 <= r < v.len()
                && v[r],
    ensures
        forall|r: int| #[trigger] exprs_refs(es).contains(r) ==> 0 <= r < v.len() && v[r],
    decreases es.len(),
{
    if es.len() == 0 {
        assert(exprs_refs(es) =~= Set::<int>::empty());
    } else {
        assert forall|i: int, r: int|
            0 <= i < es.len() - 1 && #[trigger] expr_refs(es.drop_first()[i]).contains(r)
            implies 0 <= r < v.len() && v[r] by {
            assert(es.drop_first()[i] == es[i + 1]);
            assert(expr_refs(es[i + 1]).contains(r));
        }
        lemma_exprs_refs_covered(es.drop_first(), v);
        assert forall|r: int| #[trigger] exprs_refs(es).contains(r) implies 0 <= r < v.len()
            && v[r] by {
            assert(expr_refs(es[0]).contains(r) || exprs_refs(es.drop_first()).contains(r));
        }
    }
}

/// The field analogue of [`lemma_exprs_refs_covered`].
proof fn lemma_fields_refs_covered(fs: Seq<ObjectField>, v: Seq<bool>)
    requires
        forall|i: int, r: int|
            0 <= i < fs.len() && #[trigger] expr_refs(fs[i].ty).contains(r) ==> 0 <= r < v.len()
                && v[r],
    ensures
        forall|r: int| #[trigger] fields_refs(fs).contains(r) ==> 0 <= r < v.len() && v[r],
    decreases fs.len(),
{
    if fs.len() == 0 {
        assert(fields_refs(fs) =~= Set::<int>::empty());
    } else {
        assert forall|i: int, r: int|
            0 <= i < fs.len() - 1 && #[trigger] expr_refs(fs.drop_first()[i].ty).contains(r)
            implies 0 <= r < v.len() && v[r] by {
            assert(fs.drop_first()[i] == fs[i + 1]);
            assert(expr_refs(fs[i + 1].ty).contains(r));
        }
        lemma_fields_refs_covered(fs.drop_first(), v);
        assert forall|r: int| #[trigger] fields_refs(fs).contains(r) implies 0 <= r < v.len()
            && v[r] by {
            assert(expr_refs(fs[0].ty).contains(r) || fields_refs(fs.drop_first()).contains(r));
        }
    }
}

/// What holds of the visited marking and the pending worklist after a
/// discovery step, relative to their values `v0`/`p0` before it: entries are
/// only turned on, only references of `refs` are turned on, the old worklist
/// is preserved, everything appended is newly marked and in bounds, every
/// newly marked identity is on the worklist, and twice the false count plus
/// the worklist length does not grow.
pub open spec fn discovery_step(
    refs: Set<int>,
    v0: Seq<bool>,
    p0: Seq<usize>,
    v: Seq<bool>,
    p: Seq<usize>,
) -> bool {
    &&& v.len() == v0.len()
    &&& forall|j: int| 0 <= j < v0.len() && v0[j] ==> v[j]
    &&& forall|j: int| 0 <= j < v0.len() && v[j] && !v0[j] ==> refs.contains(j)
    &&& p0.len() <= p.len()
    &&& p.subrange(0, p0.len() as int) == p0
    &&& forall|k: int|
        p0.len() <= k < p.len() ==> 0 <= p[k] < v.len() && v[p[k] as int] && !v0[p[k] as int]
    &&& forall|j: int|
        0 <= j < v0.len() && v[j] && !v0[j] ==> p.subrange(p0.len() as int, p.len() as int)
            .contains(j as usize)
    &&& 2 * count_false(v) + p.len() <= 2 * count_false(v0) + p0.len()
}

/// Marks one identity as discovered, putting it on the worklist if it was not
/// already marked.
fn mark(visited: &mut Vec<bool>, pending: &mut Vec<usize>, d: usize)
    requires
        d < old(visited)@.len(),
    ensures
        discovery_step(
            Set::empty().insert(d as int),
            old(visited)@,
            old(pending)@,
            final(visited)@,
            final(pending)@,
        ),
        final(visited)@[d as int],
{
    let ghost v0 = visited@;
    let ghost p0 = pending@;
    if !visited[d] {
        visited[d] = true;
        pending.push(d);
        proof {
            lemma_count_false_update(v0, d as int);
            assert(pending@.subrange(0, p0.len() as int) =~= p0);
            assert forall|j: int| 0 <= j < v0.len() && visited@[j] && !v0[j] implies pending@
                .subrange(p0.len() as int, pending@.len() as int).contains(j as usize) by {
                assert(j == d as int);
                assert(pending@.subrange(p0.len() as int, pending@.len() as int)[0] == d);
            }
        }
    } else {
        proof {
            assert(pending@.subrange(0, p0.len() as int) =~= p0);
        }
    }
}

/// Marks every definition identity an expression references directly.
fn collect_expr_refs(g: &TypeGraph, e: &TypeExpr, visited: &mut Vec<bool>, pending: &mut Vec<usize>)
    requires
        expr_wf(g.defs@.len() as int, *e),
        old(visited)@.len() == g.defs@.len(),
    ensures
        discovery_step(expr_refs(*e), old(visited)@, old(pending)@, final(visited)@, final(pending)@),
        forall|r: int| #[trigger] expr_refs(*e).contains(r) ==> final(visited)@[r],
    decreases *e, 0int,
{
    match e {
        TypeExpr::Ref(TypeInfo::Native(n)) => {
            proof {
                reveal_with_fuel(expr_refs, 2);
                assert(expr_refs(*e) == expr_refs(*n.expr));
            }
            collect_expr_refs(g, &*n.expr, visited, pending);
        },
        TypeExpr::Ref(TypeInfo::Defined(dt)) => {
            proof {
                reveal_with_fuel(expr_refs, 2);
                assert(expr_refs(*e) =~= exprs_refs(dt.generic_args@).insert(dt.def as int));
                assert(expr_refs(*e).contains(dt.def as int));
                assert forall|r: int| exprs_refs(dt.generic_args@).contains(r) implies expr_refs(
                    *e,
                ).contains(r) by {
                    assert(exprs_refs(dt.generic_args@).insert(dt.def as int).contains(r));
                }
                assert forall|r: int| exprs_refs(dt.generic_args@).contains(r) implies 0 <= r
                    < g.defs@.len() by {
                    assert(expr_refs(*e).contains(r));
                }
            }
            mark(visited, pending, dt.def);
            let ghost v1 = visited@;
            let ghost p1 = pending@;
            collect_exprs_refs(g, &dt.generic_args, visited, pending);
            proof {
                assert(Set::empty().insert(dt.def as int).subset_of(expr_refs(*e)));
                assert(exprs_refs(dt.generic_args@).subset_of(expr_refs(*e)));
                lemma_discovery_step_chain(
                    Set::empty().insert(dt.def as int),
                    exprs_refs(dt.generic_args@),
                    expr_refs(*e),
                    old(visited)@,
                    old(pending)@,
                    v1,
                    p1,
                    visited@,
                    pending@,
                );
                assert forall|r: int| expr_refs(*e).contains(r) implies visited@[r] by {
                    if r == dt.def as int {
                        assert(v1[r]);
                    } else {
                        assert(exprs_refs(dt.generic_args@).contains(r));
                    }
                }
            }
        },
        TypeExpr::Name(tn) => {
            proof {
                assert(expr_refs(*e) == exprs_refs(tn.generic_args@));
            }
            collect_exprs_refs(g, &tn.generic_args, visited, pending);
        },
        TypeExpr::String(_) => {
            proof {
                assert(expr_refs(*e) =~= Set::<int>::empty());
                assert(visited@.subrange(0, visited@.len() as int) =~= visited@);
                assert(pending@.subrange(0, pending@.len() as int) =~= pending@);
            }
        },
        TypeExpr::Tuple(t) => {
            proof {
                assert(expr_refs(*e) == exprs_refs(t.elements@));
            }
            collect_exprs_refs(g, &t.elements, visited, pending);
        },
        TypeExpr::Object(o) => {
            proof {
                assert(expr_refs(*e) == fields_refs(o.fields@));
            }
            collect_fields_refs(g, &o.fields, visited, pending);
        },
        TypeExpr::Array(a) => {
            proof {
                assert(expr_refs(*e) == expr_refs(*a.item));
            }
            collect_expr_refs(g, &*a.item, visited, pending);
        },
        TypeExpr::Union(u) => {
            proof {
                assert(expr_refs(*e) == exprs_refs(u.members@));
            }
            collect_exprs_refs(g, &u.members, visited, pending);
        },
        TypeExpr::Intersection(x) => {
            proof {
                assert(expr_refs(*e) == exprs_refs(x.members@));
            }
            collect_exprs_refs(g, &x.members, visited, pending);
        },
    }
}

/// Marks every definition identity any expression of a sequence references.
fn collect_exprs_refs(
    g: &TypeGraph,
    es: &Vec<TypeExpr>,
    visited: &mut Vec<bool>,
    pending: &mut Vec<usize>,
)
    requires
        forall|d: int| #[trigger] exprs_refs(es@).contains(d) ==> 0 <= d < g.defs@.len(),
        old(visited)@.len() == g.defs@.len(),
    ensures
        discovery_step(
            exprs_refs(es@),
            old(visited)@,
            old(pending)@,
            final(visited)@,
            final(pending)@,
        ),
        forall|r: int| #[trigger] exprs_refs(es@).contains(r) ==> final(visited)@[r],
    decreases es@, 1int,
{
    let ghost v0 = visited@;
    let ghost p0 = pending@;
    let mut k: usize = 0;
    proof {
        assert(pending@.subrange(0, p0.len() as int) =~= p0);
    }
    while k < es.len()
        invariant
            forall|d: int| #[trigger] exprs_refs(es@).contains(d) ==> 0 <= d < g.defs@.len(),
            visited@.len() == g.defs@.len(),
            v0.len() == visited@.len(),
            0 <= k <= es@.len(),
            discovery_step(exprs_refs(es@), v0, p0, visited@, pending@),
            forall|i: int, r: int|
                0 <= i < k && #[trigger] expr_refs(es@[i]).contains(r) ==> visited@[r],
        decreases es@.len() - k,
    {
        let ghost v1 = visited@;
        let ghost p1 = pending@;
        proof {
            lemma_exprs_refs_mem(es@, k as int);
        }
        collect_expr_refs(g, &es[k], visited, pending);
        proof {
            lemma_discovery_step_chain(
                exprs_refs(es@),
                expr_refs(es@[k as int]),
                exprs_refs(es@),
                v0,
                p0,
                v1,
                p1,
                visited@,
                pending@,
            );
            assert forall|i: int, r: int|
                0 <= i < k + 1 && #[trigger] expr_refs(es@[i]).contains(r)
                implies visited@[r] by {
                if i < k {
                    lemma_exprs_refs_mem(es@, i);
                    assert(exprs_refs(es@).contains(r));
                    assert(v1[r]);
                }
            }
        }
        k = k + 1;
    }
    proof {
        lemma_exprs_refs_covered_marked(es@, visited@, g.defs@.len() as int);
    }
}

/// Marks every definition identity any field of a sequence references.
fn collect_fields_refs(
    g: &TypeGraph,
    fs: &Vec<ObjectField>,
    visited: &mut Vec<bool>,
    pending: &mut Vec<usize>,
)
    requires
        forall|d: int| #[trigger] fields_refs(fs@).contains(d) ==> 0 <= d < g.defs@.len(),
        old(visited)@.len() == g.defs@.len(),
    ensures
        discovery_step(
            fields_refs(fs@),
            old(visited)@,
            old(pending)@,
            final(visited)@,
            final(pending)@,
        ),
        forall|r: int| #[trigger] fields_refs(fs@).contains(r) ==> final(visited)@[r],
    decreases fs@, 1int,
{
    let ghost v0 = visited@;
    let ghost p0 = pending@;
    let mut k: usize = 0;
    proof {
        assert(pending@.subrange(0, p0.len() as int) =~= p0);
    }
    while k < fs.len()
        invariant
            forall|d: int| #[trigger] fields_refs(fs@).contains(d) ==> 0 <= d < g.defs@.len(),
            visited@.len() == g.defs@.len(),
            v0.len() == visited@.len(),
            0 <= k <= fs@.len(),
            discovery_step(fields_refs(fs@), v0, p0, visited@, pending@),
            forall|i: int, r: int|
                0 <= i < k && #[trigger] expr_refs(fs@[i].ty).contains(r) ==> visited@[r],
        decreases fs@.len() - k,
    {
        let ghost v1 = visited@;
        let ghost p1 = pending@;
        proof {
            lemma_fields_refs_mem(fs@, k as int);
        }
        collect_expr_refs(g, &fs[k].ty, visited, pending);
        proof {
            lemma_discovery_step_chain(
                fields_refs(fs@),
                expr_refs(fs@[k as int].ty),
                fields_refs(fs@),
                v0,
                p0,
                v1,
                p1,
                visited@,
                pending@,
            );
            assert forall|i: int, r: int|
                0 <= i < k + 1 && #[trigger] expr_refs(fs@[i].ty).contains(r)
                implies visited@[r] by {
                if i < k {
                    lemma_fields_refs_mem(fs@, i);
                    assert(fields_refs(fs@).contains(r));
                    assert(v1[r]);
                }
            }
        }
        k = k + 1;
    }
    proof {
        lemma_fields_refs_covered_marked(fs@, visited@, g.defs@.len() as int);
    }
}

/// Two discovery steps in a row form one discovery step for any set
/// containing both reference sets.
proof fn lemma_discovery_step_chain(
    refs1: Set<int>,
    refs2: Set<int>,
    refs: Set<int>,
    v0: Seq<bool>,
    p0: Seq<usize>,
    v1: Seq<bool>,
    p1: Seq<usize>,
    v2: Seq<bool>,
    p2: Seq<usize>,
)
    requires
        refs1.subset_of(refs),
        refs2.subset_of(refs),
        discovery_step(refs1, v0, p0, v1, p1),
        discovery_step(refs2, v1, p1, v2, p2),
    ensures
        discovery_step(refs, v0, p0, v2, p2),
{
    assert forall|j: int| 0 <= j < v0.len() && v2[j] && !v0[j] implies refs.contains(j) by {
        if v1[j] {
            assert(refs1.contains(j));
        } else {
            assert(refs2.contains(j));
        }
    }
    assert forall|i: int| 0 <= i < p0.len() implies p2[i] == p0[i] by {
        assert(p2.subrange(0, p1.len() as int)[i] == p1[i]);
        assert(p1.subrange(0, p0.len() as int)[i] == p0[i]);
    }
    assert(p2.subrange(0, p0.len() as int) =~= p0);
    assert forall|k: int| p0.len() <= k < p2.len() implies 0 <= p2[k] < v2.len()
        && v2[p2[k] as int] && !v0[p2[k] as int] by {
        if k < p1.len() {
            assert(p2.subrange(0, p1.len() as int)[k] == p1[k]);
            assert(p2[k] == p1[k]);
        }
    }
    assert forall|j: int| 0 <= j < v0.len() && v2[j] && !v0[j] implies p2.subrange(
        p0.len() as int,
        p2.len() as int,
    ).contains(j as usize) by {
        if v1[j] {
            assert(p1.subrange(p0.len() as int, p1.len() as int).contains(j as usize));
            let i = choose|i: int|
                0 <= i < p1.len() - p0.len() && p1.subrange(p0.len() as int, p1.len() as int)[i]
                    == j as usize;
            assert(p1[p0.len() + i] == j as usize);
            assert(p2.subrange(0, p1.len() as int)[p0.len() + i] == p1[p0.len() + i]);
            assert(p2.subrange(p0.len() as int, p2.len() as int)[i] == p2[p0.len() + i]);
        } else {
            assert(p2.subrange(p1.len() as int, p2.len() as int).contains(j as usize));
            let i = choose|i: int|
                0 <= i < p2.len() - p1.len() && p2.subrange(p1.len() as int, p2.len() as int)[i]
                    == j as usize;
            assert(p2[p1.len() + i] == j as usize);
            assert(p2.subrange(p0.len() as int, p2.len() as int)[p1.len() - p0.len() + i] == p2[
                p1.len() + i]);
        }
    }
}

/// When every reference of every element is marked, every reference of the
/// sequence is marked.
proof fn lemma_exprs_refs_covered_marked(es: Seq<TypeExpr>, v: Seq<bool>, n: int)
    requires
        forall|d: int| #[trigger] exprs_refs(es).contains(d) ==> 0 <= d < n,
        n <= v.len(),
        forall|i: int, r: int| 0 <= i < es.len() && #[trigger] expr_refs(es[i]).contains(r) ==> v[r],
    ensures
        forall|r: int| #[trigger] exprs_refs(es).contains(r) ==> v[r],
{
    assert forall|i: int, r: int|
        0 <= i < es.len() && #[trigger] expr_refs(es[i]).contains(r) implies 0 <= r < v.len()
        && v[r] by {
        lemma_exprs_refs_mem(es, i);
        assert(exprs_refs(es).contains(r));
    }
    lemma_exprs_refs_covered(es, v);
}

/// The field analogue of [`lemma_exprs_refs_covered_marked`].
proof fn lemma_fields_refs_covered_marked(fs: Seq<ObjectField>, v: Seq<bool>, n: int)
    requires
        forall|d: int| #[trigger] fields_refs(fs).contains(d) ==> 0 <= d < n,
        n <= v.len(),
        forall|i: int, r: int|
            0 <= i < fs.len() && #[trigger] expr_refs(fs[i].ty).contains(r) ==> v[r],
    ensures
        forall|r: int| #[trigger] fields_refs(fs).contains(r) ==> v[r],
{
    assert forall|i: int, r: int|
        0 <= i < fs.len() && #[trigger] expr_refs(fs[i].ty).contains(r) implies 0 <= r < v.len()
        && v[r] by {
        lemma_fields_refs_mem(fs, i);
        assert(fields_refs(fs).contains(r));
    }
    lemma_fields_refs_covered(fs, v);
}

/// Marks every definition identity the root refers to directly.
fn collect_info_refs(g: &TypeGraph, root: &TypeInfo, visited: &mut Vec<bool>, pending: &mut Vec<usize>)
    requires
        info_wf(g.defs@.len() as int, *root),
        old(visited)@.len() == g.defs@.len(),
    ensures
        discovery_step(
            info_refs(*root),
            old(visited)@,
            old(pending)@,
            final(visited)@,
            final(pending)@,
        ),
        forall|r: int| #[trigger] info_refs(*root).contains(r) ==> final(visited)@[r],
{
    match root {
        TypeInfo::Native(n) => {
            proof {
                assert(info_refs(*root) == expr_refs(*n.expr));
            }
            collect_expr_refs(g, &*n.expr, visited, pending);
        },
        TypeInfo::Defined(dt) => {
            proof {
                assert(info_refs(*root) =~= exprs_refs(dt.generic_args@).insert(dt.def as int));
                assert(info_refs(*root).contains(dt.def as int));
                assert forall|r: int| exprs_refs(dt.generic_args@).contains(r) implies info_refs(
                    *root,
                ).contains(r) by {
                    assert(exprs_refs(dt.generic_args@).insert(dt.def as int).contains(r));
                }
                assert forall|r: int| #[trigger] exprs_refs(dt.generic_args@).contains(r)
                    implies 0 <= r < g.defs@.len() by {
                    assert(info_refs(*root).contains(r));
                }
            }
            mark(visited, pending, dt.def);
            let ghost v1 = visited@;
            let ghost p1 = pending@;
            collect_exprs_refs(g, &dt.generic_args, visited, pending);
            proof {
                lemma_discovery_step_chain(
                    Set::empty().insert(dt.def as int),
                    exprs_refs(dt.generic_args@),
                    info_refs(*root),
                    old(visited)@,
                    old(pending)@,
                    v1,
                    p1,
                    visited@,
                    pending@,
                );
                assert forall|r: int| #[trigger] info_refs(*root).contains(r)
                    implies visited@[r] by {
                    if r == dt.def as int {
                        assert(v1[r]);
                    } else {
                        assert(exprs_refs(dt.generic_args@).contains(r));
                    }
                }
            }
        },
    }
}

/// Computes the dependency closure of the root: the identity of every
/// reachable definition, exactly once, in ascending order.
pub fn compute_closure(g: &TypeGraph, root: &TypeInfo) -> (out: Vec<usize>)
    requires
        g.wf(),
        info_wf(g.defs@.len() as int, *root),
    ensures
        out@ == closure_seq(*g, *root),
{
    let n = g.defs.len();
    let mut visited: Vec<bool> = Vec::new();
    let mut i: usize = 0;
    while i < n
        invariant
            0 <= i <= n,
            visited@.len() == i,
            forall|j: int| 0 <= j < i ==> !(#[trigger] visited@[j]),
        decreases n - i,
    {
        visited.push(false);
        i = i + 1;
    }
    let ghost v0 = visited@;
    let mut pending: Vec<usize> = Vec::new();
    collect_info_refs(g, root, &mut visited, &mut pending);
    proof {
        assert forall|j: int| 0 <= j < n && #[trigger] visited@[j] implies reaches(
            *g,
            *root,
            j,
        ) by {
            assert(info_refs(*root).contains(j));
            lemma_reach_seed(*g, *root, j);
        }
        assert(pending@.subrange(0, pending@.len() as int) =~= pending@);
        assert forall|j: int, b: int|
            0 <= j < n && visited@[j] && !pending@.contains(j as usize) && #[trigger] expr_refs(
                g.defs@[j].def,
            ).contains(b) implies visited@[b] by {
            assert(pending@.subrange(0, pending@.len() as int).contains(j as usize));
        }
    }
    while pending.len() > 0
        invariant
            g.wf(),
            info_wf(g.defs@.len() as int, *root),
            n == g.defs@.len(),
            visited@.len() == n,
            forall|k: int|
                0 <= k < pending@.len() ==> #[trigger] pending@[k] < n && visited@[pending@[k] as int],
            forall|j: int| 0 <= j < n && #[trigger] visited@[j] ==> reaches(*g, *root, j),
            forall|j: int, b: int|
                0 <= j < n && visited@[j] && !pending@.contains(j as usize) && #[trigger] expr_refs(
                    g.defs@[j].def,
                ).contains(b) ==> visited@[b],
            forall|r: int| #[trigger] info_refs(*root).contains(r) ==> visited@[r],
        decreases 2 * count_false(visited@) + pending@.len(),
    {
        let ghost v_pre = visited@;
        let ghost p_pre = pending@;
        let d = pending.pop().unwrap();
        let ghost v1 = visited@;
        let ghost p1 = pending@;
        proof {
            assert(p_pre[p_pre.len() - 1] == d);
            assert(d < n && visited@[d as int]);
            assert(expr_wf(g.defs@.len() as int, g.defs@[d as int].def));
        }
        collect_expr_refs(g, &g.defs[d].def, &mut visited, &mut pending);
        proof {
            let ghost body = g.defs@[d as int].def;
            // worklist entries stay in bounds and marked
            assert forall|k: int| 0 <= k < pending@.len() implies #[trigger] pending@[k] < n
                && visited@[pending@[k] as int] by {
                if k < p1.len() {
                    assert(pending@.subrange(0, p1.len() as int)[k] == p1[k]);
                    assert(p1[k] == p_pre[k]);
                }
            }
            // everything marked is reachable
            assert forall|j: int| 0 <= j < n && #[trigger] visited@[j] implies reaches(
                *g,
                *root,
                j,
            ) by {
                if !v1[j] {
                    assert(expr_refs(body).contains(j));
                    assert(def_edge(*g, d as int, j));
                    lemma_reach_step(*g, *root, d as int, j);
                }
            }
            // everything marked and off the worklist has its references marked
            assert forall|j: int, b: int|
                0 <= j < n && visited@[j] && !pending@.contains(j as usize)
                    && #[trigger] expr_refs(g.defs@[j].def).contains(b)
                implies visited@[b] by {
                if !v1[j] {
                    assert(pending@.subrange(p1.len() as int, pending@.len() as int).contains(
                        j as usize,
                    ));
                    let y = choose|y: int|
                        0 <= y < pending@.len() - p1.len() && pending@.subrange(
                            p1.len() as int,
                            pending@.len() as int,
                        )[y] == j as usize;
                    assert(pending@[p1.len() + y] == j as usize);
                    assert(pending@.contains(j as usize));
                } else if j == d as int {
                    assert(visited@[b]);
                } else {
                    if p_pre.contains(j as usize) {
                        let y = choose|y: int|
                            0 <= y < p_pre.len() && p_pre[y] == j as usize;
                        assert(y < p_pre.len() - 1);
                        assert(p1[y] == j as usize);
                        assert(pending@.subrange(0, p1.len() as int)[y] == p1[y]);
                        assert(pending@[y] == j as usize);
                        assert(pending@.contains(j as usize));
                    }
                    assert(!p_pre.contains(j as usize));
                    assert(v1[b]);
                    assert(expr_wf(g.defs@.len() as int, g.defs@[j].def));
                    assert(0 <= b < n);
                }
            }
        }
    }
    proof {
        assert forall|j: int| 0 <= j < n implies (visited@[j] <==> reaches(*g, *root, j)) by {
            if reaches(*g, *root, j) {
                assert forall|a: int, b: int|
                    0 <= a < visited@.len() && visited@[a] && #[trigger] def_edge(*g, a, b)
                    implies 0 <= b < visited@.len() && visited@[b] by {
                    assert(expr_refs(g.defs@[a].def).contains(b));
                    assert(expr_wf(g.defs@.len() as int, g.defs@[a].def));
                    assert(!pending@.contains(a as usize));
                }
                lemma_marked_closed_complete(*g, *root, visited@, j);
            }
        }
    }
    let mut out: Vec<usize> = Vec::new();
    let mut i: usize = 0;
    while i < n
        invariant
            n == g.defs@.len(),
            visited@.len() == n,
            forall|j: int| 0 <= j < n ==> (#[trigger] visited@[j] <==> reaches(*g, *root, j)),
            0 <= i <= n,
            out@ == closure_upto(*g, *root, i as int),
        decreases n - i,
    {
        let ghost prev = out@;
        if visited[i] {
            out.push(i);
            proof {
                assert(out@ =~= prev + seq![i]);
                assert(out@ =~= closure_upto(*g, *root, i + 1));
            }
        } else {
            proof {
                assert(out@ =~= closure_upto(*g, *root, i + 1));
            }
        }
        i = i + 1;
    }
    out
}

/// The closure sequence holds exactly the reachable identities below the
/// bound, each once, in strictly ascending order.
pub proof fn lemma_closure_upto_props(g: TypeGraph, root: TypeInfo, k: int)
    requires
        k <= usize::MAX as int + 1,
    ensures
        forall|i: int|
            0 <= i < closure_upto(g, root, k).len() ==> 0 <= #[trigger] closure_upto(
                g,
                root,
                k,
            )[i] < k && reaches(g, root, closure_upto(g, root, k)[i] as int),
        forall|i: int, j: int|
            0 <= i < j < closure_upto(g, root, k).len() ==> #[trigger] closure_upto(g, root, k)[i]
                < #[trigger] closure_upto(g, root, k)[j],
        forall|d: int|
            0 <= d < k && reaches(g, root, d) ==> closure_upto(g, root, k).contains(d as usize),
    decreases k,
{
    assert(closure_upto(g, root, k) == if k <= 0 {
        Seq::<usize>::empty()
    } else {
        closure_upto(g, root, k - 1) + if reaches(g, root, k - 1) {
            seq![(k - 1) as usize]
        } else {
            Seq::<usize>::empty()
        }
    });
    if k > 0 {
        lemma_closure_upto_props(g, root, k - 1);
        let prev = closure_upto(g, root, k - 1);
        let cur = closure_upto(g, root, k);
        let tail: Seq<usize> = if reaches(g, root, k - 1) {
            seq![(k - 1) as usize]
        } else {
            Seq::empty()
        };
        assert(cur == prev + tail);
        assert forall|i: int| 0 <= i < cur.len() implies 0 <= #[trigger] cur[i] < k && reaches(
            g,
            root,
            cur[i] as int,
        ) by {
            if i < prev.len() {
                assert(cur[i] == prev[i]);
            } else {
                assert(cur[i] == tail[i - prev.len()]);
                assert(cur[i] == (k - 1) as usize);
            }
        }
        assert forall|i: int, j: int| 0 <= i < j < cur.len() implies #[trigger] cur[i]
            < #[trigger] cur[j] by {
            if j < prev.len() {
                assert(cur[i] == prev[i]);
                assert(cur[j] == prev[j]);
            } else {
                assert(j == prev.len());
                assert(cur[i] == prev[i]);
                assert(cur[j] == (k - 1) as usize);
                assert(cur[j] as int == k - 1);
                assert(prev[i] < k - 1);
            }
        }
        assert forall|d: int| 0 <= d < k && reaches(g, root, d) implies cur.contains(d as usize) by {
            if d < k - 1 {
                let y = choose|y: int| 0 <= y < prev.len() && prev[y] == d as usize;
                assert(cur[y] == d as usize);
            } else {
                assert(cur[cur.len() - 1] == d as usize);
            }
        }
    }
}


/// Law: the dependency closure holds every definition reachable from the
/// root — and no other — and holds each exactly once. One declaration is
/// emitted per entry, so the count a caller gets back equals the number of
/// reachable definitions.
pub proof fn lemma_closure_complete_exactly_once(g: TypeGraph, root: TypeInfo)
    requires
        g.defs@.len() <= usize::MAX as int,
    ensures
        forall|d: int|
            0 <= d < g.defs@.len() ==> (reaches(g, root, d) <==> closure_seq(g, root).contains(
                d as usize,
            )),
        forall|i: int, j: int|
            0 <= i < j < closure_seq(g, root).len() ==> closure_seq(g, root)[i] != closure_seq(
                g,
                root,
            )[j],
{
    lemma_closure_upto_props(g, root, g.defs@.len() as int);
    assert forall|d: int|
        0 <= d < g.defs@.len() && closure_seq(g, root).contains(d as usize) implies reaches(
        g,
        root,
        d,
    ) by {
        let i = choose|i: int|
            0 <= i < closure_seq(g, root).len() && closure_seq(g, root)[i] == d as usize;
        assert(reaches(g, root, closure_seq(g, root)[i] as int));
    }
}

/// Law: a definition whose body refers, directly or through intermediates,
/// back to itself is still listed exactly once — at one single index — and
/// the walk that produces the closure terminates, as every function of this
/// library is total.
pub proof fn lemma_cycle_emitted_once(g: TypeGraph, root: TypeInfo, d: int)
    requires
        g.defs@.len() <= usize::MAX as int,
        0 <= d < g.defs@.len(),
        expr_refs(g.defs@[d].def).contains(d),
        reaches(g, root, d),
    ensures
        closure_seq(g, root).contains(d as usize),
        forall|i: int, j: int|
            0 <= i < closure_seq(g, root).len() && 0 <= j < closure_seq(g, root).len()
                && closure_seq(g, root)[i] == d as usize && closure_seq(g, root)[j] == d as usize
                ==> i == j,
{
    lemma_closure_upto_props(g, root, g.defs@.len() as int);
    assert forall|i: int, j: int|
        0 <= i < closure_seq(g, root).len() && 0 <= j < closure_seq(g, root).len()
            && closure_seq(g, root)[i] == d as usize && closure_seq(g, root)[j] == d as usize
        implies i == j by {
        if i < j {
            assert(closure_seq(g, root)[i] < closure_seq(g, root)[j]);
        }
        if j < i {
            assert(closure_seq(g, root)[j] < closure_seq(g, root)[i]);
        }
    }
}


} // verus!
