//! Build-order planning: cycle detection and reporting, the affected set
//! (the reverse-dependency closure of the updated nodes, optionally
//! restricted to the closure of nominated nodes), and the stratified
//! topological ordering in which every dependency precedes its dependents.

use vstd::prelude::*;

use crate::graph::{
    edge_in, has_cycle, lemma_cycle_mono, lemma_reachable_step, reachable, PackageDependencyGraph,
    PackageNode, PackageNodeUpdate, StudioPackages,
};

verus! {

/// Whether node `v` belongs to the affected set: it depends (transitively,
/// or as the node itself) on an updated node, and, when nominations are
/// present, also on a nominated node.
pub open spec fn is_affected(
    pairs: Seq<(usize, usize)>,
    updates: Seq<PackageNodeUpdate>,
    manual: Seq<PackageNode>,
    v: usize,
) -> bool {
    &&& exists|u: int|
        0 <= u < updates.len() && reachable(pairs, v, (#[trigger] updates[u]).package.0)
    &&& (manual.len() == 0 || exists|m: int|
        0 <= m < manual.len() && reachable(pairs, v, (#[trigger] manual[m]).0))
}

/// Whether `v` lies in the dependency closure of an optional designated
/// node.
pub open spec fn in_closure(
    pairs: Seq<(usize, usize)>,
    node: Option<PackageNode>,
    v: usize,
) -> bool {
    node matches Some(x) && reachable(pairs, x.0, v)
}

/// The stratum a node builds in: the bootstrap-studio closure first, then
/// the studio closure, then the rest.
pub open spec fn strat_group(
    pairs: Seq<(usize, usize)>,
    studios: &StudioPackages,
    v: usize,
) -> int {
    if in_closure(pairs, studios.bootstrap_studio, v) {
        0
    } else if in_closure(pairs, studios.studio, v) {
        1
    } else {
        2
    }
}

/// The edges that close a cycle: every edge whose target reaches back to
/// its source, which is exactly the set of edges lying on some cycle.
fn cycle_edges(n: usize, pairs: &Vec<(usize, usize)>) -> (es: Vec<(PackageNode, PackageNode)>)
    requires
        forall|k: int|
            0 <= k < pairs@.len() ==> (#[trigger] pairs@[k]).0 < n && pairs@[k].1 < n,
    ensures
        forall|x: int|
            0 <= x < es@.len() ==> edge_in(pairs@, (#[trigger] es@[x]).0.0, es@[x].1.0)
                && reachable(pairs@, es@[x].1.0, es@[x].0.0),
        forall|k: int|
            0 <= k < pairs@.len() && reachable(pairs@, (#[trigger] pairs@[k]).1, pairs@[k].0)
                ==> es@.contains((PackageNode(pairs@[k].0), PackageNode(pairs@[k].1))),
        es@.len() == 0 <==> !has_cycle(pairs@),
{
    let mut es: Vec<(PackageNode, PackageNode)> = Vec::new();
    let mut k: usize = 0;
    while k < pairs.len()
        invariant
            k <= pairs@.len(),
            forall|kk: int|
                0 <= kk < pairs@.len() ==> (#[trigger] pairs@[kk]).0 < n && pairs@[kk].1 < n,
            forall|x: int|
                0 <= x < es@.len() ==> edge_in(pairs@, (#[trigger] es@[x]).0.0, es@[x].1.0)
                    && reachable(pairs@, es@[x].1.0, es@[x].0.0),
            forall|kk: int|
                0 <= kk < k && reachable(pairs@, (#[trigger] pairs@[kk]).1, pairs@[kk].0)
                    ==> es@.contains((PackageNode(pairs@[kk].0), PackageNode(pairs@[kk].1))),
            es@.len() == 0 ==> forall|kk: int|
                0 <= kk < k ==> !reachable(pairs@, (#[trigger] pairs@[kk]).1, pairs@[kk].0),
        decreases pairs@.len() - k,
    {
        let e = pairs[k];
        if crate::graph::pair_connected(n, pairs, e.1, e.0) {
            let ghost before = es@;
            es.push((PackageNode(e.0), PackageNode(e.1)));
            proof {
                assert(edge_in(pairs@, e.0, e.1)) by {
                    assert(pairs@[k as int] == (e.0, e.1));
                }
                assert forall|kk: int|
                    0 <= kk < k + 1 && reachable(
                        pairs@,
                        (#[trigger] pairs@[kk]).1,
                        pairs@[kk].0,
                    ) implies es@.contains(
                    (PackageNode(pairs@[kk].0), PackageNode(pairs@[kk].1)),
                ) by {
                    if kk == k {
                        assert(es@[before.len() as int] == (PackageNode(e.0), PackageNode(e.1)));
                    } else {
                        assert(before.contains((PackageNode(pairs@[kk].0), PackageNode(
                            pairs@[kk].1,
                        ))));
                        let x = choose|x: int|
                            0 <= x < before.len() && before[x] == (PackageNode(pairs@[kk].0),
                            PackageNode(pairs@[kk].1));
                        assert(es@[x] == (PackageNode(pairs@[kk].0), PackageNode(pairs@[kk].1)));
                    }
                }
            }
        }
        k = k + 1;
    }
    proof {
        if es@.len() == 0 {
            assert(!has_cycle(pairs@));
        } else {
            assert(has_cycle(pairs@)) by {
                assert(edge_in(pairs@, es@[0].0.0, es@[0].1.0));
                let kk = choose|kk: int|
                    0 <= kk < pairs@.len() && #[trigger] pairs@[kk] == (es@[0].0.0, es@[0].1.0);
                assert(reachable(pairs@, pairs@[kk].1, pairs@[kk].0));
            }
        }
    }
    es
}

/// A topological ordering of one group of nodes, dependencies first: the
/// result lists each group member once, and no listed node has an edge to a
/// node listed after it.
#[verifier::rlimit(100)]
fn group_order(n: usize, pairs: &Vec<(usize, usize)>, members: &Vec<bool>) -> (o: Vec<usize>)
    requires
        members@.len() == n,
        forall|k: int|
            0 <= k < pairs@.len() ==> (#[trigger] pairs@[k]).0 < n && pairs@[k].1 < n,
        !has_cycle(pairs@),
    ensures
        forall|i: int| 0 <= i < o@.len() ==> (#[trigger] o@[i]) < n && members@[o@[i] as int],
        forall|i: int, j: int| 0 <= i < j < o@.len() ==> o@[i] != o@[j],
        forall|v: usize| v < n && members@[v as int] ==> o@.contains(v),
        forall|i: int, j: int| 0 <= i < j < o@.len() ==> !edge_in(pairs@, o@[i], o@[j]),
{
    // Keep the edges whose endpoints both lie in the group.
    let mut ge: Vec<(usize, usize)> = Vec::new();
    let mut k: usize = 0;
    while k < pairs.len()
        invariant
            k <= pairs@.len(),
            members@.len() == n,
            forall|kk: int|
                0 <= kk < pairs@.len() ==> (#[trigger] pairs@[kk]).0 < n && pairs@[kk].1 < n,
            forall|m: int|
                0 <= m < ge@.len() ==> exists|kk: int|
                    0 <= kk < pairs@.len() && pairs@[kk] == #[trigger] ge@[m],
            forall|m: int|
                0 <= m < ge@.len() ==> (#[trigger] ge@[m]).0 < n && ge@[m].1 < n
                    && members@[ge@[m].0 as int] && members@[ge@[m].1 as int],
            forall|kk: int|
                0 <= kk < k && members@[(#[trigger] pairs@[kk]).0 as int]
                    && members@[pairs@[kk].1 as int] ==> edge_in(ge@, pairs@[kk].0, pairs@[kk].1),
        decreases pairs@.len() - k,
    {
        let e = pairs[k];
        if members[e.0] && members[e.1] {
            let ghost before = ge@;
            ge.push(e);
            proof {
                assert(ge@[before.len() as int] == e);
                assert(pairs@[k as int] == e);
                assert forall|kk: int|
                    0 <= kk < k + 1 && members@[(#[trigger] pairs@[kk]).0 as int]
                        && members@[pairs@[kk].1 as int] implies edge_in(
                    ge@,
                    pairs@[kk].0,
                    pairs@[kk].1,
                ) by {
                    if kk == k {
                        assert(ge@[before.len() as int] == (pairs@[kk].0, pairs@[kk].1));
                    } else {
                        let m = choose|m: int|
                            0 <= m < before.len() && #[trigger] before[m] == (pairs@[kk].0,
                            pairs@[kk].1);
                        assert(ge@[m] == (pairs@[kk].0, pairs@[kk].1));
                    }
                }
            }
        }
        k = k + 1;
    }
    proof {
        assert forall|x: usize, y: usize| edge_in(ge@, x, y) implies edge_in(pairs@, x, y) by {
            if edge_in(ge@, x, y) {
                let m = choose|m: int| 0 <= m < ge@.len() && #[trigger] ge@[m] == (x, y);
                let kk = choose|kk: int|
                    0 <= kk < pairs@.len() && pairs@[kk] == #[trigger] ge@[m];
                assert(pairs@[kk] == (x, y));
            }
        }
        assert(!has_cycle(ge@)) by {
            if has_cycle(ge@) {
                lemma_cycle_mono(ge@, pairs@);
            }
        }
    }
    let topo = match crate::graph::toposort_pairs(n, &ge) {
        Some(topo) => topo,
        None => {
            proof {
                assert(false);
            }
            Vec::new()
        },
    };
    // Walk the topological order from the back, keeping the group members:
    // dependencies come out first.
    let mut o: Vec<usize> = Vec::new();
    let ghost mut pos: Seq<int> = Seq::empty();
    let mut k: usize = topo.len();
    while k > 0
        invariant
            k <= topo@.len(),
            topo@.len() == n,
            members@.len() == n,
            forall|i: int| 0 <= i < topo@.len() ==> (#[trigger] topo@[i]) < n,
            forall|i: int, j: int| 0 <= i < j < topo@.len() ==> topo@[i] != topo@[j],
            forall|v: usize| v < n ==> topo@.contains(v),
            forall|i: int, j: int|
                0 <= i <= j < topo@.len() ==> !edge_in(ge@, topo@[j], topo@[i]),
            forall|m: int|
                0 <= m < ge@.len() ==> (#[trigger] ge@[m]).0 < n && ge@[m].1 < n,
            forall|kk: int|
                0 <= kk < pairs@.len() && members@[(#[trigger] pairs@[kk]).0 as int]
                    && members@[pairs@[kk].1 as int] ==> edge_in(ge@, pairs@[kk].0, pairs@[kk].1),
            pos.len() == o@.len(),
            forall|i: int| 0 <= i < o@.len() ==> k <= #[trigger] pos[i] < topo@.len(),
            forall|i: int| 0 <= i < o@.len() ==> topo@[#[trigger] pos[i]] == o@[i],
            forall|i: int| 0 <= i < o@.len() ==> (#[trigger] o@[i]) < n && members@[o@[i] as int],
            forall|i: int, j: int| 0 <= i < j < o@.len() ==> pos[i] > pos[j],
            forall|v: usize|
                v < n && members@[v as int] && (exists|p: int|
                    k <= p < topo@.len() && topo@[p] == v) ==> o@.contains(v),
        decreases k,
    {
        k = k - 1;
        if members[topo[k]] {
            let ghost before = o@;
            let ghost pos_before = pos;
            o.push(topo[k]);
            proof {
                pos = pos.push(k as int);
                assert(o@[before.len() as int] == topo@[k as int]);
                assert(pos[before.len() as int] == k as int);
                assert(forall|i: int| 0 <= i < before.len() ==> #[trigger] pos[i] == pos_before[i]);
                assert(forall|i: int| 0 <= i < before.len() ==> #[trigger] o@[i] == before[i]);
                assert forall|v: usize|
                    v < n && members@[v as int] && (exists|p: int|
                        k <= p < topo@.len() && topo@[p] == v) implies o@.contains(v) by {
                    let p = choose|p: int| k <= p < topo@.len() && topo@[p] == v;
                    if p == k {
                        assert(o@[before.len() as int] == v);
                    } else {
                        assert(before.contains(v));
                        let x = choose|x: int| 0 <= x < before.len() && before[x] == v;
                        assert(o@[x] == v);
                    }
                }
            }
        } else {
            proof {
                assert forall|v: usize|
                    v < n && members@[v as int] && (exists|p: int|
                        k <= p < topo@.len() && topo@[p] == v) implies o@.contains(v) by {
                    let p = choose|p: int| k <= p < topo@.len() && topo@[p] == v;
                    if p == k {
                        assert(!members@[topo@[k as int] as int]);
                    } else {
                        assert(exists|p2: int| k + 1 <= p2 < topo@.len() && topo@[p2] == v) by {
                            assert(k + 1 <= p < topo@.len() && topo@[p] == v);
                        }
                    }
                }
            }
        }
    }
    proof {
        assert forall|i: int, j: int| 0 <= i < j < o@.len() implies !edge_in(
            pairs@,
            o@[i],
            o@[j],
        ) by {
            if edge_in(pairs@, o@[i], o@[j]) {
                let kk = choose|kk: int|
                    0 <= kk < pairs@.len() && #[trigger] pairs@[kk] == (o@[i], o@[j]);
                assert(members@[pairs@[kk].0 as int] && members@[pairs@[kk].1 as int]);
                assert(edge_in(ge@, o@[i], o@[j]));
                assert(topo@[pos[i]] == o@[i] && topo@[pos[j]] == o@[j]);
                assert(pos[j] < pos[i]);
                assert(!edge_in(ge@, topo@[pos[i]], topo@[pos[j]]));
            }
        }
        assert forall|v: usize| v < n && members@[v as int] implies o@.contains(v) by {
            assert(topo@.contains(v));
            let p = choose|p: int| 0 <= p < topo@.len() && topo@[p] == v;
        }
        assert forall|i: int, j: int| 0 <= i < j < o@.len() implies o@[i] != o@[j] by {
            assert(topo@[pos[i]] == o@[i]);
            assert(topo@[pos[j]] == o@[j]);
            assert(pos[j] < pos[i]);
            assert(topo@[pos[j]] != topo@[pos[i]]);
        }
    }
    o
}

/// Plan the build: report the cycle-closing edges if there are any; else
/// emit the affected nodes, dependencies first, stratified into the
/// bootstrap-studio closure, the studio closure, and the rest, unless
/// `strict` asks for a single stream.
#[verifier::rlimit(100)]
pub fn plan_build(
    graph: &PackageDependencyGraph,
    updates: &Vec<PackageNodeUpdate>,
    manual: &Vec<PackageNode>,
    studios: &StudioPackages,
    strict: bool,
) -> (r: Result<Vec<PackageNode>, Vec<(PackageNode, PackageNode)>>)
    requires
        graph.wf(),
        forall|u: int|
            0 <= u < updates@.len() ==> (#[trigger] updates@[u]).package.0 < graph.builds().len(),
        forall|m: int| 0 <= m < manual@.len() ==> (#[trigger] manual@[m]).0 < graph.builds().len(),
        studios.studio matches Some(s) ==> s.0 < graph.builds().len(),
        studios.bootstrap_studio matches Some(b) ==> b.0 < graph.builds().len(),
    ensures
        match r {
            Ok(order) => {
                &&& !has_cycle(graph.edge_pairs())
                &&& forall|i: int|
                    0 <= i < order@.len() ==> (#[trigger] order@[i]).0 < graph.builds().len()
                        && is_affected(graph.edge_pairs(), updates@, manual@, order@[i].0)
                &&& forall|i: int, j: int| 0 <= i < j < order@.len() ==> order@[i] != order@[j]
                &&& forall|v: usize|
                    v < graph.builds().len() && is_affected(
                        graph.edge_pairs(),
                        updates@,
                        manual@,
                        v,
                    ) ==> order@.contains(PackageNode(v))
                &&& forall|i: int, j: int|
                    0 <= i < j < order@.len() ==> !edge_in(
                        graph.edge_pairs(),
                        order@[i].0,
                        order@[j].0,
                    )
                &&& !strict ==> forall|i: int, j: int|
                    0 <= i <= j < order@.len() ==> strat_group(
                        graph.edge_pairs(),
                        studios,
                        (#[trigger] order@[i]).0,
                    ) <= strat_group(graph.edge_pairs(), studios, (#[trigger] order@[j]).0)
                &&& updates@.len() == 0 ==> order@.len() == 0
            },
            Err(es) => {
                &&& has_cycle(graph.edge_pairs())
                &&& es@.len() > 0
                &&& forall|x: int|
                    0 <= x < es@.len() ==> edge_in(
                        graph.edge_pairs(),
                        (#[trigger] es@[x]).0.0,
                        es@[x].1.0,
                    ) && reachable(graph.edge_pairs(), es@[x].1.0, es@[x].0.0)
                &&& forall|k: int|
                    0 <= k < graph.edge_pairs().len() && reachable(
                        graph.edge_pairs(),
                        (#[trigger] graph.edge_pairs()[k]).1,
                        graph.edge_pairs()[k].0,
                    ) ==> es@.contains(
                        (
                            PackageNode(graph.edge_pairs()[k].0),
                            PackageNode(graph.edge_pairs()[k].1),
                        ),
                    )
            },
        },
{
    let ghost pairs_g = graph.edge_pairs();
    let n = graph.node_count();
    let pairs = graph.edge_pairs_vec();
    proof {
        assert(forall|k: int|
            0 <= k < pairs@.len() ==> (#[trigger] pairs@[k]).0 < n && pairs@[k].1 < n) by {
            assert(forall|k: int|
                0 <= k < graph.edges().len() ==> (#[trigger] graph.edges()[k]).from < n
                    && graph.edges()[k].to < n);
            assert(forall|k: int|
                0 <= k < pairs@.len() ==> pairs@[k] == (
                    graph.edges()[k].from,
                    graph.edges()[k].to,
                ));
        }
    }
    let es = cycle_edges(n, &pairs);
    if es.len() > 0 {
        return Err(es);
    }
    // The affected set.
    let mut affected: Vec<bool> = Vec::new();
    let mut v: usize = 0;
    while v < n
        invariant
            v <= n,
            n == graph.builds().len(),
            graph.wf(),
            pairs@ == graph.edge_pairs(),
            forall|u: int| 0 <= u < updates@.len() ==> (#[trigger] updates@[u]).package.0 < n,
            forall|m: int| 0 <= m < manual@.len() ==> (#[trigger] manual@[m]).0 < n,
            affected@.len() == v,
            forall|w: int|
                0 <= w < v ==> #[trigger] affected@[w] == is_affected(
                    pairs@,
                    updates@,
                    manual@,
                    w as usize,
                ),
        decreases n - v,
    {
        let mut hit_update = false;
        let ghost mut wit_u: int = 0;
        let mut u: usize = 0;
        while u < updates.len()
            invariant
                v < n,
                n == graph.builds().len(),
                graph.wf(),
                pairs@ == graph.edge_pairs(),
                forall|uu: int| 0 <= uu < updates@.len() ==> (#[trigger] updates@[uu]).package.0 < n,
                u <= updates@.len(),
                hit_update ==> 0 <= wit_u < updates@.len() && reachable(
                    pairs@,
                    v as usize,
                    updates@[wit_u].package.0,
                ),
                !hit_update ==> forall|uu: int|
                    0 <= uu < u ==> !reachable(
                        pairs@,
                        v as usize,
                        (#[trigger] updates@[uu]).package.0,
                    ),
            decreases updates@.len() - u,
        {
            if crate::graph::pair_connected(n, &pairs, v, updates[u].package.0) {
                hit_update = true;
                proof {
                    wit_u = u as int;
                }
            }
            u = u + 1;
        }
        let mut hit_manual = manual.len() == 0;
        let ghost mut wit_m: int = 0;
        let mut m: usize = 0;
        while m < manual.len()
            invariant
                v < n,
                n == graph.builds().len(),
                graph.wf(),
                pairs@ == graph.edge_pairs(),
                forall|mm: int| 0 <= mm < manual@.len() ==> (#[trigger] manual@[mm]).0 < n,
                m <= manual@.len(),
                manual@.len() == 0 ==> hit_manual,
                hit_manual ==> manual@.len() == 0 || (0 <= wit_m < manual@.len() && reachable(
                    pairs@,
                    v as usize,
                    manual@[wit_m].0,
                )),
                !hit_manual ==> forall|mm: int|
                    0 <= mm < m ==> !reachable(pairs@, v as usize, (#[trigger] manual@[mm]).0),
            decreases manual@.len() - m,
        {
            if crate::graph::pair_connected(n, &pairs, v, manual[m].0) {
                hit_manual = true;
                proof {
                    wit_m = m as int;
                }
            }
            m = m + 1;
        }
        proof {
            if hit_update && hit_manual {
                assert(exists|u2: int|
                    0 <= u2 < updates@.len() && reachable(
                        pairs@,
                        v as usize,
                        (#[trigger] updates@[u2]).package.0,
                    )) by {
                    assert(0 <= wit_u < updates@.len() && reachable(
                        pairs@,
                        v as usize,
                        updates@[wit_u].package.0,
                    ));
                }
                if manual@.len() > 0 {
                    assert(exists|m2: int|
                        0 <= m2 < manual@.len() && reachable(
                            pairs@,
                            v as usize,
                            (#[trigger] manual@[m2]).0,
                        )) by {
                        assert(0 <= wit_m < manual@.len() && reachable(
                            pairs@,
                            v as usize,
                            manual@[wit_m].0,
                        ));
                    }
                }
                assert(is_affected(pairs@, updates@, manual@, v as usize));
            } else {
                assert(!is_affected(pairs@, updates@, manual@, v as usize)) by {
                    if is_affected(pairs@, updates@, manual@, v as usize) {
                        if !hit_update {
                            let u2 = choose|u2: int|
                                0 <= u2 < updates@.len() && reachable(
                                    pairs@,
                                    v as usize,
                                    (#[trigger] updates@[u2]).package.0,
                                );
                            assert(!reachable(pairs@, v as usize, updates@[u2].package.0));
                        } else {
                            assert(!hit_manual);
                            assert(manual@.len() > 0);
                            let m2 = choose|m2: int|
                                0 <= m2 < manual@.len() && reachable(
                                    pairs@,
                                    v as usize,
                                    (#[trigger] manual@[m2]).0,
                                );
                            assert(!reachable(pairs@, v as usize, manual@[m2].0));
                        }
                    }
                }
            }
            assert((hit_update && hit_manual) == is_affected(
                pairs@,
                updates@,
                manual@,
                v as usize,
            ));
        }
        affected.push(hit_update && hit_manual);
        v = v + 1;
    }
    let order_usize = if strict {
        group_order(n, &pairs, &affected)
    } else {
        // Stratify: bootstrap-studio closure, studio closure, the rest.
        let mut m0: Vec<bool> = Vec::new();
        let mut m1: Vec<bool> = Vec::new();
        let mut m2: Vec<bool> = Vec::new();
        let mut v: usize = 0;
        while v < n
            invariant
                v <= n,
                n == graph.builds().len(),
                graph.wf(),
                pairs@ == graph.edge_pairs(),
                affected@.len() == n,
                studios.studio matches Some(s) ==> s.0 < n,
                studios.bootstrap_studio matches Some(b) ==> b.0 < n,
                m0@.len() == v && m1@.len() == v && m2@.len() == v,
                forall|w: int|
                    0 <= w < v ==> #[trigger] m0@[w] == (affected@[w] && in_closure(
                        pairs@,
                        studios.bootstrap_studio,
                        w as usize,
                    )),
                forall|w: int|
                    0 <= w < v ==> #[trigger] m1@[w] == (affected@[w] && !in_closure(
                        pairs@,
                        studios.bootstrap_studio,
                        w as usize,
                    ) && in_closure(pairs@, studios.studio, w as usize)),
                forall|w: int|
                    0 <= w < v ==> #[trigger] m2@[w] == (affected@[w] && !in_closure(
                        pairs@,
                        studios.bootstrap_studio,
                        w as usize,
                    ) && !in_closure(pairs@, studios.studio, w as usize)),
            decreases n - v,
        {
            let in_bs = match &studios.bootstrap_studio {
                Some(b) => crate::graph::pair_connected(n, &pairs, b.0, v),
                None => false,
            };
            let in_s = match &studios.studio {
                Some(s) => crate::graph::pair_connected(n, &pairs, s.0, v),
                None => false,
            };
            let aff = affected[v];
            m0.push(aff && in_bs);
            m1.push(aff && !in_bs && in_s);
            m2.push(aff && !in_bs && !in_s);
            v = v + 1;
        }
        let o0 = group_order(n, &pairs, &m0);
        let o1 = group_order(n, &pairs, &m1);
        let o2 = group_order(n, &pairs, &m2);
        let ghost l0 = o0@.len() as int;
        let ghost l1 = o1@.len() as int;
        let mut order = o0;
        let mut rest = o1;
        order.append(&mut rest);
        let mut rest2 = o2;
        order.append(&mut rest2);
        proof {
            assert forall|i: int, j: int| 0 <= i < j < order@.len() implies !edge_in(
                pairs@,
                order@[i],
                order@[j],
            ) by {
                if edge_in(pairs@, order@[i], order@[j]) {
                    let x = order@[i];
                    let y = order@[j];
                    if i < l0 {
                        assert(m0@[x as int]);
                        let b = studios.bootstrap_studio->Some_0;
                        if j < l0 {
                        } else {
                            lemma_reachable_step(pairs@, b.0, x, y);
                            if j < l0 + l1 {
                                assert(m1@[y as int]);
                            } else {
                                assert(m2@[y as int]);
                            }
                        }
                    } else if i < l0 + l1 {
                        assert(m1@[x as int]);
                        if j < l0 + l1 {
                        } else {
                            let s = studios.studio->Some_0;
                            lemma_reachable_step(pairs@, s.0, x, y);
                            assert(m2@[y as int]);
                        }
                    } else {
                        assert(m2@[x as int] && m2@[y as int]);
                    }
                }
            }
            assert forall|w: usize|
                w < n && is_affected(pairs@, updates@, manual@, w) implies order@.contains(w) by {
                assert(affected@[w as int]);
                if m0@[w as int] {
                    let x = choose|x: int| 0 <= x < o0@.len() && o0@[x] == w;
                    assert(order@[x] == w);
                } else if m1@[w as int] {
                    let x = choose|x: int| 0 <= x < o1@.len() && o1@[x] == w;
                    assert(order@[l0 + x] == w);
                } else {
                    assert(m2@[w as int]);
                    let x = choose|x: int| 0 <= x < o2@.len() && o2@[x] == w;
                    assert(order@[l0 + l1 + x] == w);
                }
            }
            assert forall|i: int, j: int| 0 <= i < j < order@.len() implies order@[i]
                != order@[j] by {
                if order@[i] == order@[j] {
                    let x = order@[i];
                    if i < l0 {
                        assert(m0@[x as int]);
                        if j >= l0 {
                            assert(!m0@[x as int]);
                        }
                    } else if i < l0 + l1 {
                        assert(m1@[x as int]);
                        if j >= l0 + l1 {
                            assert(!m1@[x as int]);
                        }
                    }
                }
            }
            assert forall|x: int|
                0 <= x < order@.len() implies strat_group(
                pairs@,
                studios,
                #[trigger] order@[x],
            ) == (if x < l0 {
                0int
            } else if x < l0 + l1 {
                1int
            } else {
                2int
            }) by {
                let v = order@[x];
                if x < l0 {
                    assert(m0@[v as int]);
                } else if x < l0 + l1 {
                    assert(m1@[v as int]);
                } else {
                    assert(m2@[v as int]);
                }
            }
        }
        order
    };
    // Wrap the node indices.
    let mut order: Vec<PackageNode> = Vec::new();
    let mut k: usize = 0;
    while k < order_usize.len()
        invariant
            k <= order_usize@.len(),
            order@.len() == k,
            forall|i: int| 0 <= i < k ==> (#[trigger] order@[i]).0 == order_usize@[i],
        decreases order_usize@.len() - k,
    {
        order.push(PackageNode(order_usize[k]));
        k = k + 1;
    }
    proof {
        if updates@.len() == 0 {
            assert forall|w: usize| w < n implies !is_affected(pairs@, updates@, manual@, w) by {}
            if order@.len() > 0 {
                assert(is_affected(pairs@, updates@, manual@, order@[0].0));
            }
        }
        assert forall|w: usize|
            w < graph.builds().len() && is_affected(pairs_g, updates@, manual@, w) implies
            order@.contains(PackageNode(w)) by {
            assert(order_usize@.contains(w));
            let x = choose|x: int| 0 <= x < order_usize@.len() && order_usize@[x] == w;
            assert(order@[x] == PackageNode(w));
        }
    }
    Ok(order)
}

/// The nodes an analysis selects: with no selection, every node; otherwise
/// the dependency closure of the selected nodes or, for a reverse analysis,
/// the nodes that depend on a selected node. The result flags each node.
pub fn analysis_members(
    graph: &PackageDependencyGraph,
    selected: &Vec<PackageNode>,
    reverse: bool,
) -> (r: Vec<bool>)
    requires
        graph.wf(),
        forall|m: int| 0 <= m < selected@.len() ==> (#[trigger] selected@[m]).0 < graph.builds().len(),
    ensures
        r@.len() == graph.builds().len(),
        forall|v: int|
            0 <= v < r@.len() ==> #[trigger] r@[v] == (selected@.len() == 0 || exists|m: int|
                0 <= m < selected@.len() && (if reverse {
                    reachable(graph.edge_pairs(), v as usize, (#[trigger] selected@[m]).0)
                } else {
                    reachable(graph.edge_pairs(), (#[trigger] selected@[m]).0, v as usize)
                })),
{
    let n = graph.node_count();
    let pairs = graph.edge_pairs_vec();
    proof {
        assert(forall|k: int|
            0 <= k < pairs@.len() ==> (#[trigger] pairs@[k]).0 < n && pairs@[k].1 < n) by {
            assert(forall|k: int|
                0 <= k < graph.edges().len() ==> (#[trigger] graph.edges()[k]).from < n
                    && graph.edges()[k].to < n);
            assert(forall|k: int|
                0 <= k < pairs@.len() ==> pairs@[k] == (
                    graph.edges()[k].from,
                    graph.edges()[k].to,
                ));
        }
    }
    let mut r: Vec<bool> = Vec::new();
    let mut v: usize = 0;
    while v < n
        invariant
            v <= n,
            n == graph.builds().len(),
            graph.wf(),
            pairs@ == graph.edge_pairs(),
            forall|k: int|
                0 <= k < pairs@.len() ==> (#[trigger] pairs@[k]).0 < n && pairs@[k].1 < n,
            forall|m: int| 0 <= m < selected@.len() ==> (#[trigger] selected@[m]).0 < n,
            r@.len() == v,
            forall|w: int|
                0 <= w < v ==> #[trigger] r@[w] == (selected@.len() == 0 || exists|m: int|
                    0 <= m < selected@.len() && (if reverse {
                        reachable(pairs@, w as usize, (#[trigger] selected@[m]).0)
                    } else {
                        reachable(pairs@, (#[trigger] selected@[m]).0, w as usize)
                    })),
        decreases n - v,
    {
        let mut hit = selected.len() == 0;
        let ghost mut wit: int = 0;
        let mut m: usize = 0;
        while m < selected.len()
            invariant
                v < n,
                n == graph.builds().len(),
                pairs@ == graph.edge_pairs(),
                forall|k: int|
                    0 <= k < pairs@.len() ==> (#[trigger] pairs@[k]).0 < n && pairs@[k].1 < n,
                forall|mm: int| 0 <= mm < selected@.len() ==> (#[trigger] selected@[mm]).0 < n,
                m <= selected@.len(),
                selected@.len() == 0 ==> hit,
                hit ==> selected@.len() == 0 || (0 <= wit < selected@.len() && (if reverse {
                    reachable(pairs@, v as usize, selected@[wit].0)
                } else {
                    reachable(pairs@, selected@[wit].0, v as usize)
                })),
                !hit ==> forall|mm: int|
                    0 <= mm < m ==> !(if reverse {
                        reachable(pairs@, v as usize, (#[trigger] selected@[mm]).0)
                    } else {
                        reachable(pairs@, (#[trigger] selected@[mm]).0, v as usize)
                    }),
            decreases selected@.len() - m,
        {
            let connected = if reverse {
                crate::graph::pair_connected(n, &pairs, v, selected[m].0)
            } else {
                crate::graph::pair_connected(n, &pairs, selected[m].0, v)
            };
            if connected {
                hit = true;
                proof {
                    wit = m as int;
                }
            }
            m = m + 1;
        }
        proof {
            if hit && selected@.len() > 0 {
                if reverse {
                    assert(exists|mm: int|
                        0 <= mm < selected@.len() && reachable(
                            pairs@,
                            v as usize,
                            (#[trigger] selected@[mm]).0,
                        )) by {
                        assert(reachable(pairs@, v as usize, selected@[wit].0));
                    }
                } else {
                    assert(exists|mm: int|
                        0 <= mm < selected@.len() && reachable(
                            pairs@,
                            (#[trigger] selected@[mm]).0,
                            v as usize,
                        )) by {
                        assert(reachable(pairs@, selected@[wit].0, v as usize));
                    }
                }
            }
        }
        r.push(hit);
        v = v + 1;
    }
    r
}

} // verus!
