//! The dependency graph: one node per buildable package, typed edges for
//! runtime, build and studio dependencies, reachability, dependency
//! resolution, and studio-class assignment.

use vstd::prelude::*;

use crate::ident::{build_ident_lt, lemma_build_ident_lt_trans, PackageDepIdent};
use crate::plan::{PackageBuild, PackageStudioType, PackageType, UpdateCause};

verus! {

/// The label of a dependency edge.
#[derive(Debug, Clone, Copy, PartialEq, Eq, Structural)]
pub enum DependencyType {
    Runtime,
    Build,
    Studio,
}

/// One directed edge: `from` depends on `to`.
#[derive(Debug, Clone, Copy, PartialEq, Eq, Structural)]
pub struct DepEdge {
    pub from: usize,
    pub to: usize,
    pub kind: DependencyType,
}

/// Whether the pair `(a, b)` occurs among the edges.
pub open spec fn edge_in(edges: Seq<(usize, usize)>, a: usize, b: usize) -> bool {
    exists|k: int| 0 <= k < edges.len() && #[trigger] edges[k] == (a, b)
}

/// Whether consecutive elements of `p` are all edges.
pub open spec fn is_path(p: Seq<usize>, edges: Seq<(usize, usize)>) -> bool {
    forall|i: int| 0 <= i < p.len() - 1 ==> edge_in(edges, #[trigger] p[i], p[i + 1])
}

/// Whether some path leads from `a` to `b`; a node reaches itself.
pub open spec fn reachable(edges: Seq<(usize, usize)>, a: usize, b: usize) -> bool {
    exists|p: Seq<usize>|
        p.len() >= 1 && p[0] == a && p[p.len() - 1] == b && #[trigger] is_path(p, edges)
}

/// Whether some edge closes a cycle.
pub open spec fn has_cycle(edges: Seq<(usize, usize)>) -> bool {
    exists|k: int|
        0 <= k < edges.len() && reachable(edges, (#[trigger] edges[k]).1, edges[k].0)
}

/// Every node reaches itself.
pub proof fn lemma_reachable_refl(edges: Seq<(usize, usize)>, a: usize)
    ensures
        reachable(edges, a, a),
{
    let p = seq![a];
    assert(is_path(p, edges));
    assert(p[0] == a && p[p.len() - 1] == a);
}

/// Reachability extends along an edge.
pub proof fn lemma_reachable_step(edges: Seq<(usize, usize)>, x: usize, a: usize, b: usize)
    requires
        reachable(edges, x, a),
        edge_in(edges, a, b),
    ensures
        reachable(edges, x, b),
{
    let p = choose|p: Seq<usize>|
        p.len() >= 1 && p[0] == x && p[p.len() - 1] == a && #[trigger] is_path(p, edges);
    let q = p.push(b);
    assert(is_path(q, edges)) by {
        assert forall|i: int| 0 <= i < q.len() - 1 implies edge_in(edges, #[trigger] q[i], q[i + 1]) by {
            if i < p.len() - 1 {
                assert(q[i] == p[i] && q[i + 1] == p[i + 1]);
            } else {
                assert(q[i] == a && q[i + 1] == b);
            }
        }
    }
    assert(q[0] == x && q[q.len() - 1] == b);
}

/// An edge is a path.
pub proof fn lemma_edge_reachable(edges: Seq<(usize, usize)>, a: usize, b: usize)
    requires
        edge_in(edges, a, b),
    ensures
        reachable(edges, a, b),
{
    lemma_reachable_refl(edges, a);
    lemma_reachable_step(edges, a, a, b);
}

/// Reachability only grows when edges are added.
pub proof fn lemma_reachable_mono(
    sub: Seq<(usize, usize)>,
    sup: Seq<(usize, usize)>,
    a: usize,
    b: usize,
)
    requires
        forall|x: usize, y: usize| edge_in(sub, x, y) ==> edge_in(sup, x, y),
        reachable(sub, a, b),
    ensures
        reachable(sup, a, b),
{
    let p = choose|p: Seq<usize>|
        p.len() >= 1 && p[0] == a && p[p.len() - 1] == b && #[trigger] is_path(p, sub);
    assert(is_path(p, sup)) by {
        assert forall|i: int| 0 <= i < p.len() - 1 implies edge_in(sup, #[trigger] p[i], p[i + 1]) by {
            assert(edge_in(sub, p[i], p[i + 1]));
        }
    }
}

/// A cycle among fewer edges is a cycle among more.
pub proof fn lemma_cycle_mono(sub: Seq<(usize, usize)>, sup: Seq<(usize, usize)>)
    requires
        forall|x: usize, y: usize| edge_in(sub, x, y) ==> edge_in(sup, x, y),
        has_cycle(sub),
    ensures
        has_cycle(sup),
{
    let k = choose|k: int|
        0 <= k < sub.len() && reachable(sub, (#[trigger] sub[k]).1, sub[k].0);
    let a = sub[k].0;
    let b = sub[k].1;
    lemma_reachable_mono(sub, sup, b, a);
    assert(edge_in(sub, a, b));
    assert(edge_in(sup, a, b));
    let m = choose|m: int| 0 <= m < sup.len() && #[trigger] sup[m] == (a, b);
    assert(reachable(sup, (sup[m]).1, sup[m].0));
}

/// Relies on petgraph::algo::has_path_connecting: true exactly when a path
/// leads from `a` to `b` in the directed graph with `n` nodes and the given
/// edges, or `a` equals `b`. The graph carries machine-word node indices, so
/// building it stays below petgraph's index capacity for any node or edge
/// count that fits in memory.
#[verifier::external_body]
pub(crate) fn pair_connected(n: usize, edges: &Vec<(usize, usize)>, a: usize, b: usize) -> (r: bool)
    requires
        a < n,
        b < n,
        forall|k: int| 0 <= k < edges@.len() ==> (#[trigger] edges@[k]).0 < n && edges@[k].1 < n,
    ensures
        r == reachable(edges@, a, b),
{
    let mut g = petgraph::graph::Graph::<(), (), petgraph::Directed, usize>::default();
    for _i in 0..n {
        g.add_node(());
    }
    for e in edges.iter() {
        g.add_edge(petgraph::graph::NodeIndex::new(e.0), petgraph::graph::NodeIndex::new(e.1), ());
    }
    let from = petgraph::graph::NodeIndex::new(a);
    petgraph::algo::has_path_connecting(&g, from, petgraph::graph::NodeIndex::new(b), None)
}

/// Relies on petgraph::algo::toposort: on an acyclic graph, an order of all
/// `n` nodes in which every node comes before its successors; on a cyclic
/// graph, an error. The graph carries machine-word node indices, so building
/// it stays below petgraph's index capacity for any node or edge count that
/// fits in memory.
#[verifier::external_body]
pub(crate) fn toposort_pairs(n: usize, edges: &Vec<(usize, usize)>) -> (r: Option<Vec<usize>>)
    requires
        forall|k: int| 0 <= k < edges@.len() ==> (#[trigger] edges@[k]).0 < n && edges@[k].1 < n,
    ensures
        match r {
            Some(order) => {
                &&& order@.len() == n
                &&& forall|i: int, j: int|
                    0 <= i < j < order@.len() ==> order@[i] != order@[j]
                &&& forall|v: usize| v < n ==> order@.contains(v)
                &&& forall|i: int| 0 <= i < order@.len() ==> (#[trigger] order@[i]) < n
                &&& forall|i: int, j: int|
                    0 <= i <= j < order@.len() ==> !edge_in(edges@, order@[j], order@[i])
                &&& !has_cycle(edges@)
            },
            None => has_cycle(edges@),
        },
{
    let mut g = petgraph::graph::Graph::<(), (), petgraph::Directed, usize>::default();
    for _i in 0..n {
        g.add_node(());
    }
    for e in edges.iter() {
        g.add_edge(petgraph::graph::NodeIndex::new(e.0), petgraph::graph::NodeIndex::new(e.1), ());
    }
    match petgraph::algo::toposort(&g, None) {
        Ok(order) => Some(order.into_iter().map(|x| x.index()).collect()),
        Err(_) => None,
    }
}

/// A node of the dependency graph, as an index into its node list.
#[derive(Debug, Clone, Copy, PartialEq, Eq, Structural)]
pub struct PackageNode(pub usize);

/// Two builds collide when they share origin, name, version and target.
pub open spec fn same_build_ident(a: &PackageBuild, b: &PackageBuild) -> bool {
    a.plan.ident.origin@ == b.plan.ident.origin@ && a.plan.ident.name@ == b.plan.ident.name@
        && a.plan.ident.version@ == b.plan.ident.version@ && a.plan.ident.target
        == b.plan.ident.target
}

/// Whether a pattern resolves to index `j` of the node list: the pattern
/// matches it, and no other matching node has a strictly greater build
/// identifier.
pub open spec fn resolves_in(builds: Seq<PackageBuild>, dep: &PackageDepIdent, j: int) -> bool {
    &&& 0 <= j < builds.len()
    &&& dep.spec_matches_build(&builds[j].plan.ident)
    &&& forall|m: int|
        0 <= m < builds.len() && dep.spec_matches_build(
            &(#[trigger] builds[m]).plan.ident,
        ) ==> !build_ident_lt(&builds[j].plan.ident, &builds[m].plan.ident)
}

/// The directed dependency multigraph over the discovered packages.
#[derive(Debug, Clone)]
pub struct PackageDependencyGraph {
    builds: Vec<PackageBuild>,
    edges: Vec<DepEdge>,
}

impl PackageDependencyGraph {
    /// The nodes of the graph, in insertion order.
    pub closed spec fn builds(&self) -> Seq<PackageBuild> {
        self.builds@
    }

    /// The edges of the graph, in insertion order.
    pub closed spec fn edges(&self) -> Seq<DepEdge> {
        self.edges@
    }

    /// The edges as plain pairs.
    pub open spec fn edge_pairs(&self) -> Seq<(usize, usize)> {
        Seq::new(self.edges().len(), |k: int| (self.edges()[k].from, self.edges()[k].to))
    }

    /// The non-studio edges as plain pairs: the dependency structure proper.
    pub open spec fn dep_pairs(&self) -> Seq<(usize, usize)> {
        self.edges().filter(non_studio_pred()).map_values(edge_pair_fn())
    }

    /// Well-formed: edges stay in range and no two nodes collide.
    pub open spec fn wf(&self) -> bool {
        &&& forall|k: int|
            0 <= k < self.edges().len() ==> (#[trigger] self.edges()[k]).from
                < self.builds().len() && self.edges()[k].to < self.builds().len()
        &&& forall|i: int, j: int|
            0 <= i < j < self.builds().len() ==> !same_build_ident(
                &self.builds()[i],
                &self.builds()[j],
            )
    }

    /// An empty graph.
    pub fn new() -> (g: PackageDependencyGraph)
        ensures
            g.builds().len() == 0,
            g.edges().len() == 0,
            g.wf(),
    {
        PackageDependencyGraph { builds: Vec::new(), edges: Vec::new() }
    }

    /// The number of nodes.
    pub fn node_count(&self) -> (r: usize)
        ensures
            r == self.builds().len(),
    {
        self.builds.len()
    }

    /// The number of edges.
    pub fn edge_count(&self) -> (r: usize)
        ensures
            r == self.edges().len(),
    {
        self.edges.len()
    }

    /// The package at a node.
    pub fn package(&self, node: &PackageNode) -> (r: &PackageBuild)
        requires
            node.0 < self.builds().len(),
        ensures
            *r == self.builds()[node.0 as int],
    {
        &self.builds[node.0]
    }

    /// The edge at an index.
    pub fn edge(&self, k: usize) -> (r: DepEdge)
        requires
            k < self.edges().len(),
        ensures
            r == self.edges()[k as int],
    {
        self.edges[k]
    }

    /// Insert one package; a package colliding with a present node is
    /// rejected, so that no two nodes ever share origin, name, version and
    /// target.
    pub fn add_package(&mut self, build: PackageBuild) -> (r: Result<PackageNode, PackageNode>)
        requires
            old(self).wf(),
        ensures
            match r {
                Ok(node) => {
                    &&& final(self).builds() == old(self).builds().push(build)
                    &&& final(self).edges() == old(self).edges()
                    &&& node.0 == old(self).builds().len()
                    &&& final(self).wf()
                    &&& forall|j: int|
                        0 <= j < old(self).builds().len() ==> !same_build_ident(
                            &old(self).builds()[j],
                            &build,
                        )
                },
                Err(node) => {
                    &&& *final(self) == *old(self)
                    &&& node.0 < old(self).builds().len()
                    &&& same_build_ident(&old(self).builds()[node.0 as int], &build)
                },
            },
    {
        let mut i: usize = 0;
        while i < self.builds.len()
            invariant
                i <= self.builds().len(),
                forall|j: int|
                    0 <= j < i ==> !same_build_ident(&old(self).builds()[j], &build),
                self == old(self),
            decreases self.builds().len() - i,
        {
            let e = &self.builds[i];
            if crate::strutil::str_eq(
                e.plan.ident.origin.as_str(),
                build.plan.ident.origin.as_str(),
            ) && crate::strutil::str_eq(e.plan.ident.name.as_str(), build.plan.ident.name.as_str())
                && crate::strutil::str_eq(
                e.plan.ident.version.as_str(),
                build.plan.ident.version.as_str(),
            ) && e.plan.ident.target == build.plan.ident.target {
                return Err(PackageNode(i));
            }
            i = i + 1;
        }
        let node = PackageNode(self.builds.len());
        self.builds.push(build);
        proof {
            assert(final(self).wf()) by {
                assert forall|a: int, b: int|
                    0 <= a < b < final(self).builds().len() implies !same_build_ident(
                    &final(self).builds()[a],
                    &final(self).builds()[b],
                ) by {
                    if b < old(self).builds().len() {
                        assert(!same_build_ident(&old(self).builds()[a], &old(self).builds()[b]));
                    } else {
                        assert(!same_build_ident(&old(self).builds()[a], &build));
                    }
                }
            }
        }
        Ok(node)
    }

    /// Add one labelled edge.
    fn add_edge(&mut self, source: PackageNode, target: PackageNode, kind: DependencyType)
        requires
            old(self).wf(),
            source.0 < old(self).builds().len(),
            target.0 < old(self).builds().len(),
        ensures
            final(self).builds() == old(self).builds(),
            final(self).edges() == old(self).edges().push(
                DepEdge { from: source.0, to: target.0, kind },
            ),
            final(self).wf(),
    {
        self.edges.push(DepEdge { from: source.0, to: target.0, kind });
    }

    /// Add a runtime dependency edge.
    pub fn add_runtime_dependency(&mut self, source: PackageNode, target: PackageNode)
        requires
            old(self).wf(),
            source.0 < old(self).builds().len(),
            target.0 < old(self).builds().len(),
        ensures
            final(self).builds() == old(self).builds(),
            final(self).edges() == old(self).edges().push(
                DepEdge { from: source.0, to: target.0, kind: DependencyType::Runtime },
            ),
            final(self).wf(),
    {
        self.add_edge(source, target, DependencyType::Runtime);
    }

    /// Add a build dependency edge.
    pub fn add_build_dependency(&mut self, source: PackageNode, target: PackageNode)
        requires
            old(self).wf(),
            source.0 < old(self).builds().len(),
            target.0 < old(self).builds().len(),
        ensures
            final(self).builds() == old(self).builds(),
            final(self).edges() == old(self).edges().push(
                DepEdge { from: source.0, to: target.0, kind: DependencyType::Build },
            ),
            final(self).wf(),
    {
        self.add_edge(source, target, DependencyType::Build);
    }

    /// Add a studio dependency edge.
    pub fn add_studio_dependency(&mut self, source: PackageNode, target: PackageNode)
        requires
            old(self).wf(),
            source.0 < old(self).builds().len(),
            target.0 < old(self).builds().len(),
        ensures
            final(self).builds() == old(self).builds(),
            final(self).edges() == old(self).edges().push(
                DepEdge { from: source.0, to: target.0, kind: DependencyType::Studio },
            ),
            final(self).wf(),
    {
        self.add_edge(source, target, DependencyType::Studio);
    }

    /// The edges as a vector of pairs.
    pub fn edge_pairs_vec(&self) -> (r: Vec<(usize, usize)>)
        ensures
            r@ == self.edge_pairs(),
    {
        let mut out: Vec<(usize, usize)> = Vec::new();
        let mut k: usize = 0;
        while k < self.edges.len()
            invariant
                k <= self.edges().len(),
                out@.len() == k,
                forall|j: int|
                    0 <= j < k ==> out@[j] == (self.edges()[j].from, self.edges()[j].to),
            decreases self.edges().len() - k,
        {
            let e = self.edges[k];
            out.push((e.from, e.to));
            k = k + 1;
        }
        proof {
            assert(out@ =~= self.edge_pairs());
        }
        out
    }

    /// Whether a pattern resolves to node `j`: the pattern matches it, and no
    /// other matching node has a strictly greater build identifier.
    pub open spec fn resolves_to(&self, dep: &PackageDepIdent, j: int) -> bool {
        resolves_in(self.builds(), dep, j)
    }

    /// Resolve a dependency pattern to the best matching node: one with a
    /// maximal build identifier among the matches.
    pub fn best_match(&self, dep: &PackageDepIdent) -> (r: Option<PackageNode>)
        ensures
            match r {
                Some(node) => self.resolves_to(dep, node.0 as int),
                None => forall|m: int|
                    0 <= m < self.builds().len() ==> !dep.spec_matches_build(
                        &(#[trigger] self.builds()[m]).plan.ident,
                    ),
            },
    {
        let mut best: Option<usize> = None;
        let mut i: usize = 0;
        while i < self.builds.len()
            invariant
                i <= self.builds().len(),
                match best {
                    Some(b) => b < i && dep.spec_matches_build(&self.builds()[b as int].plan.ident)
                        && forall|m: int|
                        0 <= m < i && dep.spec_matches_build(
                            &(#[trigger] self.builds()[m]).plan.ident,
                        ) ==> !build_ident_lt(
                            &self.builds()[b as int].plan.ident,
                            &self.builds()[m].plan.ident,
                        ),
                    None => forall|m: int|
                        0 <= m < i ==> !dep.spec_matches_build(
                            &(#[trigger] self.builds()[m]).plan.ident,
                        ),
                },
            decreases self.builds().len() - i,
    {
            if dep.matches_build(&self.builds[i].plan.ident) {
                match best {
                    Some(b) => {
                        if self.builds[i].plan.ident.gt(&self.builds[b].plan.ident) {
                            proof {
                                assert forall|m: int|
                                    0 <= m < i + 1 && dep.spec_matches_build(
                                        &(#[trigger] self.builds()[m]).plan.ident,
                                    ) implies !build_ident_lt(
                                    &self.builds()[i as int].plan.ident,
                                    &self.builds()[m].plan.ident,
                                ) by {
                                    if m == i {
                                        crate::ident::lemma_build_ident_lt_irrefl(
                                            &self.builds()[i as int].plan.ident,
                                        );
                                    } else if build_ident_lt(
                                        &self.builds()[i as int].plan.ident,
                                        &self.builds()[m].plan.ident,
                                    ) {
                                        lemma_build_ident_lt_trans(
                                            &self.builds()[b as int].plan.ident,
                                            &self.builds()[i as int].plan.ident,
                                            &self.builds()[m].plan.ident,
                                        );
                                    }
                                }
                            }
                            best = Some(i);
                        }
                    },
                    None => {
                        proof {
                            crate::ident::lemma_build_ident_lt_irrefl(
                                &self.builds()[i as int].plan.ident,
                            );
                        }
                        best = Some(i);
                    },
                }
            }
            i = i + 1;
        }
        match best {
            Some(b) => Some(PackageNode(b)),
            None => None,
        }
    }
}

impl PackageNode {
    /// Whether this node is a (transitive) dependency of `other`: a path of
    /// edges leads from `other` to this node.
    pub fn is_dependency_of(&self, graph: &PackageDependencyGraph, other: &PackageNode) -> (r:
        bool)
        requires
            graph.wf(),
            self.0 < graph.builds().len(),
            other.0 < graph.builds().len(),
        ensures
            r == reachable(graph.edge_pairs(), other.0, self.0),
    {
        let pairs = graph.edge_pairs_vec();
        pair_connected(graph.node_count(), &pairs, other.0, self.0)
    }

    /// Whether this node (transitively) depends on `other`: a path of edges
    /// leads from this node to `other`.
    pub fn is_reverse_dependency_of(
        &self,
        graph: &PackageDependencyGraph,
        other: &PackageNode,
    ) -> (r: bool)
        requires
            graph.wf(),
            self.0 < graph.builds().len(),
            other.0 < graph.builds().len(),
        ensures
            r == reachable(graph.edge_pairs(), self.0, other.0),
    {
        let pairs = graph.edge_pairs_vec();
        pair_connected(graph.node_count(), &pairs, self.0, other.0)
    }
}

/// Whether an edge is part of the dependency structure proper, rather than
/// an added studio edge.
pub open spec fn non_studio(e: DepEdge) -> bool {
    !(e.kind is Studio)
}

/// The non-studio test as a function value, shared by every use of it.
pub open spec fn non_studio_pred() -> spec_fn(DepEdge) -> bool {
    |e: DepEdge| non_studio(e)
}

/// The projection of an edge to its node pair, as a shared function value.
pub open spec fn edge_pair_fn() -> spec_fn(DepEdge) -> (usize, usize) {
    |e: DepEdge| (e.from, e.to)
}

/// Filtering a sequence of non-studio edges keeps it unchanged.
pub proof fn lemma_filter_non_studio_all(edges: Seq<DepEdge>)
    requires
        forall|k: int| 0 <= k < edges.len() ==> non_studio(#[trigger] edges[k]),
    ensures
        edges.filter(non_studio_pred()) == edges,
    decreases edges.len(),
{
    reveal(Seq::filter);
    if edges.len() == 0 {
        assert(edges.filter(non_studio_pred()) =~= edges);
    } else {
        let head = edges.drop_last();
        assert(forall|k: int| 0 <= k < head.len() ==> non_studio(#[trigger] head[k])) by {
            assert(forall|k: int| 0 <= k < head.len() ==> head[k] == edges[k]);
        }
        lemma_filter_non_studio_all(head);
        assert(non_studio_pred()(edges.last()));
        assert(edges.filter(non_studio_pred()) == head.filter(non_studio_pred()).push(
            edges.last(),
        ));
        assert(edges.filter(non_studio_pred()) =~= edges);
    }
}

/// Appending studio edges does not change the filtered dependency edges.
pub proof fn lemma_filter_studio_suffix(edges: Seq<DepEdge>, extra: Seq<DepEdge>)
    requires
        forall|k: int| 0 <= k < extra.len() ==> (#[trigger] extra[k]).kind is Studio,
    ensures
        (edges + extra).filter(non_studio_pred()) == edges.filter(non_studio_pred()),
    decreases extra.len(),
{
    reveal(Seq::filter);
    if extra.len() == 0 {
        assert(edges + extra =~= edges);
    } else {
        let head = extra.drop_last();
        assert(forall|k: int| 0 <= k < head.len() ==> (#[trigger] head[k]).kind is Studio) by {
            assert(forall|k: int| 0 <= k < head.len() ==> head[k] == extra[k]);
        }
        lemma_filter_studio_suffix(edges, head);
        let s = edges + extra;
        assert(s.len() > 0);
        assert(s.drop_last() =~= edges + head);
        assert(s.last() == extra.last());
        assert(!non_studio_pred()(s.last()));
        assert(s.filter(non_studio_pred()) == s.drop_last().filter(non_studio_pred()));
    }
}

/// The studio class of a package: native packages build natively; otherwise
/// a package builds in the standard studio unless it is itself a dependency
/// of the studio, in which case it builds in the bootstrap studio unless it
/// is also a dependency of the bootstrap studio; a package needed by every
/// configured studio, or by a studio when no bootstrap studio is configured,
/// has no class and is excluded from build planning.
pub open spec fn studio_class_spec(
    native: bool,
    has_studio: bool,
    has_bootstrap: bool,
    dep_of_studio: bool,
    dep_of_bootstrap: bool,
) -> Option<PackageStudioType> {
    if native {
        Some(PackageStudioType::Native)
    } else if has_studio {
        if !dep_of_studio {
            Some(PackageStudioType::Standard)
        } else if has_bootstrap {
            if dep_of_bootstrap {
                None
            } else {
                Some(PackageStudioType::Bootstrap)
            }
        } else {
            None
        }
    } else if has_bootstrap {
        if dep_of_bootstrap {
            None
        } else {
            Some(PackageStudioType::Bootstrap)
        }
    } else {
        None
    }
}

/// The declared patterns of a node read by a given edge label: build
/// dependencies for build edges, runtime dependencies otherwise.
pub open spec fn dep_patterns(
    g: &PackageDependencyGraph,
    node: int,
    kind: DependencyType,
) -> Seq<PackageDepIdent> {
    if kind is Build {
        g.builds()[node].plan.build_deps@
    } else {
        g.builds()[node].plan.deps@
    }
}

/// Whether a studio edge from `from` to `to` is present.
pub open spec fn has_studio_edge(edges: Seq<DepEdge>, from: usize, to: usize) -> bool {
    exists|k: int|
        0 <= k < edges.len() && #[trigger] edges[k] == (DepEdge {
            from,
            to,
            kind: DependencyType::Studio,
        })
}

impl PackageDependencyGraph {
    /// Add one edge per resolvable declared pattern of `node`, labelled
    /// `kind`.
    fn add_dep_edges_for_node(&mut self, node: PackageNode, kind: DependencyType)
        requires
            old(self).wf(),
            node.0 < old(self).builds().len(),
            !(kind is Studio),
        ensures
            final(self).wf(),
            final(self).builds() == old(self).builds(),
            old(self).edges().is_prefix_of(final(self).edges()),
            forall|k: int|
                old(self).edges().len() <= k < final(self).edges().len() ==> {
                    &&& (#[trigger] final(self).edges()[k]).from == node.0
                    &&& final(self).edges()[k].kind == kind
                    &&& exists|m: int|
                        0 <= m < dep_patterns(final(self), node.0 as int, kind).len()
                            && final(self).resolves_to(
                            &dep_patterns(final(self), node.0 as int, kind)[m],
                            final(self).edges()[k].to as int,
                        )
                },
            forall|m: int|
                0 <= m < dep_patterns(final(self), node.0 as int, kind).len() && (exists|j: int|
                    0 <= j < final(self).builds().len() && (#[trigger] dep_patterns(
                        final(self),
                        node.0 as int,
                        kind,
                    )[m]).spec_matches_build(&(#[trigger] final(self).builds()[j]).plan.ident))
                    ==> exists|k: int|
                    0 <= k < final(self).edges().len() && (#[trigger] final(self).edges()[k]).from
                        == node.0 && final(self).edges()[k].kind == kind
                        && final(self).resolves_to(
                        &dep_patterns(final(self), node.0 as int, kind)[m],
                        final(self).edges()[k].to as int,
                    ),
    {
        let ghost patterns = dep_patterns(self, node.0 as int, kind);
        let count = match kind {
            DependencyType::Build => self.builds[node.0].plan.build_deps.len(),
            _ => self.builds[node.0].plan.deps.len(),
        };
        let mut targets: Vec<Option<usize>> = Vec::new();
        let mut m: usize = 0;
        while m < count
            invariant
                self == old(self),
                self.wf(),
                node.0 < self.builds().len(),
                !(kind is Studio),
                patterns == dep_patterns(self, node.0 as int, kind),
                count == patterns.len(),
                m <= count,
                targets@.len() == m,
                forall|mm: int|
                    0 <= mm < m ==> match #[trigger] targets@[mm] {
                        Some(t) => self.resolves_to(&patterns[mm], t as int),
                        None => forall|j: int|
                            0 <= j < self.builds().len() ==> !patterns[mm].spec_matches_build(
                                &(#[trigger] self.builds()[j]).plan.ident,
                            ),
                    },
            decreases count - m,
        {
            let best = match kind {
                DependencyType::Build => self.best_match(&self.builds[node.0].plan.build_deps[m]),
                _ => self.best_match(&self.builds[node.0].plan.deps[m]),
            };
            match best {
                Some(t) => {
                    targets.push(Some(t.0));
                },
                None => {
                    targets.push(None);
                },
            }
            m = m + 1;
        }
        let mut m: usize = 0;
        while m < count
            invariant
                self.wf(),
                self.builds() == old(self).builds(),
                node.0 < self.builds().len(),
                !(kind is Studio),
                patterns == dep_patterns(self, node.0 as int, kind),
                count == patterns.len(),
                targets@.len() == count,
                m <= count,
                old(self).edges().is_prefix_of(self.edges()),
                forall|mm: int|
                    0 <= mm < count ==> match #[trigger] targets@[mm] {
                        Some(t) => self.resolves_to(&patterns[mm], t as int),
                        None => forall|j: int|
                            0 <= j < self.builds().len() ==> !patterns[mm].spec_matches_build(
                                &(#[trigger] self.builds()[j]).plan.ident,
                            ),
                    },
                forall|k: int|
                    old(self).edges().len() <= k < self.edges().len() ==> {
                        &&& (#[trigger] self.edges()[k]).from == node.0
                        &&& self.edges()[k].kind == kind
                        &&& exists|mm: int|
                            0 <= mm < patterns.len() && self.resolves_to(
                                &patterns[mm],
                                self.edges()[k].to as int,
                            )
                    },
                forall|mm: int|
                    0 <= mm < m && (exists|j: int|
                        0 <= j < self.builds().len() && (#[trigger] patterns[mm]).spec_matches_build(
                            &(#[trigger] self.builds()[j]).plan.ident,
                        )) ==> exists|k: int|
                        0 <= k < self.edges().len() && (#[trigger] self.edges()[k]).from == node.0
                            && self.edges()[k].kind == kind && self.resolves_to(
                            &patterns[mm],
                            self.edges()[k].to as int,
                        ),
            decreases count - m,
        {
            match targets[m] {
                Some(t) => {
                    let ghost before = self.edges();
                    self.add_edge(node, PackageNode(t), kind);
                    proof {
                        assert(self.edges()[before.len() as int].to == t);
                        assert(before.is_prefix_of(self.edges())) by {
                            assert(self.edges().subrange(0, before.len() as int) =~= before);
                        }
                        assert(old(self).edges().is_prefix_of(self.edges())) by {
                            assert(self.edges().subrange(
                                0,
                                old(self).edges().len() as int,
                            ) =~= old(self).edges());
                        }
                    }
                },
                None => {},
            }
            m = m + 1;
        }
    }

    /// Find the last node matching an optional designated pattern.
    fn find_studio_node(&self, pattern: &Option<PackageDepIdent>) -> (r: Option<PackageNode>)
        ensures
            match r {
                Some(node) => {
                    &&& node.0 < self.builds().len()
                    &&& pattern matches Some(p) && p.spec_matches_build(
                        &self.builds()[node.0 as int].plan.ident,
                    )
                    &&& pattern matches Some(p) && forall|j: int|
                        node.0 < j < self.builds().len() ==> !p.spec_matches_build(
                            &(#[trigger] self.builds()[j]).plan.ident,
                        )
                },
                None => pattern matches Some(p) ==> forall|j: int|
                    0 <= j < self.builds().len() ==> !p.spec_matches_build(
                        &(#[trigger] self.builds()[j]).plan.ident,
                    ),
            },
    {
        match pattern {
            Some(p) => {
                let mut found: Option<usize> = None;
                let mut i: usize = 0;
                while i < self.builds.len()
                    invariant
                        i <= self.builds().len(),
                        match found {
                            Some(f) => f < i && p.spec_matches_build(
                                &self.builds()[f as int].plan.ident,
                            ) && forall|j: int|
                                f < j < i ==> !p.spec_matches_build(
                                    &(#[trigger] self.builds()[j]).plan.ident,
                                ),
                            None => forall|j: int|
                                0 <= j < i ==> !p.spec_matches_build(
                                    &(#[trigger] self.builds()[j]).plan.ident,
                                ),
                        },
                    decreases self.builds().len() - i,
                {
                    if p.matches_build(&self.builds[i].plan.ident) {
                        found = Some(i);
                    }
                    i = i + 1;
                }
                match found {
                    Some(f) => Some(PackageNode(f)),
                    None => None,
                }
            },
            None => None,
        }
    }

    /// Assign every node's studio class from the dependency edges, then,
    /// when asked, add a studio edge from each classified node to its studio.
    fn assign_studio_types(&mut self, studios: &StudioPackages, add_studio_dependency: bool)
        requires
            old(self).wf(),
            studios.studio matches Some(s) ==> s.0 < old(self).builds().len(),
            studios.bootstrap_studio matches Some(b) ==> b.0 < old(self).builds().len(),
        ensures
            final(self).wf(),
            final(self).builds().len() == old(self).builds().len(),
            forall|i: int|
                0 <= i < old(self).builds().len() ==> {
                    &&& (#[trigger] final(self).builds()[i]).plan == old(self).builds()[i].plan
                    &&& final(self).builds()[i].package_type == old(self).builds()[i].package_type
                    &&& final(self).builds()[i].studio_type == studio_class_spec(
                        old(self).builds()[i].package_type is Native,
                        studios.studio is Some,
                        studios.bootstrap_studio is Some,
                        studios.studio matches Some(s) && reachable(
                            old(self).edge_pairs(),
                            s.0,
                            i as usize,
                        ),
                        studios.bootstrap_studio matches Some(b) && reachable(
                            old(self).edge_pairs(),
                            b.0,
                            i as usize,
                        ),
                    )
                },
            old(self).edges().is_prefix_of(final(self).edges()),
            forall|k: int|
                old(self).edges().len() <= k < final(self).edges().len()
                    ==> (#[trigger] final(self).edges()[k]).kind is Studio,
            !add_studio_dependency ==> final(self).edges() == old(self).edges(),
            add_studio_dependency ==> forall|i: int|
                0 <= i < final(self).builds().len() ==> {
                    &&& ((#[trigger] final(self).builds()[i]).studio_type == Some(
                        PackageStudioType::Standard,
                    ) && studios.studio is Some ==> has_studio_edge(
                        final(self).edges(),
                        i as usize,
                        studios.studio->Some_0.0,
                    ))
                    &&& (final(self).builds()[i].studio_type == Some(PackageStudioType::Bootstrap)
                        && studios.bootstrap_studio is Some ==> has_studio_edge(
                        final(self).edges(),
                        i as usize,
                        studios.bootstrap_studio->Some_0.0,
                    ))
                },
    {
        let ghost pairs0 = self.edge_pairs();
        let pairs = self.edge_pairs_vec();
        let n = self.builds.len();
        let mut classes: Vec<Option<PackageStudioType>> = Vec::new();
        let mut i: usize = 0;
        while i < n
            invariant
                self == old(self),
                self.wf(),
                n == self.builds().len(),
                pairs@ == self.edge_pairs(),
                studios.studio matches Some(s) ==> s.0 < n,
                studios.bootstrap_studio matches Some(b) ==> b.0 < n,
                i <= n,
                classes@.len() == i,
                forall|j: int|
                    0 <= j < i ==> #[trigger] classes@[j] == studio_class_spec(
                        self.builds()[j].package_type is Native,
                        studios.studio is Some,
                        studios.bootstrap_studio is Some,
                        studios.studio matches Some(s) && reachable(
                            self.edge_pairs(),
                            s.0,
                            j as usize,
                        ),
                        studios.bootstrap_studio matches Some(b) && reachable(
                            self.edge_pairs(),
                            b.0,
                            j as usize,
                        ),
                    ),
            decreases n - i,
        {
            let native = match self.builds[i].package_type {
                PackageType::Native => true,
                PackageType::Standard => false,
            };
            let class = if native {
                Some(PackageStudioType::Native)
            } else {
                let dep_of_studio = match &studios.studio {
                    Some(s) => pair_connected(n, &pairs, s.0, i),
                    None => false,
                };
                let dep_of_bootstrap = match &studios.bootstrap_studio {
                    Some(b) => pair_connected(n, &pairs, b.0, i),
                    None => false,
                };
                match &studios.studio {
                    Some(_) => {
                        if !dep_of_studio {
                            Some(PackageStudioType::Standard)
                        } else {
                            match &studios.bootstrap_studio {
                                Some(_) => {
                                    if dep_of_bootstrap {
                                        None
                                    } else {
                                        Some(PackageStudioType::Bootstrap)
                                    }
                                },
                                None => None,
                            }
                        }
                    },
                    None => {
                        match &studios.bootstrap_studio {
                            Some(_) => {
                                if dep_of_bootstrap {
                                    None
                                } else {
                                    Some(PackageStudioType::Bootstrap)
                                }
                            },
                            None => None,
                        }
                    },
                }
            };
            classes.push(class);
            i = i + 1;
        }
        let mut i: usize = 0;
        while i < n
            invariant
                n == self.builds().len(),
                n == old(self).builds().len(),
                i <= n,
                classes@.len() == n,
                self.edges() == old(self).edges(),
                old(self).wf(),
                forall|j: int|
                    0 <= j < n ==> {
                        &&& (#[trigger] self.builds()[j]).plan == old(self).builds()[j].plan
                        &&& self.builds()[j].package_type == old(self).builds()[j].package_type
                    },
                forall|j: int|
                    i <= j < n ==> (#[trigger] self.builds()[j]).studio_type == old(
                        self,
                    ).builds()[j].studio_type,
                forall|j: int| 0 <= j < i ==> (#[trigger] self.builds()[j]).studio_type == classes@[j],
                forall|j: int|
                    0 <= j < n ==> #[trigger] classes@[j] == studio_class_spec(
                        old(self).builds()[j].package_type is Native,
                        studios.studio is Some,
                        studios.bootstrap_studio is Some,
                        studios.studio matches Some(s) && reachable(pairs0, s.0, j as usize),
                        studios.bootstrap_studio matches Some(b) && reachable(pairs0, b.0, j as usize),
                    ),
            decreases n - i,
        {
            self.builds[i].studio_type = classes[i];
            i = i + 1;
        }
        proof {
            assert(self.wf()) by {
                assert forall|a: int, b2: int|
                    0 <= a < b2 < self.builds().len() implies !same_build_ident(
                    &self.builds()[a],
                    &self.builds()[b2],
                ) by {
                    assert(!same_build_ident(&old(self).builds()[a], &old(self).builds()[b2]));
                    assert(self.builds()[a].plan == old(self).builds()[a].plan);
                    assert(self.builds()[b2].plan == old(self).builds()[b2].plan);
                }
                assert forall|k: int|
                    0 <= k < self.edges().len() implies (#[trigger] self.edges()[k]).from
                    < self.builds().len() && self.edges()[k].to < self.builds().len() by {
                    assert(self.edges()[k] == old(self).edges()[k]);
                }
            }
        }
        if add_studio_dependency {
            let mut i: usize = 0;
            while i < n
                invariant
                    n == self.builds().len(),
                    n == old(self).builds().len(),
                    i <= n,
                    classes@.len() == n,
                    self.wf(),
                    old(self).edges().is_prefix_of(self.edges()),
                    forall|k: int|
                        old(self).edges().len() <= k < self.edges().len() ==> (#[trigger] self.edges()[k]).kind
                            is Studio,
                    forall|j: int|
                        0 <= j < n ==> {
                            &&& (#[trigger] self.builds()[j]).plan == old(self).builds()[j].plan
                            &&& self.builds()[j].package_type == old(self).builds()[j].package_type
                            &&& self.builds()[j].studio_type == classes@[j]
                        },
                    studios.studio matches Some(s) ==> s.0 < n,
                    studios.bootstrap_studio matches Some(b) ==> b.0 < n,
                    forall|j: int|
                        0 <= j < i && (#[trigger] self.builds()[j]).studio_type == Some(
                            PackageStudioType::Standard,
                        ) && studios.studio is Some ==> has_studio_edge(
                            self.edges(),
                            j as usize,
                            studios.studio->Some_0.0,
                        ),
                    forall|j: int|
                        0 <= j < i && (#[trigger] self.builds()[j]).studio_type == Some(
                            PackageStudioType::Bootstrap,
                        ) && studios.bootstrap_studio is Some ==> has_studio_edge(
                            self.edges(),
                            j as usize,
                            studios.bootstrap_studio->Some_0.0,
                        ),
                decreases n - i,
            {
                let class = self.builds[i].studio_type;
                match class {
                    Some(PackageStudioType::Standard) => {
                        match &studios.studio {
                            Some(s) => {
                                let s = *s;
                                let ghost before = self.edges();
                                self.add_studio_dependency(PackageNode(i), s);
                                proof {
                                    assert(before.is_prefix_of(self.edges())) by {
                                        assert(self.edges().subrange(
                                            0,
                                            before.len() as int,
                                        ) =~= before);
                                    }
                                    assert(old(self).edges().is_prefix_of(self.edges())) by {
                                        assert(self.edges().subrange(
                                            0,
                                            old(self).edges().len() as int,
                                        ) =~= old(self).edges());
                                    }
                                    assert(has_studio_edge(self.edges(), i, s.0)) by {
                                        assert(self.edges()[before.len() as int] == (DepEdge {
                                            from: i,
                                            to: s.0,
                                            kind: DependencyType::Studio,
                                        }));
                                    }
                                }
                            },
                            None => {},
                        }
                    },
                    Some(PackageStudioType::Bootstrap) => {
                        match &studios.bootstrap_studio {
                            Some(b) => {
                                let b = *b;
                                let ghost before = self.edges();
                                self.add_studio_dependency(PackageNode(i), b);
                                proof {
                                    assert(before.is_prefix_of(self.edges())) by {
                                        assert(self.edges().subrange(
                                            0,
                                            before.len() as int,
                                        ) =~= before);
                                    }
                                    assert(old(self).edges().is_prefix_of(self.edges())) by {
                                        assert(self.edges().subrange(
                                            0,
                                            old(self).edges().len() as int,
                                        ) =~= old(self).edges());
                                    }
                                    assert(has_studio_edge(self.edges(), i, b.0)) by {
                                        assert(self.edges()[before.len() as int] == (DepEdge {
                                            from: i,
                                            to: b.0,
                                            kind: DependencyType::Studio,
                                        }));
                                    }
                                }
                            },
                            None => {},
                        }
                    },
                    _ => {},
                }
                i = i + 1;
            }
        }
        proof {
            if !add_studio_dependency {
                assert(final(self).edges() =~= old(self).edges());
            }
        }
    }
}

/// Insert every package as a node, consuming the list; a collision of
/// origin, name, version and target is rejected.
fn insert_nodes(builds: &mut Vec<PackageBuild>) -> (r: Result<PackageDependencyGraph, PackageNode>)
    ensures
        match r {
            Ok(g) => {
                &&& g.wf()
                &&& g.builds() == old(builds)@
                &&& g.edges().len() == 0
            },
            Err(_) => exists|a: int, b: int|
                0 <= a < b < old(builds)@.len() && same_build_ident(
                    &old(builds)@[a],
                    &(#[trigger] old(builds)@[b]),
                ),
        },
{
    let mut g = PackageDependencyGraph::new();
    let ghost input = builds@;
    let n = builds.len();
    let mut i: usize = 0;
    while i < n
        invariant
            g.wf(),
            input == old(builds)@,
            n == input.len(),
            builds@.len() == n - i,
            i <= n,
            g.builds().len() == i,
            g.edges().len() == 0,
            forall|j: int| 0 <= j < i ==> #[trigger] g.builds()[j] == input[j],
            forall|j: int| 0 <= j < builds@.len() ==> #[trigger] builds@[j] == input[i + j],
        decreases n - i,
    {
        let b = builds.remove(0);
        proof {
            assert(b == input[i as int]);
            assert(forall|j: int|
                0 <= j < builds@.len() ==> #[trigger] builds@[j] == input[i + 1 + j]);
        }
        match g.add_package(b) {
            Ok(_) => {},
            Err(node) => {
                proof {
                    assert(same_build_ident(&g.builds()[node.0 as int], &input[i as int]));
                    assert(g.builds()[node.0 as int] == input[node.0 as int]);
                    assert(exists|a: int, b2: int|
                        0 <= a < b2 < old(builds)@.len() && same_build_ident(
                            &old(builds)@[a],
                            &(#[trigger] old(builds)@[b2]),
                        )) by {
                        assert(0 <= node.0 < i as int);
                        assert(same_build_ident(
                            &old(builds)@[node.0 as int],
                            &old(builds)@[i as int],
                        ));
                    }
                }
                return Err(node);
            },
        }
        i = i + 1;
    }
    proof {
        assert(g.builds() =~= input);
    }
    Ok(g)
}

/// Whether every build and runtime edge of the graph is justified by a
/// declared dependency of its source node, resolved to a best match.
pub open spec fn edges_sound(g: &PackageDependencyGraph) -> bool {
    &&& forall|k: int|
        0 <= k < g.edges().len() && (#[trigger] g.edges()[k]).kind is Build ==> exists|m: int|
            0 <= m < g.builds()[g.edges()[k].from as int].plan.build_deps@.len()
                && g.resolves_to(
                &g.builds()[g.edges()[k].from as int].plan.build_deps@[m],
                g.edges()[k].to as int,
            )
    &&& forall|k: int|
        0 <= k < g.edges().len() && (#[trigger] g.edges()[k]).kind is Runtime ==> exists|m: int|
            0 <= m < g.builds()[g.edges()[k].from as int].plan.deps@.len() && g.resolves_to(
                &g.builds()[g.edges()[k].from as int].plan.deps@[m],
                g.edges()[k].to as int,
            )
}

/// Whether every declared dependency with a matching node has an edge to a
/// best match.
pub open spec fn edges_complete(g: &PackageDependencyGraph) -> bool {
    &&& forall|i: int, m: int|
        0 <= i < g.builds().len() && 0 <= m < (#[trigger] g.builds()[i]).plan.build_deps@.len()
            && (exists|j: int|
            0 <= j < g.builds().len() && (#[trigger] g.builds()[i].plan.build_deps@[m]).spec_matches_build(
                &(#[trigger] g.builds()[j]).plan.ident,
            )) ==> exists|k: int|
            0 <= k < g.edges().len() && (#[trigger] g.edges()[k]).from == i && g.edges()[k].kind
                is Build && g.resolves_to(
                &g.builds()[i].plan.build_deps@[m],
                g.edges()[k].to as int,
            )
    &&& forall|i: int, m: int|
        0 <= i < g.builds().len() && 0 <= m < (#[trigger] g.builds()[i]).plan.deps@.len() && (
        exists|j: int|
            0 <= j < g.builds().len() && (#[trigger] g.builds()[i].plan.deps@[m]).spec_matches_build(
                &(#[trigger] g.builds()[j]).plan.ident,
            )) ==> exists|k: int|
            0 <= k < g.edges().len() && (#[trigger] g.edges()[k]).from == i && g.edges()[k].kind
                is Runtime && g.resolves_to(&g.builds()[i].plan.deps@[m], g.edges()[k].to as int)
}

/// Resolve the declared dependencies of every node into labelled edges.
#[verifier::rlimit(100)]
fn resolve_all_edges(g: &mut PackageDependencyGraph)
    requires
        old(g).wf(),
        old(g).edges().len() == 0,
    ensures
        final(g).wf(),
        final(g).builds() == old(g).builds(),
        edges_sound(final(g)),
        edges_complete(final(g)),
        forall|k: int|
            0 <= k < final(g).edges().len() ==> !((#[trigger] final(g).edges()[k]).kind is Studio),
{
    let n = g.node_count();
    let mut i: usize = 0;
    while i < n
        invariant
            g.wf(),
            g.builds() == old(g).builds(),
            n == g.builds().len(),
            i <= n,
            edges_sound(g),
            forall|k: int|
                0 <= k < g.edges().len() ==> !((#[trigger] g.edges()[k]).kind is Studio),
            forall|ii: int, m: int|
                0 <= ii < i && 0 <= m < (#[trigger] g.builds()[ii]).plan.build_deps@.len() && (
                exists|j: int|
                    0 <= j < g.builds().len() && (#[trigger] g.builds()[ii].plan.build_deps@[m]).spec_matches_build(
                        &(#[trigger] g.builds()[j]).plan.ident,
                    )) ==> exists|k: int|
                    0 <= k < g.edges().len() && (#[trigger] g.edges()[k]).from == ii
                        && g.edges()[k].kind is Build && g.resolves_to(
                        &g.builds()[ii].plan.build_deps@[m],
                        g.edges()[k].to as int,
                    ),
            forall|ii: int, m: int|
                0 <= ii < i && 0 <= m < (#[trigger] g.builds()[ii]).plan.deps@.len() && (exists|
                    j: int,
                |
                    0 <= j < g.builds().len() && (#[trigger] g.builds()[ii].plan.deps@[m]).spec_matches_build(
                        &(#[trigger] g.builds()[j]).plan.ident,
                    )) ==> exists|k: int|
                    0 <= k < g.edges().len() && (#[trigger] g.edges()[k]).from == ii
                        && g.edges()[k].kind is Runtime && g.resolves_to(
                        &g.builds()[ii].plan.deps@[m],
                        g.edges()[k].to as int,
                    ),
        decreases n - i,
    {
        let ghost g1 = *g;
        g.add_dep_edges_for_node(PackageNode(i), DependencyType::Build);
        let ghost g2 = *g;
        g.add_dep_edges_for_node(PackageNode(i), DependencyType::Runtime);
        proof {
            assert(g.builds() == g1.builds() && g.builds() == g2.builds());
            assert forall|k: int|
                0 <= k < g2.edges().len() implies g.edges()[k] == g2.edges()[k] by {
                assert(g.edges().subrange(0, g2.edges().len() as int) =~= g2.edges());
            }
            assert forall|k: int|
                0 <= k < g1.edges().len() implies g2.edges()[k] == g1.edges()[k] by {
                assert(g2.edges().subrange(0, g1.edges().len() as int) =~= g1.edges());
            }
            assert(edges_sound(g)) by {
                assert forall|k: int|
                    0 <= k < g.edges().len() && (#[trigger] g.edges()[k]).kind is Build implies
                    exists|m: int|
                    0 <= m < g.builds()[g.edges()[k].from as int].plan.build_deps@.len()
                        && g.resolves_to(
                        &g.builds()[g.edges()[k].from as int].plan.build_deps@[m],
                        g.edges()[k].to as int,
                    ) by {
                    if k < g1.edges().len() {
                        assert(g1.edges()[k].kind is Build);
                        let from = g1.edges()[k].from as int;
                        let m = choose|m: int|
                            0 <= m < g1.builds()[from].plan.build_deps@.len() && g1.resolves_to(
                                &g1.builds()[from].plan.build_deps@[m],
                                g1.edges()[k].to as int,
                            );
                        assert(g.resolves_to(
                            &g.builds()[from].plan.build_deps@[m],
                            g.edges()[k].to as int,
                        ));
                    } else if k < g2.edges().len() {
                        assert(g2.edges()[k].from == i && g2.edges()[k].kind
                            == DependencyType::Build);
                        let m = choose|m: int|
                            0 <= m < dep_patterns(&g2, i as int, DependencyType::Build).len()
                                && g2.resolves_to(
                                &dep_patterns(&g2, i as int, DependencyType::Build)[m],
                                g2.edges()[k].to as int,
                            );
                        assert(g.resolves_to(
                            &g.builds()[i as int].plan.build_deps@[m],
                            g.edges()[k].to as int,
                        ));
                    } else {
                        assert(g.edges()[k].kind == DependencyType::Runtime);
                        assert(false);
                    }
                }
                assert forall|k: int|
                    0 <= k < g.edges().len() && (#[trigger] g.edges()[k]).kind is Runtime implies
                    exists|m: int|
                    0 <= m < g.builds()[g.edges()[k].from as int].plan.deps@.len()
                        && g.resolves_to(
                        &g.builds()[g.edges()[k].from as int].plan.deps@[m],
                        g.edges()[k].to as int,
                    ) by {
                    if k < g1.edges().len() {
                        assert(g1.edges()[k].kind is Runtime);
                        let from = g1.edges()[k].from as int;
                        let m = choose|m: int|
                            0 <= m < g1.builds()[from].plan.deps@.len() && g1.resolves_to(
                                &g1.builds()[from].plan.deps@[m],
                                g1.edges()[k].to as int,
                            );
                        assert(g.resolves_to(
                            &g.builds()[from].plan.deps@[m],
                            g.edges()[k].to as int,
                        ));
                    } else if k < g2.edges().len() {
                        assert(g.edges()[k] == g2.edges()[k]);
                        assert(g2.edges()[k].kind == DependencyType::Build);
                        assert(false);
                    } else {
                        assert(g.edges()[k].from == i && g.edges()[k].kind
                            == DependencyType::Runtime);
                        assert(dep_patterns(g, i as int, DependencyType::Runtime)
                            == g.builds()[i as int].plan.deps@);
                        let m = choose|m: int|
                            0 <= m < dep_patterns(g, i as int, DependencyType::Runtime).len()
                                && g.resolves_to(
                                &dep_patterns(g, i as int, DependencyType::Runtime)[m],
                                g.edges()[k].to as int,
                            );
                        assert(g.resolves_to(
                            &g.builds()[i as int].plan.deps@[m],
                            g.edges()[k].to as int,
                        ));
                    }
                }
            }
            assert forall|k: int|
                0 <= k < g.edges().len() implies !((#[trigger] g.edges()[k]).kind is Studio) by {
                if k < g1.edges().len() {
                    assert(g.edges()[k] == g1.edges()[k]);
                } else if k < g2.edges().len() {
                    assert(g.edges()[k] == g2.edges()[k]);
                    assert(g2.edges()[k].kind == DependencyType::Build);
                } else {
                    assert(g.edges()[k].kind == DependencyType::Runtime);
                }
            }
            assert forall|ii: int, m: int|
                0 <= ii < i + 1 && 0 <= m < (#[trigger] g.builds()[ii]).plan.build_deps@.len() && (
                exists|j: int|
                    0 <= j < g.builds().len() && (#[trigger] g.builds()[ii].plan.build_deps@[m]).spec_matches_build(
                        &(#[trigger] g.builds()[j]).plan.ident,
                    )) implies exists|k: int|
                    0 <= k < g.edges().len() && (#[trigger] g.edges()[k]).from == ii
                        && g.edges()[k].kind is Build && g.resolves_to(
                        &g.builds()[ii].plan.build_deps@[m],
                        g.edges()[k].to as int,
                    ) by {
                if ii < i {
                    let k = choose|k: int|
                        0 <= k < g1.edges().len() && (#[trigger] g1.edges()[k]).from == ii
                            && g1.edges()[k].kind is Build && g1.resolves_to(
                            &g1.builds()[ii].plan.build_deps@[m],
                            g1.edges()[k].to as int,
                        );
                    assert(g.edges()[k] == g1.edges()[k]);
                } else {
                    assert(dep_patterns(&g2, ii, DependencyType::Build)
                        == g2.builds()[ii].plan.build_deps@);
                    assert(dep_patterns(&g2, ii, DependencyType::Build)[m]
                        == g.builds()[ii].plan.build_deps@[m]);
                    let k = choose|k: int|
                        0 <= k < g2.edges().len() && (#[trigger] g2.edges()[k]).from == ii
                            && g2.edges()[k].kind == DependencyType::Build && g2.resolves_to(
                            &dep_patterns(&g2, ii, DependencyType::Build)[m],
                            g2.edges()[k].to as int,
                        );
                    assert(g.edges()[k] == g2.edges()[k]);
                }
            }
            assert forall|ii: int, m: int|
                0 <= ii < i + 1 && 0 <= m < (#[trigger] g.builds()[ii]).plan.deps@.len() && (
                exists|j: int|
                    0 <= j < g.builds().len() && (#[trigger] g.builds()[ii].plan.deps@[m]).spec_matches_build(
                        &(#[trigger] g.builds()[j]).plan.ident,
                    )) implies exists|k: int|
                    0 <= k < g.edges().len() && (#[trigger] g.edges()[k]).from == ii
                        && g.edges()[k].kind is Runtime && g.resolves_to(
                        &g.builds()[ii].plan.deps@[m],
                        g.edges()[k].to as int,
                    ) by {
                if ii < i {
                    let k = choose|k: int|
                        0 <= k < g1.edges().len() && (#[trigger] g1.edges()[k]).from == ii
                            && g1.edges()[k].kind is Runtime && g1.resolves_to(
                            &g1.builds()[ii].plan.deps@[m],
                            g1.edges()[k].to as int,
                        );
                    assert(g.edges()[k] == g1.edges()[k]);
                } else {
                    assert(dep_patterns(g, ii, DependencyType::Runtime)
                        == g.builds()[ii].plan.deps@);
                    assert(dep_patterns(g, ii, DependencyType::Runtime)[m]
                        == g.builds()[ii].plan.deps@[m]);
                    let k = choose|k: int|
                        0 <= k < g.edges().len() && (#[trigger] g.edges()[k]).from == ii
                            && g.edges()[k].kind == DependencyType::Runtime && g.resolves_to(
                            &dep_patterns(g, ii, DependencyType::Runtime)[m],
                            g.edges()[k].to as int,
                        );
                    assert(g.edges()[k].kind is Runtime);
                }
            }
        }
        i = i + 1;
    }
}

/// The nodes whose build identifiers match any of the given patterns.
fn source_nodes(g: &PackageDependencyGraph, start_idents: &Vec<PackageDepIdent>) -> (sources: Vec<
    PackageNode,
>)
    ensures
        forall|x: int|
            0 <= x < sources@.len() ==> (#[trigger] sources@[x]).0 < g.builds().len() && exists|
                m: int,
            |
                0 <= m < start_idents@.len() && (#[trigger] start_idents@[m]).spec_matches_build(
                    &g.builds()[sources@[x].0 as int].plan.ident,
                ),
        forall|j: int|
            0 <= j < g.builds().len() && (exists|m: int|
                0 <= m < start_idents@.len() && (#[trigger] start_idents@[m]).spec_matches_build(
                    &(#[trigger] g.builds()[j]).plan.ident,
                )) ==> sources@.contains(PackageNode(j as usize)),
{
    let n = g.node_count();
    let mut sources: Vec<PackageNode> = Vec::new();
    let mut j: usize = 0;
    while j < n
        invariant
            n == g.builds().len(),
            j <= n,
            forall|x: int|
                0 <= x < sources@.len() ==> (#[trigger] sources@[x]).0 < g.builds().len() && exists|
                    m: int,
                |
                    0 <= m < start_idents@.len() && (#[trigger] start_idents@[m]).spec_matches_build(
                        &g.builds()[sources@[x].0 as int].plan.ident,
                    ),
            forall|jj: int|
                0 <= jj < j && (exists|m: int|
                    0 <= m < start_idents@.len() && (#[trigger] start_idents@[m]).spec_matches_build(
                        &(#[trigger] g.builds()[jj]).plan.ident,
                    )) ==> sources@.contains(PackageNode(jj as usize)),
        decreases n - j,
    {
        let mut m: usize = 0;
        let mut matched = false;
        while m < start_idents.len()
            invariant
                j < n,
                n == g.builds().len(),
                m <= start_idents@.len(),
                matched ==> exists|mm: int|
                    0 <= mm < start_idents@.len() && (#[trigger] start_idents@[mm]).spec_matches_build(
                        &g.builds()[j as int].plan.ident,
                    ),
                !matched ==> forall|mm: int|
                    0 <= mm < m ==> !(#[trigger] start_idents@[mm]).spec_matches_build(
                        &g.builds()[j as int].plan.ident,
                    ),
            decreases start_idents@.len() - m,
        {
            if start_idents[m].matches_build(&g.package(&PackageNode(j)).plan.ident) {
                matched = true;
            }
            m = m + 1;
        }
        if matched {
            let ghost before = sources@;
            sources.push(PackageNode(j));
            proof {
                assert(sources@[before.len() as int] == PackageNode(j as usize));
                assert(forall|x: int|
                    0 <= x < before.len() ==> #[trigger] sources@[x] == before[x]);
                assert forall|jj: int|
                    0 <= jj < j + 1 && (exists|m2: int|
                        0 <= m2 < start_idents@.len() && (#[trigger] start_idents@[m2]).spec_matches_build(
                            &(#[trigger] g.builds()[jj]).plan.ident,
                        )) implies sources@.contains(PackageNode(jj as usize)) by {
                    if jj == j {
                        assert(sources@[before.len() as int] == PackageNode(jj as usize));
                    } else {
                        assert(before.contains(PackageNode(jj as usize)));
                        let x = choose|x: int|
                            0 <= x < before.len() && before[x] == PackageNode(jj as usize);
                        assert(sources@[x] == PackageNode(jj as usize));
                    }
                }
            }
        }
        j = j + 1;
    }
    sources
}


/// A pattern keeps resolving to the same node when only studio classes
/// change: resolution reads the plans alone.
proof fn lemma_resolves_in_stable(
    b1: Seq<PackageBuild>,
    b2: Seq<PackageBuild>,
    d: &PackageDepIdent,
    j: int,
)
    requires
        b1.len() == b2.len(),
        forall|i: int| 0 <= i < b1.len() ==> (#[trigger] b1[i]).plan == b2[i].plan,
        resolves_in(b1, d, j),
    ensures
        resolves_in(b2, d, j),
{
    assert(b1[j].plan == b2[j].plan);
    assert forall|m: int|
        0 <= m < b2.len() && d.spec_matches_build(&(#[trigger] b2[m]).plan.ident) implies
        !build_ident_lt(&b2[j].plan.ident, &b2[m].plan.ident) by {
        assert(b1[m].plan == b2[m].plan);
        assert(d.spec_matches_build(&b1[m].plan.ident));
    }
}

/// Every node of a well-formed graph has a build identifier of its own: no
/// two nodes share origin, name, version and target.
pub proof fn lemma_nodes_unique(g: &PackageDependencyGraph)
    requires
        g.wf(),
    ensures
        forall|i: int, j: int|
            0 <= i < j < g.builds().len() ==> !same_build_ident(&g.builds()[i], &g.builds()[j]),
{
}

/// Build the dependency graph from the discovered packages, consuming the
/// list: one node per package (a collision of origin, name, version and
/// target is rejected), one edge per resolvable declared dependency, the
/// designated studio nodes identified, and every node's studio class
/// assigned; when `add_studio_dependency` is set, each classified node also
/// gets an edge to its studio. The second result lists the nodes matching
/// `start_idents`.
#[verifier::rlimit(100)]
pub fn dep_graph_build(
    builds: &mut Vec<PackageBuild>,
    start_idents: &Vec<PackageDepIdent>,
    bootstrap_studio_package: &Option<PackageDepIdent>,
    studio_package: &Option<PackageDepIdent>,
    add_studio_dependency: bool,
) -> (r: Result<(PackageDependencyGraph, Vec<PackageNode>, StudioPackages), PackageNode>)
    ensures
        match r {
            Ok((g, sources, studios)) => {
                &&& g.wf()
                &&& g.builds().len() == old(builds)@.len()
                &&& forall|i: int|
                    0 <= i < old(builds)@.len() ==> {
                        &&& (#[trigger] g.builds()[i]).plan == old(builds)@[i].plan
                        &&& g.builds()[i].package_type == old(builds)@[i].package_type
                        &&& g.builds()[i].studio_type == studio_class_spec(
                            old(builds)@[i].package_type is Native,
                            studios.studio is Some,
                            studios.bootstrap_studio is Some,
                            studios.studio matches Some(s) && reachable(
                                g.dep_pairs(),
                                s.0,
                                i as usize,
                            ),
                            studios.bootstrap_studio matches Some(b) && reachable(
                                g.dep_pairs(),
                                b.0,
                                i as usize,
                            ),
                        )
                    }
                &&& edges_sound(&g)
                &&& edges_complete(&g)
                &&& !add_studio_dependency ==> forall|k: int|
                    0 <= k < g.edges().len() ==> !((#[trigger] g.edges()[k]).kind is Studio)
                &&& add_studio_dependency ==> forall|i: int|
                    0 <= i < g.builds().len() ==> {
                        &&& ((#[trigger] g.builds()[i]).studio_type == Some(
                            PackageStudioType::Standard,
                        ) && studios.studio is Some ==> has_studio_edge(
                            g.edges(),
                            i as usize,
                            studios.studio->Some_0.0,
                        ))
                        &&& (g.builds()[i].studio_type == Some(PackageStudioType::Bootstrap)
                            && studios.bootstrap_studio is Some ==> has_studio_edge(
                            g.edges(),
                            i as usize,
                            studios.bootstrap_studio->Some_0.0,
                        ))
                    }
                &&& forall|x: int|
                    0 <= x < sources@.len() ==> (#[trigger] sources@[x]).0 < g.builds().len()
                        && exists|m: int|
                        0 <= m < start_idents@.len() && (#[trigger] start_idents@[m]).spec_matches_build(
                            &g.builds()[sources@[x].0 as int].plan.ident,
                        )
                &&& forall|j: int|
                    0 <= j < g.builds().len() && (exists|m: int|
                        0 <= m < start_idents@.len() && (#[trigger] start_idents@[m]).spec_matches_build(
                            &(#[trigger] g.builds()[j]).plan.ident,
                        )) ==> sources@.contains(PackageNode(j as usize))
            },
            Err(_) => exists|a: int, b: int|
                0 <= a < b < old(builds)@.len() && same_build_ident(
                    &old(builds)@[a],
                    &(#[trigger] old(builds)@[b]),
                ),
        },
{
    let mut g = match insert_nodes(builds) {
        Ok(g) => g,
        Err(node) => {
            return Err(node);
        },
    };
    resolve_all_edges(&mut g);
    let studios = StudioPackages {
        bootstrap_studio: g.find_studio_node(bootstrap_studio_package),
        studio: g.find_studio_node(studio_package),
    };
    let sources = source_nodes(&g, start_idents);
    let ghost mid = g;
    let ghost dep_edges = g.edges();
    let ghost dep_pairs_before = g.edge_pairs();
    g.assign_studio_types(&studios, add_studio_dependency);
    proof {
        lemma_filter_non_studio_all(dep_edges);
        let extra = g.edges().skip(dep_edges.len() as int);
        assert(g.edges() =~= dep_edges + extra);
        assert(forall|k: int| 0 <= k < extra.len() ==> (#[trigger] extra[k]).kind is Studio) by {
            assert(forall|k: int|
                0 <= k < extra.len() ==> extra[k] == g.edges()[dep_edges.len() + k]);
        }
        lemma_filter_studio_suffix(dep_edges, extra);
        assert(g.edges().filter(non_studio_pred()) == dep_edges);
        assert(g.dep_pairs() =~= dep_pairs_before) by {
            assert forall|k: int| 0 <= k < dep_edges.len() implies g.dep_pairs()[k]
                == dep_pairs_before[k] by {
                assert(g.dep_pairs()[k] == edge_pair_fn()(dep_edges[k]));
            }
        }
        if !add_studio_dependency {
            assert(g.edges() == mid.edges());
        }
        // Edge justifications survive the studio-class assignment, which
        // changes no plan and appends only studio edges.
        assert(edges_sound(&g)) by {
            assert forall|k: int|
                0 <= k < g.edges().len() && (#[trigger] g.edges()[k]).kind is Build implies exists|
                m: int,
            |
                0 <= m < g.builds()[g.edges()[k].from as int].plan.build_deps@.len()
                    && g.resolves_to(
                    &g.builds()[g.edges()[k].from as int].plan.build_deps@[m],
                    g.edges()[k].to as int,
                ) by {
                assert(k < dep_edges.len());
                assert(g.edges()[k] == mid.edges()[k]);
                let from = g.edges()[k].from as int;
                assert(g.builds()[from].plan == mid.builds()[from].plan);
                let m = choose|m: int|
                    0 <= m < mid.builds()[from].plan.build_deps@.len() && mid.resolves_to(
                        &mid.builds()[from].plan.build_deps@[m],
                        mid.edges()[k].to as int,
                    );
                lemma_resolves_in_stable(
                    mid.builds(),
                    g.builds(),
                    &mid.builds()[from].plan.build_deps@[m],
                    g.edges()[k].to as int,
                );
                assert(g.resolves_to(
                    &g.builds()[from].plan.build_deps@[m],
                    g.edges()[k].to as int,
                ));
            }
            assert forall|k: int|
                0 <= k < g.edges().len() && (#[trigger] g.edges()[k]).kind is Runtime implies
                exists|m: int|
                0 <= m < g.builds()[g.edges()[k].from as int].plan.deps@.len() && g.resolves_to(
                    &g.builds()[g.edges()[k].from as int].plan.deps@[m],
                    g.edges()[k].to as int,
                ) by {
                assert(k < dep_edges.len());
                assert(g.edges()[k] == mid.edges()[k]);
                let from = g.edges()[k].from as int;
                assert(g.builds()[from].plan == mid.builds()[from].plan);
                let m = choose|m: int|
                    0 <= m < mid.builds()[from].plan.deps@.len() && mid.resolves_to(
                        &mid.builds()[from].plan.deps@[m],
                        mid.edges()[k].to as int,
                    );
                lemma_resolves_in_stable(
                    mid.builds(),
                    g.builds(),
                    &mid.builds()[from].plan.deps@[m],
                    g.edges()[k].to as int,
                );
                assert(g.resolves_to(&g.builds()[from].plan.deps@[m], g.edges()[k].to as int));
            }
        }
        assert(edges_complete(&g)) by {
            assert forall|i: int, m: int|
                0 <= i < g.builds().len() && 0 <= m
                    < (#[trigger] g.builds()[i]).plan.build_deps@.len() && (exists|j: int|
                    0 <= j < g.builds().len() && (#[trigger] g.builds()[i].plan.build_deps@[m]).spec_matches_build(
                        &(#[trigger] g.builds()[j]).plan.ident,
                    )) implies exists|k: int|
                    0 <= k < g.edges().len() && (#[trigger] g.edges()[k]).from == i
                        && g.edges()[k].kind is Build && g.resolves_to(
                        &g.builds()[i].plan.build_deps@[m],
                        g.edges()[k].to as int,
                    ) by {
                assert(g.builds()[i].plan == mid.builds()[i].plan);
                let j = choose|j: int|
                    0 <= j < g.builds().len() && (#[trigger] g.builds()[i].plan.build_deps@[m]).spec_matches_build(
                        &(#[trigger] g.builds()[j]).plan.ident,
                    );
                assert(mid.builds()[j].plan == g.builds()[j].plan);
                assert(mid.builds()[i].plan.build_deps@[m].spec_matches_build(
                    &mid.builds()[j].plan.ident,
                ));
                let k = choose|k: int|
                    0 <= k < mid.edges().len() && (#[trigger] mid.edges()[k]).from == i
                        && mid.edges()[k].kind is Build && mid.resolves_to(
                        &mid.builds()[i].plan.build_deps@[m],
                        mid.edges()[k].to as int,
                    );
                assert(g.edges()[k] == mid.edges()[k]);
                lemma_resolves_in_stable(
                    mid.builds(),
                    g.builds(),
                    &mid.builds()[i].plan.build_deps@[m],
                    mid.edges()[k].to as int,
                );
            }
            assert forall|i: int, m: int|
                0 <= i < g.builds().len() && 0 <= m < (#[trigger] g.builds()[i]).plan.deps@.len()
                    && (exists|j: int|
                    0 <= j < g.builds().len() && (#[trigger] g.builds()[i].plan.deps@[m]).spec_matches_build(
                        &(#[trigger] g.builds()[j]).plan.ident,
                    )) implies exists|k: int|
                    0 <= k < g.edges().len() && (#[trigger] g.edges()[k]).from == i
                        && g.edges()[k].kind is Runtime && g.resolves_to(
                        &g.builds()[i].plan.deps@[m],
                        g.edges()[k].to as int,
                    ) by {
                assert(g.builds()[i].plan == mid.builds()[i].plan);
                let j = choose|j: int|
                    0 <= j < g.builds().len() && (#[trigger] g.builds()[i].plan.deps@[m]).spec_matches_build(
                        &(#[trigger] g.builds()[j]).plan.ident,
                    );
                assert(mid.builds()[j].plan == g.builds()[j].plan);
                assert(mid.builds()[i].plan.deps@[m].spec_matches_build(
                    &mid.builds()[j].plan.ident,
                ));
                let k = choose|k: int|
                    0 <= k < mid.edges().len() && (#[trigger] mid.edges()[k]).from == i
                        && mid.edges()[k].kind is Runtime && mid.resolves_to(
                        &mid.builds()[i].plan.deps@[m],
                        mid.edges()[k].to as int,
                    );
                assert(g.edges()[k] == mid.edges()[k]);
                lemma_resolves_in_stable(
                    mid.builds(),
                    g.builds(),
                    &mid.builds()[i].plan.deps@[m],
                    mid.edges()[k].to as int,
                );
            }
        }
    }
    Ok((g, sources, studios))
}

/// A detected update: the node and why it counts as updated.
#[derive(Debug, Clone, Copy)]
pub struct PackageNodeUpdate {
    pub package: PackageNode,
    pub cause: UpdateCause,
}

/// The designated studio nodes, when the configuration names them and a
/// scanned package matches.
#[derive(Debug, Clone, Copy)]
pub struct StudioPackages {
    pub bootstrap_studio: Option<PackageNode>,
    pub studio: Option<PackageNode>,
}

} // verus!
