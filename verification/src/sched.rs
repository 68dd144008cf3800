//! The scheduler's claim/complete protocol: a worker asks for the next node
//! of the build order whose scheduled dependencies are all built, claims it,
//! and records it as built only after its build, install and lint finish.
//! A node is claimed at most once, and built nodes are never unclaimed.

use vstd::prelude::*;

use crate::artifact::PackageArtifact;
use crate::cache::ArtifactCacheIndex;
use crate::graph::{PackageDependencyGraph, PackageNode};
use crate::ident::{PackageArtifactIdent, PackageBuildIdent, PackageDepIdent, PackageTarget};
use crate::plan::{PackageBuild, PackageStudioType};
use crate::strutil::str_eq;

verus! {

/// What the scheduler hands a worker: a claimed node, a request to wait, or
/// the end of the run.
#[derive(Debug, Clone, Copy, PartialEq, Eq, Structural)]
pub enum NextPackageBuild {
    Ready(PackageNode),
    Waiting,
    Done,
}

/// The shared scheduler state: the planner's build order, and the claim and
/// completion flags per node.
pub struct SchedulerState {
    session_id: String,
    build_order: Vec<PackageNode>,
    in_order: Vec<bool>,
    claimed: Vec<bool>,
    built: Vec<bool>,
}

impl SchedulerState {
    /// The session this run is scoped to.
    pub closed spec fn session(&self) -> Seq<char> {
        self.session_id@
    }

    /// The planner-emitted build order.
    pub closed spec fn order(&self) -> Seq<PackageNode> {
        self.build_order@
    }

    /// The per-node claim flags.
    pub closed spec fn claimed_map(&self) -> Seq<bool> {
        self.claimed@
    }

    /// The per-node completion flags.
    pub closed spec fn built_map(&self) -> Seq<bool> {
        self.built@
    }

    /// The per-node membership flags of the build order.
    pub closed spec fn in_order_map(&self) -> Seq<bool> {
        self.in_order@
    }

    /// Well-formed for a graph of `n` nodes: the flag maps cover the nodes,
    /// order entries are in-range, distinct and flagged, claims stay within
    /// the order, and every built node is claimed.
    pub open spec fn wf(&self, n: int) -> bool {
        &&& self.in_order_map().len() == n
        &&& self.claimed_map().len() == n
        &&& self.built_map().len() == n
        &&& forall|i: int| 0 <= i < self.order().len() ==> (#[trigger] self.order()[i]).0 < n
        &&& forall|i: int, j: int|
            0 <= i < j < self.order().len() ==> self.order()[i] != self.order()[j]
        &&& forall|v: int|
            0 <= v < n ==> (#[trigger] self.in_order_map()[v] == self.order().contains(
                PackageNode(v as usize),
            ))
        &&& forall|v: int| 0 <= v < n && #[trigger] self.claimed_map()[v] ==> self.in_order_map()[v]
        &&& forall|v: int| 0 <= v < n && #[trigger] self.built_map()[v] ==> self.claimed_map()[v]
    }

    /// Whether node `v` is ready to build: it is on the order, not yet
    /// claimed or built, and every dependency of it that is also on the
    /// order is built.
    pub open spec fn ready_spec(&self, graph: &PackageDependencyGraph, v: usize) -> bool {
        &&& v < self.in_order_map().len()
        &&& self.in_order_map()[v as int]
        &&& !self.claimed_map()[v as int]
        &&& !self.built_map()[v as int]
        &&& forall|k: int|
            0 <= k < graph.edges().len() && (#[trigger] graph.edges()[k]).from == v
                && self.in_order_map()[graph.edges()[k].to as int] ==> self.built_map()[
                graph.edges()[k].to as int
            ]
    }

    /// A fresh scheduler over a build order for a graph of `n` nodes.
    pub fn new(session_id: &str, build_order: Vec<PackageNode>, n: usize) -> (s: SchedulerState)
        requires
            forall|i: int| 0 <= i < build_order@.len() ==> (#[trigger] build_order@[i]).0 < n,
            forall|i: int, j: int|
                0 <= i < j < build_order@.len() ==> build_order@[i] != build_order@[j],
        ensures
            s.wf(n as int),
            s.session() == session_id@,
            s.order() == build_order@,
            forall|v: int| 0 <= v < n ==> !(#[trigger] s.claimed_map()[v]),
            forall|v: int| 0 <= v < n ==> !(#[trigger] s.built_map()[v]),
    {
        let mut in_order: Vec<bool> = Vec::new();
        let mut claimed: Vec<bool> = Vec::new();
        let mut built: Vec<bool> = Vec::new();
        let mut v: usize = 0;
        while v < n
            invariant
                v <= n,
                in_order@.len() == v && claimed@.len() == v && built@.len() == v,
                forall|w: int|
                    0 <= w < v ==> #[trigger] in_order@[w] == build_order@.contains(
                        PackageNode(w as usize),
                    ),
                forall|w: int| 0 <= w < v ==> !(#[trigger] claimed@[w]),
                forall|w: int| 0 <= w < v ==> !(#[trigger] built@[w]),
            decreases n - v,
        {
            let mut member = false;
            let mut i: usize = 0;
            while i < build_order.len()
                invariant
                    i <= build_order@.len(),
                    member == exists|j: int|
                        0 <= j < i && (#[trigger] build_order@[j]) == PackageNode(v),
                decreases build_order@.len() - i,
            {
                if build_order[i].0 == v {
                    proof {
                        assert(build_order@[i as int] == PackageNode(v));
                    }
                    member = true;
                }
                i = i + 1;
            }
            proof {
                assert(member == build_order@.contains(PackageNode(v)));
            }
            in_order.push(member);
            claimed.push(false);
            built.push(false);
            v = v + 1;
        }
        SchedulerState {
            session_id: session_id.to_owned(),
            build_order,
            in_order,
            claimed,
            built,
        }
    }

    /// Pick the next node: the first ready node of the build order is
    /// claimed and returned; with no ready node the caller waits, unless
    /// every ordered node is built, which ends the run. Claims only grow,
    /// and completions never change here.
    pub fn next(&mut self, graph: &PackageDependencyGraph) -> (r: NextPackageBuild)
        requires
            old(self).wf(graph.builds().len() as int),
            graph.wf(),
        ensures
            final(self).wf(graph.builds().len() as int),
            final(self).order() == old(self).order(),
            final(self).session() == old(self).session(),
            final(self).built_map() == old(self).built_map(),
            forall|v: int|
                0 <= v < old(self).claimed_map().len() && #[trigger] old(self).claimed_map()[v]
                    ==> final(self).claimed_map()[v],
            match r {
                NextPackageBuild::Ready(p) => {
                    &&& p.0 < graph.builds().len()
                    &&& old(self).ready_spec(graph, p.0)
                    &&& final(self).claimed_map() == old(self).claimed_map().update(
                        p.0 as int,
                        true,
                    )
                    &&& exists|i: int|
                        0 <= i < old(self).order().len() && (#[trigger] old(self).order()[i]) == p
                            && forall|j: int|
                            0 <= j < i ==> !old(self).ready_spec(
                                graph,
                                (#[trigger] old(self).order()[j]).0,
                            )
                },
                NextPackageBuild::Waiting => {
                    &&& *final(self) == *old(self)
                    &&& forall|i: int|
                        0 <= i < old(self).order().len() ==> !old(self).ready_spec(
                            graph,
                            (#[trigger] old(self).order()[i]).0,
                        )
                    &&& exists|i: int|
                        0 <= i < old(self).order().len() && !old(self).built_map()[
                            (#[trigger] old(self).order()[i]).0 as int
                        ]
                },
                NextPackageBuild::Done => {
                    &&& *final(self) == *old(self)
                    &&& forall|i: int|
                        0 <= i < old(self).order().len() ==> old(self).built_map()[
                            (#[trigger] old(self).order()[i]).0 as int
                        ]
                },
            },
    {
        let ghost n = graph.builds().len() as int;
        let mut i: usize = 0;
        while i < self.build_order.len()
            invariant
                self == old(self),
                self.wf(n),
                n == graph.builds().len(),
                graph.wf(),
                i <= self.order().len(),
                forall|j: int|
                    0 <= j < i ==> !self.ready_spec(graph, (#[trigger] self.order()[j]).0),
            decreases self.order().len() - i,
        {
            let p = self.build_order[i];
            if !self.built[p.0] && !self.claimed[p.0] {
                let mut deps_built = true;
                let mut k: usize = 0;
                while k < graph.edge_count()
                    invariant
                        self == old(self),
                        self.wf(n),
                        n == graph.builds().len(),
                        graph.wf(),
                        i < self.order().len(),
                        p == self.order()[i as int],
                        p.0 < n,
                        k <= graph.edges().len(),
                        deps_built ==> forall|kk: int|
                            0 <= kk < k && (#[trigger] graph.edges()[kk]).from == p.0
                                && self.in_order_map()[graph.edges()[kk].to as int]
                                ==> self.built_map()[graph.edges()[kk].to as int],
                        !deps_built ==> exists|kk: int|
                            0 <= kk < graph.edges().len() && (#[trigger] graph.edges()[kk]).from
                                == p.0 && self.in_order_map()[graph.edges()[kk].to as int]
                                && !self.built_map()[graph.edges()[kk].to as int],
                    decreases graph.edges().len() - k,
                {
                    let e = graph.edge(k);
                    if e.from == p.0 && self.in_order[e.to] && !self.built[e.to] {
                        deps_built = false;
                    }
                    k = k + 1;
                }
                if deps_built {
                    proof {
                        assert(self.in_order_map()[p.0 as int]) by {
                            assert(self.order().contains(p)) by {
                                assert(self.order()[i as int] == p);
                            }
                        }
                        assert(self.ready_spec(graph, p.0));
                    }
                    self.claimed[p.0] = true;
                    proof {
                        assert(final(self).wf(n)) by {
                            assert(forall|v: int|
                                0 <= v < n && #[trigger] final(self).claimed_map()[v]
                                    ==> final(self).in_order_map()[v]);
                        }
                        assert(exists|ii: int|
                            0 <= ii < old(self).order().len() && (#[trigger] old(self).order()[ii])
                                == p && forall|j: int|
                                0 <= j < ii ==> !old(self).ready_spec(
                                    graph,
                                    (#[trigger] old(self).order()[j]).0,
                                )) by {
                            assert(old(self).order()[i as int] == p);
                        }
                    }
                    return NextPackageBuild::Ready(p);
                }
            }
            proof {
                assert(!self.ready_spec(graph, (self.order()[i as int]).0));
            }
            i = i + 1;
        }
        let mut all_built = true;
        let mut i: usize = 0;
        while i < self.build_order.len()
            invariant
                self == old(self),
                self.wf(n),
                i <= self.order().len(),
                all_built ==> forall|j: int|
                    0 <= j < i ==> self.built_map()[(#[trigger] self.order()[j]).0 as int],
                !all_built ==> exists|j: int|
                    0 <= j < self.order().len() && !self.built_map()[
                        (#[trigger] self.order()[j]).0 as int
                    ],
            decreases self.order().len() - i,
        {
            let p = self.build_order[i];
            if !self.built[p.0] {
                all_built = false;
            }
            i = i + 1;
        }
        if all_built {
            NextPackageBuild::Done
        } else {
            NextPackageBuild::Waiting
        }
    }

    /// Record a claimed node as built, after its install and lint succeed.
    /// Completions only grow: nothing is ever removed from the built set.
    pub fn mark_complete(&mut self, p: PackageNode)
        requires
            p.0 < old(self).claimed_map().len(),
            p.0 < old(self).built_map().len(),
            old(self).claimed_map()[p.0 as int],
        ensures
            final(self).built_map() == old(self).built_map().update(p.0 as int, true),
            final(self).claimed_map() == old(self).claimed_map(),
            final(self).in_order_map() == old(self).in_order_map(),
            final(self).order() == old(self).order(),
            final(self).session() == old(self).session(),
            forall|n: int| old(self).wf(n) ==> final(self).wf(n),
    {
        self.built[p.0] = true;
    }

    /// Whether a node is recorded as built.
    pub fn is_built(&self, p: PackageNode) -> (r: bool)
        requires
            p.0 < self.built_map().len(),
        ensures
            r == self.built_map()[p.0 as int],
    {
        self.built[p.0]
    }
}

/// A claimed node is never handed out again: claiming is the serialization
/// point, so each node's builder runs at most once per session.
pub proof fn lemma_claimed_at_most_once(
    s: &SchedulerState,
    graph: &PackageDependencyGraph,
    v: usize,
)
    requires
        v < s.claimed_map().len(),
        s.claimed_map()[v as int],
    ensures
        !s.ready_spec(graph, v),
{
}

/// Every built node is claimed: the built set never outruns the claims.
pub proof fn lemma_built_subset_of_claimed(s: &SchedulerState, n: int)
    requires
        s.wf(n),
    ensures
        forall|v: int| 0 <= v < n && #[trigger] s.built_map()[v] ==> s.claimed_map()[v],
{
}

/// Whether some key in the list carries the given text.
pub open spec fn has_key(keys: Seq<String>, s: Seq<char>) -> bool {
    exists|i: int| 0 <= i < keys.len() && (#[trigger] keys[i])@ == s
}

/// Whether a text is the origin of some package of the order.
pub open spec fn is_order_origin(
    graph: &PackageDependencyGraph,
    order: Seq<PackageNode>,
    s: Seq<char>,
) -> bool {
    exists|k: int|
        0 <= k < order.len() && (#[trigger] order[k]).0 < graph.builds().len() && s
            == graph.builds()[order[k].0 as int].plan.ident.origin@
}

/// The signing-key names of a build order: the origins of its packages,
/// each once.
pub fn origin_keys(graph: &PackageDependencyGraph, order: &Vec<PackageNode>) -> (keys: Vec<String>)
    requires
        graph.wf(),
        forall|i: int| 0 <= i < order@.len() ==> (#[trigger] order@[i]).0 < graph.builds().len(),
    ensures
        forall|i: int, j: int| 0 <= i < j < keys@.len() ==> keys@[i]@ != keys@[j]@,
        forall|i: int|
            0 <= i < keys@.len() ==> is_order_origin(graph, order@, (#[trigger] keys@[i])@),
        forall|k: int|
            0 <= k < order@.len() ==> has_key(
                keys@,
                graph.builds()[(#[trigger] order@[k]).0 as int].plan.ident.origin@,
            ),
{
    let mut keys: Vec<String> = Vec::new();
    let mut k: usize = 0;
    while k < order.len()
        invariant
            graph.wf(),
            k <= order@.len(),
            forall|i: int| 0 <= i < order@.len() ==> (#[trigger] order@[i]).0 < graph.builds().len(),
            forall|i: int, j: int| 0 <= i < j < keys@.len() ==> keys@[i]@ != keys@[j]@,
            forall|i: int|
                0 <= i < keys@.len() ==> is_order_origin(graph, order@, (#[trigger] keys@[i])@),
            forall|kk: int|
                0 <= kk < k ==> has_key(
                    keys@,
                    graph.builds()[(#[trigger] order@[kk]).0 as int].plan.ident.origin@,
                ),
        decreases order@.len() - k,
    {
        let origin = &graph.package(&order[k]).plan.ident.origin;
        let mut present = false;
        let mut i: usize = 0;
        while i < keys.len()
            invariant
                i <= keys@.len(),
                present ==> has_key(keys@, origin@),
                !present ==> forall|j: int| 0 <= j < i ==> (#[trigger] keys@[j])@ != origin@,
            decreases keys@.len() - i,
        {
            if str_eq(keys[i].as_str(), origin.as_str()) {
                proof {
                    assert(keys@[i as int]@ == origin@);
                }
                present = true;
            }
            i = i + 1;
        }
        if !present {
            let ghost before = keys@;
            keys.push(origin.clone());
            proof {
                assert(keys@[before.len() as int]@ == origin@);
                assert(forall|j: int| 0 <= j < before.len() ==> #[trigger] keys@[j] == before[j]);
                assert forall|i2: int|
                    0 <= i2 < keys@.len() implies is_order_origin(
                    graph,
                    order@,
                    (#[trigger] keys@[i2])@,
                ) by {
                    if i2 == before.len() {
                        assert(order@[k as int].0 < graph.builds().len() && keys@[i2]@
                            == graph.builds()[(order@[k as int]).0 as int].plan.ident.origin@);
                    } else {
                        assert(is_order_origin(graph, order@, before[i2]@));
                        assert(keys@[i2]@ == before[i2]@);
                    }
                }
                assert forall|kk: int|
                    0 <= kk < k + 1 implies has_key(
                    keys@,
                    graph.builds()[(#[trigger] order@[kk]).0 as int].plan.ident.origin@,
                ) by {
                    if kk == k {
                    } else {
                        let x = choose|x: int|
                            0 <= x < before.len() && (#[trigger] before[x])@ == graph.builds()[
                                (order@[kk]).0 as int
                            ].plan.ident.origin@;
                        assert(keys@[x]@ == graph.builds()[(order@[kk]).0 as int].plan.ident.origin@);
                    }
                }
            }
        } else {
            proof {
                assert forall|kk: int|
                    0 <= kk < k + 1 implies has_key(
                    keys@,
                    graph.builds()[(#[trigger] order@[kk]).0 as int].plan.ident.origin@,
                ) by {}
            }
        }
        k = k + 1;
    }
    keys
}

/// One worker's assignment: the session, the worker's index, and the
/// package it is building.
pub struct PackageBuilder {
    pub session_id: String,
    pub worker_index: usize,
    pub build: PackageBuild,
}

impl PackageBuilder {
    /// Bind a worker to one package build of a session.
    pub fn new(session_id: &str, worker_index: usize, build: &PackageBuild) -> (r: PackageBuilder)
        ensures
            r.session_id@ == session_id@,
            r.worker_index == worker_index,
            crate::plan::build_fields_eq(&r.build, build),
    {
        PackageBuilder {
            session_id: session_id.to_owned(),
            worker_index,
            build: crate::plan::copy_build(build),
        }
    }
}

/// The cache file of an artifact, as text.
pub open spec fn cache_path_chars(a: PackageArtifactIdent) -> Seq<char> {
    "/hab/cache/artifacts/"@ + a.filename_chars()
}

/// The artifact path a dependency takes from this session's results: the
/// first result whose build identifier the pattern matches.
pub open spec fn session_path(
    session: Seq<(PackageBuildIdent, PackageArtifactIdent)>,
    dep: &PackageDepIdent,
) -> Option<Seq<char>>
    decreases session.len(),
{
    if session.len() == 0 {
        None
    } else if dep.spec_matches_build(&session[0].0) {
        Some(cache_path_chars(session[0].1))
    } else {
        session_path(session.skip(1), dep)
    }
}

/// The artifact path a dependency resolves to: a sibling result of this
/// session first, else the latest cached artifact, else nothing.
pub open spec fn chosen_path(
    session: Seq<(PackageBuildIdent, PackageArtifactIdent)>,
    cached: Option<PackageArtifactIdent>,
    dep: &PackageDepIdent,
) -> Option<Seq<char>> {
    match session_path(session, dep) {
        Some(p) => Some(p),
        None => match cached {
            Some(a) => Some(cache_path_chars(a)),
            None => None,
        },
    }
}

/// The resolved artifact paths of a dependency list, in order, with the
/// unresolvable dependencies omitted.
pub open spec fn chosen_paths(
    deps: Seq<PackageDepIdent>,
    session: Seq<(PackageBuildIdent, PackageArtifactIdent)>,
    cached: Seq<Option<PackageArtifactIdent>>,
) -> Seq<Seq<char>>
    decreases deps.len(),
{
    if deps.len() == 0 {
        Seq::<Seq<char>>::empty()
    } else {
        let rest = chosen_paths(deps.drop_last(), session, cached.drop_last());
        match chosen_path(session, cached.last(), &deps.last()) {
            Some(p) => rest.push(p),
            None => rest,
        }
    }
}

/// Resolve the artifact file of each declared dependency, in order: an
/// artifact just produced by a sibling build of this session wins over the
/// latest cached artifact, and a dependency with neither source is omitted.
pub fn resolve_dep_artifacts(
    deps: &Vec<PackageDepIdent>,
    session_results: &Vec<(PackageBuildIdent, PackageArtifactIdent)>,
    cached: &Vec<Option<PackageArtifactIdent>>,
) -> (paths: Vec<String>)
    requires
        cached@.len() == deps@.len(),
    ensures
        paths@.map_values(|s: String| s@) == chosen_paths(deps@, session_results@, cached@),
{
    let mut paths: Vec<String> = Vec::new();
    let mut m: usize = 0;
    proof {
        assert(deps@.take(0) =~= Seq::<PackageDepIdent>::empty());
        assert(paths@.map_values(|s: String| s@) =~= chosen_paths(
            deps@.take(0),
            session_results@,
            cached@.take(0),
        ));
    }
    while m < deps.len()
        invariant
            cached@.len() == deps@.len(),
            m <= deps@.len(),
            paths@.map_values(|s: String| s@) == chosen_paths(
                deps@.take(m as int),
                session_results@,
                cached@.take(m as int),
            ),
        decreases deps@.len() - m,
    {
        let dep = &deps[m];
        let mut found: Option<String> = None;
        let mut k: usize = 0;
        proof {
            assert(session_results@.skip(0) =~= session_results@);
        }
        while k < session_results.len()
            invariant
                m < deps@.len(),
                *dep == deps@[m as int],
                k <= session_results@.len(),
                match found {
                    Some(p) => session_path(session_results@, &deps@[m as int]) == Some(p@),
                    None => session_path(session_results@, &deps@[m as int]) == session_path(
                        session_results@.skip(k as int),
                        &deps@[m as int],
                    ),
                },
            decreases session_results@.len() - k,
        {
            if found.is_none() && dep.matches_build(&session_results[k].0) {
                let p = PackageArtifact::cache_path(&session_results[k].1);
                proof {
                    assert(session_results@.skip(k as int)[0] == session_results@[k as int]);
                    assert(session_path(session_results@.skip(k as int), &deps@[m as int])
                        == Some(cache_path_chars(session_results@[k as int].1)));
                }
                found = Some(p);
            } else {
                proof {
                    if found is None {
                        assert(session_results@.skip(k as int)[0] == session_results@[k as int]);
                        assert(session_results@.skip(k as int).skip(1) =~= session_results@.skip(
                            k + 1,
                        ));
                    }
                }
            }
            k = k + 1;
        }
        proof {
            if found is None {
                assert(session_results@.skip(session_results@.len() as int)
                    =~= Seq::<(PackageBuildIdent, PackageArtifactIdent)>::empty());
            }
        }
        let chosen: Option<String> = if found.is_some() {
            found
        } else if cached[m].is_some() {
            let a = cached[m].as_ref().unwrap();
            Some(PackageArtifact::cache_path(a))
        } else {
            None
        };
        let ghost before = paths@;
        match chosen {
            Some(p) => {
                paths.push(p);
            },
            None => {},
        }
        proof {
            assert(deps@.take(m + 1).drop_last() =~= deps@.take(m as int));
            assert(cached@.take(m + 1).drop_last() =~= cached@.take(m as int));
            assert(deps@.take(m + 1).last() == deps@[m as int]);
            assert(cached@.take(m + 1).last() == cached@[m as int]);
            assert(paths@.map_values(|s: String| s@) =~= chosen_paths(
                deps@.take(m + 1),
                session_results@,
                cached@.take(m + 1),
            ));
        }
        m = m + 1;
    }
    proof {
        assert(deps@.take(deps@.len() as int) =~= deps@);
        assert(cached@.take(cached@.len() as int) =~= cached@);
    }
    paths
}

/// Copy an artifact identifier field by field.
pub fn copy_artifact_ident(a: &PackageArtifactIdent) -> (r: PackageArtifactIdent)
    ensures
        r.origin@ == a.origin@,
        r.name@ == a.name@,
        r.version@ == a.version@,
        r.release@ == a.release@,
        r.target == a.target,
{
    PackageArtifactIdent {
        origin: a.origin.clone(),
        name: a.name.clone(),
        version: a.version.clone(),
        release: a.release.clone(),
        target: a.target,
    }
}

/// One driver invocation: the program to run, its arguments, and its
/// environment.
#[derive(Debug)]
pub struct CommandSpec {
    pub program: String,
    pub args: Vec<String>,
    pub env: Vec<(String, String)>,
}

/// Why no driver invocation exists for a package.
#[derive(Debug, Clone, Copy, PartialEq, Eq, Structural)]
pub enum BuildError {
    NoStudioClass,
    NoBootstrapStudio,
}

/// The session-scoped filesystem root the studios build under.
pub open spec fn session_fs_root_chars(session: Seq<char>) -> Seq<char> {
    "/hab/studios/hab-auto-build-"@ + session
}

/// The session-scoped filesystem root the studios build under.
pub fn session_fs_root(session: &str) -> (r: String)
    ensures
        r@ == session_fs_root_chars(session@),
{
    let mut out = String::new();
    out.append("/hab/studios/hab-auto-build-");
    out.append(session);
    out
}

/// The driver invocation for one package, by its studio class. A native
/// package builds directly with native support and the session output path;
/// a bootstrap package builds through the bootstrap studio rooted at the
/// session root; a standard package builds through the standard studio. A
/// package without a studio class has no invocation, nor has a bootstrap
/// package when no bootstrap studio is configured.
#[verifier::rlimit(100)]
pub fn build_invocation(
    build: &PackageBuild,
    session: &str,
    dep_artifact_paths: &Vec<String>,
    origin_keys: &Vec<String>,
    bootstrap: &Option<PackageDepIdent>,
) -> (r: Result<CommandSpec, BuildError>)
    ensures
        match r {
            Ok(c) => match build.studio_type {
                Some(PackageStudioType::Native) => {
                    &&& c.program@ == "hab"@
                    &&& c.args@.len() == 4
                    &&& c.args@[0]@ == "pkg"@ && c.args@[1]@ == "build"@ && c.args@[2]@ == "-N"@
                    &&& c.args@[3]@ == crate::plan::repo_rel_chars(
                        build.plan.source@,
                        build.plan.repo@,
                    )
                    &&& c.env@.len() == 2
                    &&& c.env@[0].0@ == "HAB_FEAT_NATIVE_PACKAGE_SUPPORT"@ && c.env@[0].1@ == "1"@
                    &&& c.env@[1].0@ == "HAB_OUTPUT_PATH"@
                    &&& c.env@[1].1@ == build.plan.repo@ + "/.hab-auto-build/builds/"@ + session@
                        + seq!['/'] + build.plan.ident.origin@ + seq!['/'] + build.plan.ident.name@
                },
                Some(PackageStudioType::Bootstrap) => {
                    &&& bootstrap matches Some(b) && c.args@[4]@ == b.chars()
                    &&& c.program@ == "sudo"@
                    &&& c.args@.len() == 12
                    &&& c.args@[0]@ == "-E"@ && c.args@[1]@ == "hab"@ && c.args@[2]@ == "pkg"@
                    &&& c.args@[3]@ == "exec"@
                    &&& c.args@[5]@ == "hab-studio"@ && c.args@[6]@ == "-t"@
                    &&& c.args@[7]@ == "bootstrap"@ && c.args@[8]@ == "-r"@
                    &&& c.args@[9]@ == session_fs_root_chars(session@)
                    &&& c.args@[10]@ == "build"@
                    &&& c.args@[11]@ == crate::plan::repo_rel_chars(
                        build.plan.source@,
                        build.plan.repo@,
                    )
                    &&& c.env@.len() == 5
                    &&& c.env@[0].0@ == "HAB_ORIGIN_KEYS"@
                    &&& c.env@[0].1@ == crate::strutil::join_sep(
                        origin_keys@.map_values(|s: String| s@),
                        ","@,
                    )
                    &&& c.env@[1].0@ == "HAB_LICENSE"@ && c.env@[1].1@ == "accept-no-persist"@
                    &&& c.env@[2].0@ == "HAB_STUDIO_INSTALL_PKGS"@
                    &&& c.env@[2].1@ == crate::strutil::join_sep(
                        dep_artifact_paths@.map_values(|s: String| s@),
                        ":"@,
                    )
                    &&& c.env@[3].0@ == "HAB_STUDIO_SECRET_STUDIO_ENTER"@ && c.env@[3].1@ == "1"@
                    &&& c.env@[4].0@ == "HAB_STUDIO_SECRET_HAB_OUTPUT_PATH"@
                    &&& c.env@[4].1@ == "/src/.hab-auto-build/builds/"@ + session@ + seq!['/']
                        + build.plan.ident.origin@ + seq!['/'] + build.plan.ident.name@
                },
                Some(PackageStudioType::Standard) => {
                    &&& c.program@ == "sudo"@
                    &&& c.args@.len() == 7
                    &&& c.args@[0]@ == "-E"@ && c.args@[1]@ == "hab"@ && c.args@[2]@ == "pkg"@
                    &&& c.args@[3]@ == "build"@ && c.args@[4]@ == "-r"@
                    &&& c.args@[5]@ == session_fs_root_chars(session@)
                    &&& c.args@[6]@ == crate::plan::repo_rel_chars(
                        build.plan.source@,
                        build.plan.repo@,
                    )
                    &&& c.env@.len() == 4
                    &&& c.env@[0].0@ == "HAB_LICENSE"@ && c.env@[0].1@ == "accept-no-persist"@
                    &&& c.env@[1].0@ == "HAB_STUDIO_INSTALL_PKGS"@
                    &&& c.env@[1].1@ == crate::strutil::join_sep(
                        dep_artifact_paths@.map_values(|s: String| s@),
                        ":"@,
                    )
                    &&& c.env@[2].0@ == "HAB_ORIGIN_KEYS"@
                    &&& c.env@[2].1@ == crate::strutil::join_sep(
                        origin_keys@.map_values(|s: String| s@),
                        ","@,
                    )
                    &&& c.env@[3].0@ == "HAB_STUDIO_SECRET_OUTPUT_PATH"@
                    &&& c.env@[3].1@ == "/src/.hab-auto-build/builds/"@ + session@ + seq!['/']
                        + build.plan.ident.origin@ + seq!['/'] + build.plan.ident.name@
                },
                None => false,
            },
            Err(e) => match e {
                BuildError::NoStudioClass => build.studio_type is None,
                BuildError::NoBootstrapStudio => build.studio_type == Some(
                    PackageStudioType::Bootstrap,
                ) && bootstrap is None,
            },
        },
{
    let source = build.source_folder();
    match build.studio_type {
        Some(PackageStudioType::Native) => {
            let mut args: Vec<String> = Vec::new();
            args.push("pkg".to_owned());
            args.push("build".to_owned());
            args.push("-N".to_owned());
            args.push(source);
            let mut env: Vec<(String, String)> = Vec::new();
            env.push(("HAB_FEAT_NATIVE_PACKAGE_SUPPORT".to_owned(), "1".to_owned()));
            env.push(("HAB_OUTPUT_PATH".to_owned(), build.package_build_folder(session)));
            Ok(CommandSpec { program: "hab".to_owned(), args, env })
        },
        Some(PackageStudioType::Bootstrap) => {
            if bootstrap.is_none() {
                return Err(BuildError::NoBootstrapStudio);
            }
            let pattern = bootstrap.as_ref().unwrap().to_string();
            let mut args: Vec<String> = Vec::new();
            args.push("-E".to_owned());
            args.push("hab".to_owned());
            args.push("pkg".to_owned());
            args.push("exec".to_owned());
            args.push(pattern);
            args.push("hab-studio".to_owned());
            args.push("-t".to_owned());
            args.push("bootstrap".to_owned());
            args.push("-r".to_owned());
            args.push(session_fs_root(session));
            args.push("build".to_owned());
            args.push(source);
            let mut env: Vec<(String, String)> = Vec::new();
            env.push(("HAB_ORIGIN_KEYS".to_owned(), crate::strutil::join_strings(origin_keys, ",")));
            env.push(("HAB_LICENSE".to_owned(), "accept-no-persist".to_owned()));
            env.push((
                "HAB_STUDIO_INSTALL_PKGS".to_owned(),
                crate::strutil::join_strings(dep_artifact_paths, ":"),
            ));
            env.push(("HAB_STUDIO_SECRET_STUDIO_ENTER".to_owned(), "1".to_owned()));
            env.push((
                "HAB_STUDIO_SECRET_HAB_OUTPUT_PATH".to_owned(),
                build.package_studio_build_folder(session),
            ));
            Ok(CommandSpec { program: "sudo".to_owned(), args, env })
        },
        Some(PackageStudioType::Standard) => {
            let mut args: Vec<String> = Vec::new();
            args.push("-E".to_owned());
            args.push("hab".to_owned());
            args.push("pkg".to_owned());
            args.push("build".to_owned());
            args.push("-r".to_owned());
            args.push(session_fs_root(session));
            args.push(source);
            let mut env: Vec<(String, String)> = Vec::new();
            env.push(("HAB_LICENSE".to_owned(), "accept-no-persist".to_owned()));
            env.push((
                "HAB_STUDIO_INSTALL_PKGS".to_owned(),
                crate::strutil::join_strings(dep_artifact_paths, ":"),
            ));
            env.push(("HAB_ORIGIN_KEYS".to_owned(), crate::strutil::join_strings(origin_keys, ",")));
            env.push((
                "HAB_STUDIO_SECRET_OUTPUT_PATH".to_owned(),
                build.package_studio_build_folder(session),
            ));
            Ok(CommandSpec { program: "sudo".to_owned(), args, env })
        },
        None => Err(BuildError::NoStudioClass),
    }
}

/// The process-wide studio install flags: a worker installs a studio only
/// when its flag is clear, and a rebuild of a studio package clears its flag
/// so the next build reinstalls the fresh studio.
pub struct StudioInstallState {
    pub bootstrap_installed: bool,
    pub studio_installed: bool,
}

impl StudioInstallState {
    /// Both studios start uninstalled.
    pub fn new() -> (s: StudioInstallState)
        ensures
            !s.bootstrap_installed,
            !s.studio_installed,
    {
        StudioInstallState { bootstrap_installed: false, studio_installed: false }
    }

    /// Whether the studio of the given class must be installed before the
    /// build: exactly when the class uses a studio whose flag is clear.
    pub fn install_needed(&self, class: PackageStudioType) -> (r: bool)
        ensures
            r == match class {
                PackageStudioType::Bootstrap => !self.bootstrap_installed,
                PackageStudioType::Standard => !self.studio_installed,
                PackageStudioType::Native => false,
            },
    {
        match class {
            PackageStudioType::Bootstrap => !self.bootstrap_installed,
            PackageStudioType::Standard => !self.studio_installed,
            PackageStudioType::Native => false,
        }
    }

    /// Record that the studio of the given class is installed.
    pub fn mark_installed(&mut self, class: PackageStudioType)
        ensures
            final(self).bootstrap_installed == (old(self).bootstrap_installed || class
                == PackageStudioType::Bootstrap),
            final(self).studio_installed == (old(self).studio_installed || class
                == PackageStudioType::Standard),
    {
        match class {
            PackageStudioType::Bootstrap => {
                self.bootstrap_installed = true;
            },
            PackageStudioType::Standard => {
                self.studio_installed = true;
            },
            PackageStudioType::Native => {},
        }
    }

    /// Record a finished build: a rebuilt studio package clears its flag so
    /// the next worker that needs it reinstalls the fresh version.
    pub fn note_built(
        &mut self,
        built: &PackageBuildIdent,
        bootstrap: &Option<PackageDepIdent>,
        studio: &Option<PackageDepIdent>,
    )
        ensures
            final(self).bootstrap_installed == (old(self).bootstrap_installed && !(
            bootstrap matches Some(p) && p.spec_matches_build(built))),
            final(self).studio_installed == (old(self).studio_installed && !(studio matches Some(p)
                && p.spec_matches_build(built))),
    {
        if bootstrap.is_some() {
            if bootstrap.as_ref().unwrap().matches_build(built) {
                self.bootstrap_installed = false;
            }
        }
        if studio.is_some() {
            if studio.as_ref().unwrap().matches_build(built) {
                self.studio_installed = false;
            }
        }
    }
}

} // verus!