//! Graph construction, build-order planning and the scheduler protocol.

use hab_auto_build::graph::{dep_graph_build, DependencyType, PackageNode, PackageNodeUpdate};
use hab_auto_build::ident::{PackageBuildIdent, PackageDepIdent, PackageTarget};
use hab_auto_build::plan::{PackageBuild, PackageStudioType, PlanMetadata, UpdateCause};
use hab_auto_build::planner::{analysis_members, plan_build};
use hab_auto_build::ident::PackageArtifactIdent;
use hab_auto_build::sched::{
    build_invocation, origin_keys, resolve_dep_artifacts, BuildError, NextPackageBuild,
    PackageBuilder, SchedulerState, StudioInstallState,
};

fn linux() -> PackageTarget {
    PackageTarget::X86_64Linux
}

fn plan_with_deps(
    origin: &str,
    name: &str,
    deps: &[&str],
    build_deps: &[&str],
) -> PlanMetadata {
    PlanMetadata {
        path: format!("/repo/pkgs/{name}/plan.sh"),
        source: format!("/repo/pkgs/{name}"),
        repo: "/repo".to_string(),
        ident: PackageBuildIdent {
            target: linux(),
            origin: origin.to_string(),
            name: name.to_string(),
            version: "1.0".to_string(),
        },
        pkg_source: String::new(),
        pkg_shasum: String::new(),
        deps: deps.iter().map(|d| PackageDepIdent::parse(d).unwrap()).collect(),
        build_deps: build_deps.iter().map(|d| PackageDepIdent::parse(d).unwrap()).collect(),
    }
}

fn build(origin: &str, name: &str, deps: &[&str], build_deps: &[&str]) -> PackageBuild {
    PackageBuild::new(plan_with_deps(origin, name, deps, build_deps), &vec![])
}

fn updates_for(nodes: &[usize], cause: UpdateCause) -> Vec<PackageNodeUpdate> {
    nodes.iter().map(|&v| PackageNodeUpdate { package: PackageNode(v), cause }).collect()
}

#[test]
fn graph_rejects_duplicate_build_idents() {
    let mut builds = vec![
        build("core", "a", &[], &[]),
        build("core", "a", &[], &[]),
    ];
    let r = dep_graph_build(&mut builds, &vec![], &None, &None, false);
    assert!(r.is_err());
}

#[test]
fn chain_builds_dependencies_first() {
    // A build-depends on B; B depends on C; nothing is cached.
    let mut builds = vec![
        build("core", "a", &[], &["core/b"]),
        build("core", "b", &["core/c"], &[]),
        build("core", "c", &[], &[]),
    ];
    let (g, _sources, studios) = dep_graph_build(&mut builds, &vec![], &None, &None, false).unwrap();
    assert_eq!(g.node_count(), 3);
    let updates = updates_for(&[0, 1, 2], UpdateCause::NoArtifact);
    let order = plan_build(&g, &updates, &vec![], &studios, false).unwrap();
    assert_eq!(order, vec![PackageNode(2), PackageNode(1), PackageNode(0)]);
    // Run the whole order through the scheduler.
    let mut s = SchedulerState::new("s1", order, g.node_count());
    let mut done = Vec::new();
    loop {
        match s.next(&g) {
            NextPackageBuild::Ready(p) => {
                s.mark_complete(p);
                done.push(p);
            },
            NextPackageBuild::Waiting => panic!("no worker should wait in a chain"),
            NextPackageBuild::Done => break,
        }
    }
    assert_eq!(done, vec![PackageNode(2), PackageNode(1), PackageNode(0)]);
    assert!(s.is_built(PackageNode(0)) && s.is_built(PackageNode(1)) && s.is_built(PackageNode(2)));
}

#[test]
fn fresh_cache_rebuilds_only_the_updated_node() {
    // Same chain, but only A counts as updated: the order is just A.
    let mut builds = vec![
        build("core", "a", &[], &["core/b"]),
        build("core", "b", &["core/c"], &[]),
        build("core", "c", &[], &[]),
    ];
    let (g, _, studios) = dep_graph_build(&mut builds, &vec![], &None, &None, false).unwrap();
    let updates = updates_for(&[0], UpdateCause::NoArtifact);
    let order = plan_build(&g, &updates, &vec![], &studios, false).unwrap();
    assert_eq!(order, vec![PackageNode(0)]);
}

#[test]
fn cycle_is_reported_with_its_edges() {
    let mut builds = vec![
        build("core", "a", &["core/b"], &[]),
        build("core", "b", &["core/c"], &[]),
        build("core", "c", &["core/a"], &[]),
    ];
    let (g, _, studios) = dep_graph_build(&mut builds, &vec![], &None, &None, false).unwrap();
    let updates = updates_for(&[0], UpdateCause::UpdatedSource);
    let es = plan_build(&g, &updates, &vec![], &studios, false).unwrap_err();
    assert_eq!(es.len(), 3);
    assert!(es.contains(&(PackageNode(0), PackageNode(1))));
    assert!(es.contains(&(PackageNode(1), PackageNode(2))));
    assert!(es.contains(&(PackageNode(2), PackageNode(0))));
}

#[test]
fn empty_repo_plans_nothing_and_finishes_immediately() {
    let mut builds: Vec<PackageBuild> = vec![];
    let (g, _, studios) = dep_graph_build(&mut builds, &vec![], &None, &None, false).unwrap();
    let order = plan_build(&g, &vec![], &vec![], &studios, false).unwrap();
    assert!(order.is_empty());
    let mut s = SchedulerState::new("s1", order, 0);
    assert_eq!(s.next(&g), NextPackageBuild::Done);
}

#[test]
fn all_updates_skipped_plans_nothing() {
    // The skip list covered every updated node, so no updates remain.
    let mut builds = vec![build("core", "a", &[], &[])];
    let (g, _, studios) = dep_graph_build(&mut builds, &vec![], &None, &None, false).unwrap();
    let order = plan_build(&g, &vec![], &vec![], &studios, false).unwrap();
    assert!(order.is_empty());
}

#[test]
fn studio_classes_follow_the_closures() {
    // S depends on X, so X builds in the bootstrap studio; BS has no
    // dependencies; everything else builds in the standard studio.
    let mut builds = vec![
        build("core", "bs", &[], &[]),
        build("core", "s", &["core/x"], &[]),
        build("core", "x", &[], &[]),
        build("core", "app", &[], &[]),
    ];
    let bs_pat = Some(PackageDepIdent::parse("core/bs").unwrap());
    let s_pat = Some(PackageDepIdent::parse("core/s").unwrap());
    let (g, _, studios) = dep_graph_build(&mut builds, &vec![], &bs_pat, &s_pat, false).unwrap();
    assert_eq!(studios.bootstrap_studio, Some(PackageNode(0)));
    assert_eq!(studios.studio, Some(PackageNode(1)));
    assert_eq!(
        g.package(&PackageNode(2)).studio_type,
        Some(PackageStudioType::Bootstrap)
    );
    assert_eq!(
        g.package(&PackageNode(3)).studio_type,
        Some(PackageStudioType::Standard)
    );
    // The bootstrap studio itself is a dependency of neither studio.
    assert_eq!(
        g.package(&PackageNode(0)).studio_type,
        Some(PackageStudioType::Standard)
    );
    // An update in X lands in the studio-closure group, ahead of the rest.
    let updates = updates_for(&[2], UpdateCause::UpdatedSource);
    let order = plan_build(&g, &updates, &vec![], &studios, false).unwrap();
    assert_eq!(order, vec![PackageNode(2), PackageNode(1)]);
}

#[test]
fn strict_mode_is_a_single_stream() {
    let mut builds = vec![
        build("core", "bs", &[], &[]),
        build("core", "s", &["core/x"], &[]),
        build("core", "x", &[], &[]),
    ];
    let bs_pat = Some(PackageDepIdent::parse("core/bs").unwrap());
    let s_pat = Some(PackageDepIdent::parse("core/s").unwrap());
    let (g, _, studios) = dep_graph_build(&mut builds, &vec![], &bs_pat, &s_pat, false).unwrap();
    let updates = updates_for(&[0, 1, 2], UpdateCause::NoArtifact);
    let order = plan_build(&g, &updates, &vec![], &studios, true).unwrap();
    assert_eq!(order.len(), 3);
    // One topological stream: x precedes s, wherever the stream puts them.
    let pos = |p: PackageNode| order.iter().position(|&q| q == p).unwrap();
    assert!(pos(PackageNode(2)) < pos(PackageNode(1)));
}

#[test]
fn nominations_restrict_the_affected_set() {
    let mut builds = vec![
        build("core", "a", &["core/c"], &[]),
        build("core", "b", &["core/c"], &[]),
        build("core", "c", &[], &[]),
    ];
    let start = vec![PackageDepIdent::parse("core/a").unwrap()];
    let (g, sources, studios) = dep_graph_build(&mut builds, &start, &None, &None, false).unwrap();
    assert_eq!(sources, vec![PackageNode(0)]);
    // C updated: without nominations, A, B and C are affected.
    let updates = updates_for(&[2], UpdateCause::UpdatedSource);
    let all = plan_build(&g, &updates, &vec![], &studios, false).unwrap();
    assert_eq!(all.len(), 3);
    // Restricted to the nodes that depend on A, only A itself remains: C is
    // a dependency of A, not a reverse dependency.
    let order = plan_build(&g, &updates, &sources, &studios, false).unwrap();
    assert_eq!(order, vec![PackageNode(0)]);
}

#[test]
fn shared_dependency_schedules_before_its_dependent() {
    // C depends on A and on B; only A is updated, so B stays unscheduled
    // while A and then C are built, with two workers polling.
    let mut builds = vec![
        build("core", "a", &[], &[]),
        build("core", "b", &[], &[]),
        build("core", "c", &["core/a", "core/b"], &[]),
    ];
    let (g, _, studios) = dep_graph_build(&mut builds, &vec![], &None, &None, false).unwrap();
    let updates = updates_for(&[0], UpdateCause::UpdatedSource);
    let order = plan_build(&g, &updates, &vec![], &studios, false).unwrap();
    assert_eq!(order, vec![PackageNode(0), PackageNode(2)]);
    let mut s = SchedulerState::new("s1", order, g.node_count());
    // Worker one claims A; worker two finds nothing ready and waits.
    assert_eq!(s.next(&g), NextPackageBuild::Ready(PackageNode(0)));
    assert_eq!(s.next(&g), NextPackageBuild::Waiting);
    s.mark_complete(PackageNode(0));
    assert_eq!(s.next(&g), NextPackageBuild::Ready(PackageNode(2)));
    assert_eq!(s.next(&g), NextPackageBuild::Waiting);
    s.mark_complete(PackageNode(2));
    assert_eq!(s.next(&g), NextPackageBuild::Done);
}

#[test]
fn a_claimed_node_is_never_handed_out_twice() {
    let mut builds = vec![build("core", "a", &[], &[]), build("core", "b", &[], &[])];
    let (g, _, studios) = dep_graph_build(&mut builds, &vec![], &None, &None, false).unwrap();
    let updates = updates_for(&[0, 1], UpdateCause::NoArtifact);
    let order = plan_build(&g, &updates, &vec![], &studios, false).unwrap();
    let mut s = SchedulerState::new("s1", order, g.node_count());
    let first = s.next(&g);
    let second = s.next(&g);
    assert_ne!(first, second);
    // Both independent nodes are claimed now, none built yet.
    assert_eq!(s.next(&g), NextPackageBuild::Waiting);
}

#[test]
fn dependency_resolution_picks_the_greatest_version() {
    let mut builds = vec![
        build("core", "lib", &[], &[]),
        build("core", "app", &["core/lib"], &[]),
    ];
    builds[0].plan.ident.version = "1.2.0".to_string();
    let mut builds = vec![
        builds.remove(0),
        {
            let mut other = build("core", "lib", &[], &[]);
            other.plan.ident.version = "2.0.0".to_string();
            other
        },
        builds.remove(0),
    ];
    let (g, _, _) = dep_graph_build(&mut builds, &vec![], &None, &None, false).unwrap();
    let best = g.best_match(&PackageDepIdent::parse("core/lib").unwrap()).unwrap();
    assert_eq!(g.package(&best).plan.ident.version, "2.0.0");
    // With a version constraint, only the exact version matches.
    let pinned = g.best_match(&PackageDepIdent::parse("core/lib/1.2.0").unwrap()).unwrap();
    assert_eq!(g.package(&pinned).plan.ident.version, "1.2.0");
    assert!(g.best_match(&PackageDepIdent::parse("core/none").unwrap()).is_none());
}

#[test]
fn studio_edges_only_when_asked() {
    let mut builds = vec![
        build("core", "bs", &[], &[]),
        build("core", "app", &[], &[]),
    ];
    let bs_pat = Some(PackageDepIdent::parse("core/bs").unwrap());
    let (g, _, _) = dep_graph_build(&mut builds.clone(), &vec![], &bs_pat, &None, false).unwrap();
    let plain_edges = g.edge_count();
    let (g2, _, _) = dep_graph_build(&mut builds, &vec![], &bs_pat, &None, true).unwrap();
    assert!(g2.edge_count() > plain_edges);
    let mut saw_studio = false;
    let mut k = 0;
    while k < g2.edge_count() {
        if g2.edge(k).kind == DependencyType::Studio {
            saw_studio = true;
        }
        k += 1;
    }
    assert!(saw_studio);
}

#[test]
fn origin_keys_are_the_orders_origins_once() {
    let mut builds = vec![
        build("core", "a", &[], &[]),
        build("acme", "b", &[], &[]),
        build("core", "c", &[], &[]),
    ];
    let (g, _, _) = dep_graph_build(&mut builds, &vec![], &None, &None, false).unwrap();
    let order = vec![PackageNode(0), PackageNode(1), PackageNode(2)];
    let keys = origin_keys(&g, &order);
    assert_eq!(keys.len(), 2);
    assert!(keys.contains(&"core".to_string()));
    assert!(keys.contains(&"acme".to_string()));
}

#[test]
fn dependency_artifacts_prefer_session_results() {
    let artifact = |version: &str, release: &str| PackageArtifactIdent {
        origin: "core".to_string(),
        name: "lib".to_string(),
        version: version.to_string(),
        release: release.to_string(),
        target: linux(),
    };
    let session_ident = PackageBuildIdent {
        target: linux(),
        origin: "core".to_string(),
        name: "lib".to_string(),
        version: "1.0".to_string(),
    };
    let session = vec![(session_ident, artifact("1.0", "20990101000000"))];
    let deps = vec![
        PackageDepIdent::parse("core/lib").unwrap(),
        PackageDepIdent::parse("core/missing").unwrap(),
    ];
    let cached = vec![Some(artifact("1.0", "20240101000000")), None];
    // The artifact just built this session wins; the unresolvable
    // dependency is omitted.
    let paths = resolve_dep_artifacts(&deps, &session, &cached);
    assert_eq!(
        paths,
        vec!["/hab/cache/artifacts/core-lib-1.0-20990101000000-x86_64-linux.hart".to_string()]
    );
    // Without a sibling result, the cached artifact stands in.
    let paths = resolve_dep_artifacts(&deps, &vec![], &cached);
    assert_eq!(
        paths,
        vec!["/hab/cache/artifacts/core-lib-1.0-20240101000000-x86_64-linux.hart".to_string()]
    );
}

#[test]
fn invocation_follows_the_studio_class() {
    let mut b = build("core", "tool", &[], &[]);
    let keys = vec!["core".to_string()];
    let paths = vec!["/hab/cache/artifacts/x.hart".to_string()];
    let bootstrap = Some(PackageDepIdent::parse("core/bs").unwrap());
    // No class: no invocation.
    assert_eq!(
        build_invocation(&b, "s1", &paths, &keys, &bootstrap).unwrap_err(),
        BuildError::NoStudioClass
    );
    // Native: the direct driver with native support and the output path.
    b.studio_type = Some(PackageStudioType::Native);
    let c = build_invocation(&b, "s1", &paths, &keys, &bootstrap).unwrap();
    assert_eq!(c.program, "hab");
    assert_eq!(c.args, vec!["pkg", "build", "-N", "pkgs/tool"]);
    assert_eq!(c.env[0], ("HAB_FEAT_NATIVE_PACKAGE_SUPPORT".to_string(), "1".to_string()));
    assert_eq!(
        c.env[1],
        (
            "HAB_OUTPUT_PATH".to_string(),
            "/repo/.hab-auto-build/builds/s1/core/tool".to_string()
        )
    );
    // Bootstrap: the bootstrap-mode studio rooted at the session root.
    b.studio_type = Some(PackageStudioType::Bootstrap);
    let c = build_invocation(&b, "s1", &paths, &keys, &bootstrap).unwrap();
    assert_eq!(c.program, "sudo");
    assert_eq!(
        c.args,
        vec![
            "-E",
            "hab",
            "pkg",
            "exec",
            "core/bs",
            "hab-studio",
            "-t",
            "bootstrap",
            "-r",
            "/hab/studios/hab-auto-build-s1",
            "build",
            "pkgs/tool"
        ]
    );
    assert_eq!(c.env[0], ("HAB_ORIGIN_KEYS".to_string(), "core".to_string()));
    assert_eq!(
        c.env[2],
        (
            "HAB_STUDIO_INSTALL_PKGS".to_string(),
            "/hab/cache/artifacts/x.hart".to_string()
        )
    );
    assert_eq!(
        build_invocation(&b, "s1", &paths, &keys, &None).unwrap_err(),
        BuildError::NoBootstrapStudio
    );
    // Standard: the studio build under the session root.
    b.studio_type = Some(PackageStudioType::Standard);
    let c = build_invocation(&b, "s1", &paths, &keys, &bootstrap).unwrap();
    assert_eq!(c.program, "sudo");
    assert_eq!(
        c.args,
        vec!["-E", "hab", "pkg", "build", "-r", "/hab/studios/hab-auto-build-s1", "pkgs/tool"]
    );
    assert_eq!(c.env[0], ("HAB_LICENSE".to_string(), "accept-no-persist".to_string()));
    assert_eq!(
        c.env[3],
        (
            "HAB_STUDIO_SECRET_OUTPUT_PATH".to_string(),
            "/src/.hab-auto-build/builds/s1/core/tool".to_string()
        )
    );
}

#[test]
fn studio_install_flags_follow_the_protocol() {
    let mut flags = StudioInstallState::new();
    assert!(flags.install_needed(PackageStudioType::Bootstrap));
    assert!(flags.install_needed(PackageStudioType::Standard));
    assert!(!flags.install_needed(PackageStudioType::Native));
    flags.mark_installed(PackageStudioType::Bootstrap);
    assert!(!flags.install_needed(PackageStudioType::Bootstrap));
    assert!(flags.install_needed(PackageStudioType::Standard));
    flags.mark_installed(PackageStudioType::Standard);
    // Rebuilding the studio package clears its flag; other builds do not.
    let studio_pat = Some(PackageDepIdent::parse("core/s").unwrap());
    let bs_pat = Some(PackageDepIdent::parse("core/bs").unwrap());
    let other = PackageBuildIdent::parse("core/tool/1.0", linux()).unwrap();
    flags.note_built(&other, &bs_pat, &studio_pat);
    assert!(!flags.install_needed(PackageStudioType::Standard));
    let studio_build = PackageBuildIdent::parse("core/s/1.0", linux()).unwrap();
    flags.note_built(&studio_build, &bs_pat, &studio_pat);
    assert!(flags.install_needed(PackageStudioType::Standard));
    assert!(!flags.install_needed(PackageStudioType::Bootstrap));
}

#[test]
fn builder_binds_a_worker_to_a_package() {
    let b = build("core", "a", &[], &[]);
    let builder = PackageBuilder::new("session-1", 2, &b);
    assert_eq!(builder.session_id, "session-1");
    assert_eq!(builder.worker_index, 2);
    assert_eq!(builder.build.plan.ident.name, "a");
}

#[test]
fn analysis_flags_the_dependency_closure() {
    let mut builds = vec![
        build("core", "a", &["core/b"], &[]),
        build("core", "b", &[], &[]),
        build("core", "c", &[], &[]),
    ];
    let (g, _, _) = dep_graph_build(&mut builds, &vec![], &None, &None, false).unwrap();
    // No selection: everything.
    assert_eq!(analysis_members(&g, &vec![], false), vec![true, true, true]);
    // A's closure is A and B; C is outside it.
    let sel = vec![PackageNode(0)];
    assert_eq!(analysis_members(&g, &sel, false), vec![true, true, false]);
    // Reverse of B: A and B depend on B.
    let sel = vec![PackageNode(1)];
    assert_eq!(analysis_members(&g, &sel, true), vec![true, true, false]);
}

#[test]
fn stratified_order_runs_group_by_group() {
    // Bootstrap-studio closure first, studio closure second, the rest last.
    let mut builds = vec![
        build("core", "bs", &[], &[]),
        build("core", "s", &["core/x"], &[]),
        build("core", "x", &[], &[]),
        build("core", "app", &[], &[]),
    ];
    let bs_pat = Some(PackageDepIdent::parse("core/bs").unwrap());
    let s_pat = Some(PackageDepIdent::parse("core/s").unwrap());
    let (g, _, studios) = dep_graph_build(&mut builds, &vec![], &bs_pat, &s_pat, false).unwrap();
    let updates = updates_for(&[0, 1, 2, 3], UpdateCause::NoArtifact);
    let order = plan_build(&g, &updates, &vec![], &studios, false).unwrap();
    assert_eq!(
        order,
        vec![PackageNode(0), PackageNode(2), PackageNode(1), PackageNode(3)]
    );
}
