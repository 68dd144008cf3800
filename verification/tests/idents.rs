//! Identifier, cache-index, change-detection and artifact-opener behavior.

use hab_auto_build::artifact::{header_end, ident_from_artifact, PackageArtifact};
use hab_auto_build::cache::{cache_index, ArtifactCacheIndex};
use hab_auto_build::detect::{is_updated, skip_timestamp, PackageSkipList};
use hab_auto_build::ident::{
    PackageArtifactIdent, PackageBuildIdent, PackageDepIdent, PackageIdent, PackageTarget,
};
use hab_auto_build::plan::{
    repo_relative, PackageBuild, PackageMetadata, PackageStudioType, PackageType, PlanMetadata,
    SystemHabitat, UpdateCause,
};
use std::io::Read;

fn linux() -> PackageTarget {
    PackageTarget::X86_64Linux
}

fn artifact(origin: &str, name: &str, version: &str, release: &str) -> PackageArtifactIdent {
    PackageArtifactIdent {
        origin: origin.to_string(),
        name: name.to_string(),
        version: version.to_string(),
        release: release.to_string(),
        target: linux(),
    }
}

#[test]
fn target_round_trip() {
    let tags = [
        "aarch64-linux",
        "aarch64-darwin",
        "x86_64-linux",
        "x86_64-darwin",
        "x86_64-windows",
    ];
    for tag in tags {
        let t = PackageTarget::parse(tag).expect("tag parses");
        assert_eq!(t.to_str(), tag);
    }
    assert!(PackageTarget::parse("riscv64-linux").is_none());
}

#[test]
fn package_ident_parse_format_parse() {
    let id = PackageIdent::parse("core/glibc/2.37/20240101000000").unwrap();
    assert_eq!(id.origin, "core");
    assert_eq!(id.name, "glibc");
    assert_eq!(id.version, "2.37");
    assert_eq!(id.release, "20240101000000");
    let text = id.to_string();
    assert_eq!(text, "core/glibc/2.37/20240101000000");
    let again = PackageIdent::parse(&text).unwrap();
    assert_eq!(again, id);
}

#[test]
fn package_ident_rejects_wrong_field_count() {
    assert!(PackageIdent::parse("core/glibc/2.37").is_err());
    assert!(PackageIdent::parse("core/glibc/2.37/a/b").is_err());
}

#[test]
fn identifiers_reject_empty_components() {
    // Every component of an identifier is a non-empty string.
    assert!(PackageIdent::parse("a///").is_err());
    assert!(PackageIdent::parse("core//2.37/20240101000000").is_err());
    assert!(PackageBuildIdent::parse("core//1.0", linux()).is_err());
    assert!(PackageDepIdent::parse("core/").is_err());
    assert!(PackageDepIdent::parse("core/gcc//r").is_err());
}

#[test]
fn package_ident_ignores_surrounding_whitespace() {
    let id = PackageIdent::parse("  core/glibc/2.37/20240101000000\n").unwrap();
    assert_eq!(id.to_string(), "core/glibc/2.37/20240101000000");
}

#[test]
fn dep_ident_parse_format_parse() {
    for text in ["core/gcc", "core/gcc/12.2.0", "core/gcc/12.2.0/20240101000000"] {
        let d = PackageDepIdent::parse(text).unwrap();
        let emitted = d.to_string();
        assert_eq!(emitted, text);
        let again = PackageDepIdent::parse(&emitted).unwrap();
        assert_eq!(again, d);
    }
    assert!(PackageDepIdent::parse("core").is_err());
    assert!(PackageDepIdent::parse("a/b/c/d/e").is_err());
}

#[test]
fn build_ident_parse_format_parse() {
    let b = PackageBuildIdent::parse("core/hab-studio/1.6.0", linux()).unwrap();
    assert_eq!(b.to_string(), "core/hab-studio/1.6.0");
    let again = PackageBuildIdent::parse(&b.to_string(), linux()).unwrap();
    assert_eq!(again, b);
    // A dynamic (empty) version prints as DYNAMIC and reads back as empty.
    let dynamic = PackageBuildIdent {
        target: linux(),
        origin: "core".to_string(),
        name: "tool".to_string(),
        version: String::new(),
    };
    assert_eq!(dynamic.to_string(), "core/tool/DYNAMIC");
    let again = PackageBuildIdent::parse(&dynamic.to_string(), linux()).unwrap();
    assert_eq!(again, dynamic);
}

#[test]
fn artifact_filename_round_trip() {
    let a = artifact("core", "glibc", "2.37", "20240101000000");
    let filename = a.to_filename();
    assert_eq!(filename, "core-glibc-2.37-20240101000000-x86_64-linux.hart");
    let back = PackageArtifactIdent::parse_filename(&filename, "core", "glibc").unwrap();
    assert_eq!(back, a);
}

#[test]
fn artifact_filename_fields_from_the_right() {
    // The expected decomposition of the canonical example filename.
    let parsed = PackageArtifactIdent::parse_filename(
        "core-glibc-2.37-20240101000000-x86_64-linux.hart",
        "core",
        "glibc",
    )
    .unwrap();
    assert_eq!(parsed.origin, "core");
    assert_eq!(parsed.name, "glibc");
    assert_eq!(parsed.version, "2.37");
    assert_eq!(parsed.release, "20240101000000");
    assert_eq!(parsed.target, linux());
    // A dashed name stays intact because the split runs from the right.
    let a = artifact("core", "build-tools-hab-studio", "1.0", "20230901000000");
    let back =
        PackageArtifactIdent::parse_filename(&a.to_filename(), "core", "build-tools-hab-studio")
            .unwrap();
    assert_eq!(back, a);
    assert!(PackageArtifactIdent::parse_filename("not-a-hart-file", "core", "glibc").is_none());
}

#[test]
fn parse_with_ident_and_with_build() {
    let id = PackageIdent::parse("core/glibc/2.37/20240101000000").unwrap();
    let a = PackageArtifactIdent::parse_with_ident(
        "core-glibc-2.37-20240101000000-x86_64-linux.hart",
        &id,
    )
    .unwrap();
    assert_eq!(a.target, linux());
    let b = PackageBuildIdent::parse("core/glibc/2.37", linux()).unwrap();
    let a2 = PackageArtifactIdent::parse_with_build(
        "core-glibc-2.37-20240101000000-x86_64-linux.hart",
        &b,
    )
    .unwrap();
    assert_eq!(a2.release, "20240101000000");
    assert!(PackageArtifactIdent::parse_with_build("garbage", &b).is_err());
}

#[test]
fn matches_build_and_artifact() {
    let d = PackageDepIdent::parse("core/gcc").unwrap();
    let b = PackageBuildIdent::parse("core/gcc/12.2.0", linux()).unwrap();
    assert!(d.matches_build(&b));
    let dv = PackageDepIdent::parse("core/gcc/11.0.0").unwrap();
    assert!(!dv.matches_build(&b));
    let a = artifact("core", "gcc", "12.2.0", "20240101000000");
    assert!(d.matches_artifact(&a));
    assert!(!dv.matches_artifact(&a));
}

#[test]
fn cache_exact_and_latest_release() {
    let mut idx = ArtifactCacheIndex::new();
    idx.insert(artifact("core", "gcc", "12.2.0", "20240101000000"));
    idx.insert(artifact("core", "gcc", "12.2.0", "20240301000000"));
    idx.insert(artifact("core", "gcc", "13.1.0", "20240201000000"));
    // Exact version and release.
    let exact = PackageDepIdent::parse("core/gcc/12.2.0/20240101000000").unwrap();
    let got = idx.latest_artifact(&exact, linux()).unwrap();
    assert_eq!(got.release, "20240101000000");
    let missing = PackageDepIdent::parse("core/gcc/12.2.0/20000101000000").unwrap();
    assert!(idx.latest_artifact(&missing, linux()).is_none());
    // Version given: the largest release within it.
    let by_version = PackageDepIdent::parse("core/gcc/12.2.0").unwrap();
    let got = idx.latest_artifact(&by_version, linux()).unwrap();
    assert_eq!(got.release, "20240301000000");
    // Neither given: the largest version, then its largest release.
    let open = PackageDepIdent::parse("core/gcc").unwrap();
    let got = idx.latest_artifact(&open, linux()).unwrap();
    assert_eq!(got.version, "13.1.0");
    assert_eq!(got.release, "20240201000000");
    // A package with no entries resolves to nothing.
    let other = PackageDepIdent::parse("core/zlib").unwrap();
    assert!(idx.latest_artifact(&other, linux()).is_none());
}

#[test]
fn cache_release_order_is_lexicographic() {
    // "9" sorts after "10" lexicographically; the index documents and keeps
    // that convention.
    let mut idx = ArtifactCacheIndex::new();
    idx.insert(artifact("core", "tool", "1", "10"));
    idx.insert(artifact("core", "tool", "1", "9"));
    let by_version = PackageDepIdent::parse("core/tool/1").unwrap();
    let got = idx.latest_artifact(&by_version, linux()).unwrap();
    assert_eq!(got.release, "9");
}

#[test]
fn cache_query_is_monotone_under_inserts() {
    let mut idx = ArtifactCacheIndex::new();
    idx.insert(artifact("core", "gcc", "12.2.0", "20240101000000"));
    let exact = PackageDepIdent::parse("core/gcc/12.2.0/20240101000000").unwrap();
    let before = idx.latest_artifact(&exact, linux()).unwrap();
    idx.insert(artifact("core", "gcc", "12.2.0", "20240901000000"));
    idx.insert(artifact("core", "gcc", "14.0.0", "20240901000000"));
    let after = idx.latest_artifact(&exact, linux()).unwrap();
    assert_eq!(before, after);
}

#[test]
fn cache_index_parses_filenames_and_skips_bad_entries() {
    let files = vec![
        "core-gcc-12.2.0-20240101000000-x86_64-linux.hart".to_string(),
        "core-gcc-13.1.0-20240201000000-x86_64-linux.hart".to_string(),
        "README.txt".to_string(),
        "core-gcc-garbage".to_string(),
    ];
    let idx = cache_index("core", "gcc", &files);
    let open = PackageDepIdent::parse("core/gcc").unwrap();
    let got = idx.latest_artifact(&open, linux()).unwrap();
    assert_eq!(got.version, "13.1.0");
}

#[test]
fn skip_list_timestamp_applies_only_to_listed_builds() {
    let listed = PackageBuildIdent::parse("core/gcc/12.2.0", linux()).unwrap();
    let skip = Some(PackageSkipList { updated_at: 1700000000, packages: vec![listed.clone()] });
    assert_eq!(skip_timestamp(&skip, &listed), Some(1700000000));
    let other = PackageBuildIdent::parse("core/zlib/1.3", linux()).unwrap();
    assert_eq!(skip_timestamp(&skip, &other), None);
    assert_eq!(skip_timestamp(&None, &listed), None);
}

#[test]
fn update_detection_cases() {
    let a = artifact("core", "gcc", "12.2.0", "20240101000000");
    // No artifact: always updated.
    assert_eq!(
        is_updated(&None, &None, &vec![], &vec![]),
        Some(UpdateCause::NoArtifact)
    );
    // Fresh artifact, older sources, no newer dependency: up to date.
    let last = Some((a.clone(), 1000));
    assert_eq!(is_updated(&last, &None, &vec![900, 1000], &vec![None]), None);
    // A source file newer than the artifact.
    assert_eq!(
        is_updated(&last, &None, &vec![1001], &vec![]),
        Some(UpdateCause::UpdatedSource)
    );
    // The skip-list stamp raises the cutoff.
    assert_eq!(is_updated(&last, &Some(1500), &vec![1400], &vec![]), None);
    // A dependency rebuilt after this artifact wins over updated sources.
    assert_eq!(
        is_updated(
            &last,
            &None,
            &vec![5000],
            &vec![Some("20240501000000".to_string())]
        ),
        Some(UpdateCause::UpdatedDependency)
    );
}

#[test]
fn package_type_and_studio_type_text() {
    assert_eq!(PackageType::parse("native").unwrap(), PackageType::Native);
    assert_eq!(PackageType::parse("standard").unwrap(), PackageType::Standard);
    assert!(PackageType::parse("odd").is_err());
    assert_eq!(PackageStudioType::parse("bootstrap").unwrap(), PackageStudioType::Bootstrap);
    assert_eq!(PackageStudioType::Native.to_str(), "native");
    assert_eq!(UpdateCause::NoArtifact.to_str(), "no build artifact");
}

fn plan(origin: &str, name: &str, version: &str, source: &str) -> PlanMetadata {
    PlanMetadata {
        path: format!("{source}/plan.sh"),
        source: source.to_string(),
        repo: "/repo".to_string(),
        ident: PackageBuildIdent {
            target: linux(),
            origin: origin.to_string(),
            name: name.to_string(),
            version: version.to_string(),
        },
        pkg_source: String::new(),
        pkg_shasum: String::new(),
        deps: vec![],
        build_deps: vec![],
    }
}

#[test]
fn native_classification_by_glob() {
    let patterns = vec!["native/*".to_string()];
    let native = PackageBuild::new(plan("core", "gcc", "12", "/repo/native/gcc"), &patterns);
    assert_eq!(native.package_type, PackageType::Native);
    let standard = PackageBuild::new(plan("core", "zlib", "1", "/repo/pkgs/zlib"), &patterns);
    assert_eq!(standard.package_type, PackageType::Standard);
    // An invalid glob never matches.
    let broken = vec!["[".to_string()];
    let b = PackageBuild::new(plan("core", "gcc", "12", "/repo/native/gcc"), &broken);
    assert_eq!(b.package_type, PackageType::Standard);
}

#[test]
fn session_paths() {
    let b = PackageBuild::new(plan("core", "gcc", "12", "/repo/pkgs/gcc"), &vec![]);
    assert_eq!(b.source_folder(), "pkgs/gcc");
    assert_eq!(repo_relative("/repo/pkgs/gcc", "/repo"), "pkgs/gcc");
    assert_eq!(b.repo_build_folder("s1"), "/repo/.hab-auto-build/builds/s1");
    assert_eq!(
        b.package_build_folder("s1"),
        "/repo/.hab-auto-build/builds/s1/core/gcc"
    );
    assert_eq!(
        b.package_studio_build_folder("s1"),
        "/src/.hab-auto-build/builds/s1/core/gcc"
    );
    assert_eq!(
        b.build_log_file("s1"),
        "/repo/.hab-auto-build/builds/s1/core/gcc/build.log"
    );
    assert_eq!(
        b.build_success_file("s1"),
        "/repo/.hab-auto-build/builds/s1/core/gcc/BUILD_OK"
    );
    assert_eq!(
        b.build_results_file("s1"),
        "/repo/.hab-auto-build/builds/s1/core/gcc/last_build.env"
    );
}

#[test]
fn build_results_artifact_line() {
    let b = PackageBuild::new(plan("core", "gcc", "12.2.0", "/repo/pkgs/gcc"), &vec![]);
    let results = "pkg_origin=core\npkg_artifact=core-gcc-12.2.0-20240101000000-x86_64-linux.hart\n";
    let a = b.last_build_artifact_from_results(results).unwrap();
    assert_eq!(a.release, "20240101000000");
    assert!(b.last_build_artifact_from_results("pkg_origin=core\n").is_err());
    // The first keyed line decides; a malformed one fails the read.
    assert!(b.last_build_artifact_from_results("pkg_artifact=garbage\n").is_err());
}

#[test]
fn package_metadata_from_metafiles() {
    let deps = vec!["core/glibc/2.37/20240101000000".to_string()];
    let build_deps = vec!["core/gcc/12.2.0/20240101000000".to_string()];
    let m = PackageMetadata::new(
        "core/tool/1.0/20240101000000",
        &deps,
        &build_deps,
        None,
        &None,
    )
    .unwrap();
    assert_eq!(m.pkg_type, PackageType::Standard);
    assert_eq!(m.deps.len(), 1);
    assert_eq!(m.all_runtime_deps().len(), 2);
    assert_eq!(m.all_deps().len(), 3);
    // One malformed dependency line collapses the dependency list.
    let bad = vec!["not an ident".to_string()];
    let m = PackageMetadata::new("core/tool/1.0/20240101000000", &bad, &build_deps, None, &None)
        .unwrap();
    assert_eq!(m.deps.len(), 0);
    assert!(PackageMetadata::new("junk", &deps, &build_deps, None, &None).is_err());
    assert!(PackageMetadata::new(
        "core/tool/1.0/20240101000000",
        &deps,
        &build_deps,
        None,
        &Some("odd".to_string())
    )
    .is_err());
}

#[test]
fn install_exit_codes() {
    // Exit code 1 means "already installed" and counts as success.
    assert!(SystemHabitat::install_succeeded(&Some(0)));
    assert!(SystemHabitat::install_succeeded(&Some(1)));
    assert!(!SystemHabitat::install_succeeded(&Some(2)));
    assert!(!SystemHabitat::install_succeeded(&None));
    assert_eq!(SystemHabitat::installed_from_exit(&Some(0)), Ok(true));
    assert_eq!(SystemHabitat::installed_from_exit(&Some(1)), Ok(false));
    assert!(SystemHabitat::installed_from_exit(&Some(7)).is_err());
    let hab = SystemHabitat::new("/hab");
    let _ = hab;
}

#[test]
fn header_end_skips_five_lines() {
    let data: Vec<u8> = b"one\ntwo\nthree\nfour\nfive\nPAYLOAD".to_vec();
    let p = header_end(&data).unwrap();
    assert_eq!(&data[p..], b"PAYLOAD");
    assert!(header_end(&b"only\ntwo\n".to_vec()).is_none());
}

#[test]
fn ident_from_entry_path_and_filename() {
    let a = ident_from_artifact(
        "hab/pkgs/core/glibc/2.37/20240101000000/IDENT",
        "core-glibc-2.37-20240101000000-x86_64-linux.hart",
    )
    .unwrap();
    assert_eq!(a.origin, "core");
    assert_eq!(a.name, "glibc");
    assert_eq!(a.version, "2.37");
    assert_eq!(a.release, "20240101000000");
    assert_eq!(a.target, linux());
    assert!(ident_from_artifact("etc/passwd", "x.hart").is_err());
    assert!(ident_from_artifact(
        "hab/pkgs/core/glibc/2.37/20240101000000/IDENT",
        "mismatched.hart"
    )
    .is_err());
}

#[test]
fn open_artifact_from_bytes() {
    // Assemble a header-prefixed xz-compressed tar, as the build driver
    // writes artifacts.
    let mut tar_bytes: Vec<u8> = Vec::new();
    {
        let mut builder = tar::Builder::new(&mut tar_bytes);
        let mut header = tar::Header::new_gnu();
        let contents = b"core/glibc/2.37/20240101000000";
        header.set_size(contents.len() as u64);
        header.set_cksum();
        builder
            .append_data(
                &mut header,
                "hab/pkgs/core/glibc/2.37/20240101000000/IDENT",
                &contents[..],
            )
            .unwrap();
        builder.finish().unwrap();
    }
    let mut compressed: Vec<u8> = Vec::new();
    xz2::read::XzEncoder::new(&tar_bytes[..], 6)
        .read_to_end(&mut compressed)
        .unwrap();
    let mut data: Vec<u8> = b"HART-1\nHART-FORMAT\nkey\nhash\nsig\n".to_vec();
    data.extend_from_slice(&compressed);
    let pa = PackageArtifact::from_bytes(
        "/hab/cache/artifacts/core-glibc-2.37-20240101000000-x86_64-linux.hart",
        "core-glibc-2.37-20240101000000-x86_64-linux.hart",
        &data,
    )
    .unwrap();
    assert_eq!(pa.ident.origin, "core");
    assert_eq!(pa.ident.release, "20240101000000");
    assert_eq!(
        pa.install_dir(),
        "/hab/pkgs/core/glibc/2.37/20240101000000"
    );
    assert_eq!(
        PackageArtifact::cache_path(&pa.ident),
        "/hab/cache/artifacts/core-glibc-2.37-20240101000000-x86_64-linux.hart"
    );
    // A truncated file fails to open.
    assert!(PackageArtifact::from_bytes("p", "f", &b"short".to_vec()).is_err());
}
