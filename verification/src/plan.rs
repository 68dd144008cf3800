//! Plan metadata and buildable packages: the package and studio classes,
//! native-package classification by glob patterns, per-session build paths,
//! and the parsing of a package's recorded build results.

use vstd::prelude::*;

use crate::ident::{
    IdentError, PackageArtifactIdent, PackageBuildIdent, PackageDepIdent, PackageIdent,
};
use crate::ident::{artifact_filename_chars, ident_text_ok, opt_string_eq};
use crate::strutil::{split_char, split_on, strip_prefix_str, trim_chars};

verus! {

/// How a package is built: natively on the host, or inside a studio.
#[derive(Debug, Clone, Copy, PartialEq, Eq, Structural, Hash)]
pub enum PackageType {
    Native,
    Standard,
}

/// The text form of a package type.
pub open spec fn package_type_from_chars(s: Seq<char>) -> Option<PackageType> {
    if s == "native"@ {
        Some(PackageType::Native)
    } else if s == "standard"@ {
        Some(PackageType::Standard)
    } else {
        None
    }
}

impl PackageType {
    /// The canonical text of this package type.
    pub open spec fn chars(self) -> Seq<char> {
        match self {
            PackageType::Native => "native"@,
            PackageType::Standard => "standard"@,
        }
    }

    /// The canonical text of this package type.
    pub fn to_str(&self) -> (r: &'static str)
        ensures
            r@ == self.chars(),
    {
        match self {
            PackageType::Native => "native",
            PackageType::Standard => "standard",
        }
    }

    /// Parse a package type from its text.
    pub fn parse(s: &str) -> (r: Result<PackageType, IdentError>)
        ensures
            match r {
                Ok(t) => package_type_from_chars(s@) == Some(t),
                Err(_) => package_type_from_chars(s@) is None,
            },
    {
        if crate::strutil::str_eq(s, "native") {
            Ok(PackageType::Native)
        } else if crate::strutil::str_eq(s, "standard") {
            Ok(PackageType::Standard)
        } else {
            Err(IdentError::Invalid)
        }
    }
}

/// The studio flavor a package is built in.
#[derive(Debug, Clone, Copy, PartialEq, Eq, Structural, Hash)]
pub enum PackageStudioType {
    Native,
    Bootstrap,
    Standard,
}

/// The text form of a studio type.
pub open spec fn studio_type_from_chars(s: Seq<char>) -> Option<PackageStudioType> {
    if s == "native"@ {
        Some(PackageStudioType::Native)
    } else if s == "bootstrap"@ {
        Some(PackageStudioType::Bootstrap)
    } else if s == "standard"@ {
        Some(PackageStudioType::Standard)
    } else {
        None
    }
}

impl PackageStudioType {
    /// The canonical text of this studio type.
    pub open spec fn chars(self) -> Seq<char> {
        match self {
            PackageStudioType::Native => "native"@,
            PackageStudioType::Bootstrap => "bootstrap"@,
            PackageStudioType::Standard => "standard"@,
        }
    }

    /// The canonical text of this studio type.
    pub fn to_str(&self) -> (r: &'static str)
        ensures
            r@ == self.chars(),
    {
        match self {
            PackageStudioType::Native => "native",
            PackageStudioType::Bootstrap => "bootstrap",
            PackageStudioType::Standard => "standard",
        }
    }

    /// Parse a studio type from its text.
    pub fn parse(s: &str) -> (r: Result<PackageStudioType, IdentError>)
        ensures
            match r {
                Ok(t) => studio_type_from_chars(s@) == Some(t),
                Err(_) => studio_type_from_chars(s@) is None,
            },
    {
        if crate::strutil::str_eq(s, "native") {
            Ok(PackageStudioType::Native)
        } else if crate::strutil::str_eq(s, "bootstrap") {
            Ok(PackageStudioType::Bootstrap)
        } else if crate::strutil::str_eq(s, "standard") {
            Ok(PackageStudioType::Standard)
        } else {
            Err(IdentError::Invalid)
        }
    }
}

/// Why a package counts as updated.
#[derive(Debug, Clone, Copy, PartialEq, Eq, Structural)]
pub enum UpdateCause {
    UpdatedSource,
    UpdatedDependency,
    NoArtifact,
}

impl UpdateCause {
    /// A short description of the cause.
    pub fn to_str(&self) -> (r: &'static str)
        ensures
            r@ == match *self {
                UpdateCause::UpdatedSource => "updated source"@,
                UpdateCause::UpdatedDependency => "updated dependency"@,
                UpdateCause::NoArtifact => "no build artifact"@,
            },
    {
        match self {
            UpdateCause::UpdatedSource => "updated source",
            UpdateCause::UpdatedDependency => "updated dependency",
            UpdateCause::NoArtifact => "no build artifact",
        }
    }
}

/// Metadata extracted from one plan file.
#[derive(Debug, Clone)]
pub struct PlanMetadata {
    pub path: String,
    pub source: String,
    pub repo: String,
    pub ident: PackageBuildIdent,
    pub pkg_source: String,
    pub pkg_shasum: String,
    pub deps: Vec<PackageDepIdent>,
    pub build_deps: Vec<PackageDepIdent>,
}

/// Whether a glob pattern (as `glob::Pattern::new` reads it) is valid.
pub uninterp spec fn glob_pattern_ok(pattern: Seq<char>) -> bool;

/// Whether a valid glob pattern matches a path, as `glob::Pattern::matches`
/// decides it.
pub uninterp spec fn glob_match_spec(pattern: Seq<char>, path: Seq<char>) -> bool;

/// Relies on glob::Pattern::new and glob::Pattern::matches: `None` exactly
/// when the pattern text is rejected, else whether the pattern matches the
/// path; both depend on the two texts alone.
#[verifier::external_body]
fn glob_match(pattern: &str, path: &str) -> (r: Option<bool>)
    ensures
        r is Some <==> glob_pattern_ok(pattern@),
        r matches Some(b) ==> b == glob_match_spec(pattern@, path@),
{
    match glob::Pattern::new(pattern) {
        Ok(p) => Some(p.matches(path)),
        Err(_) => None,
    }
}

/// Whether some valid pattern of the list matches the path; an invalid
/// pattern never matches.
pub open spec fn any_glob_matches(patterns: Seq<Seq<char>>, path: Seq<char>) -> bool {
    exists|i: int|
        0 <= i < patterns.len() && glob_pattern_ok(#[trigger] patterns[i]) && glob_match_spec(
            patterns[i],
            path,
        )
}

/// Test the path against each pattern in turn; invalid patterns are skipped.
pub fn path_matches_any(patterns: &Vec<String>, path: &str) -> (r: bool)
    ensures
        r == any_glob_matches(patterns@.map_values(|p: String| p@), path@),
{
    let ghost pv = patterns@.map_values(|p: String| p@);
    let mut i: usize = 0;
    while i < patterns.len()
        invariant
            i <= patterns@.len(),
            pv == patterns@.map_values(|p: String| p@),
            forall|j: int|
                0 <= j < i ==> !(glob_pattern_ok(#[trigger] pv[j]) && glob_match_spec(pv[j], path@)),
        decreases patterns@.len() - i,
    {
        match glob_match(patterns[i].as_str(), path) {
            Some(true) => {
                proof {
                    assert(glob_pattern_ok(pv[i as int]) && glob_match_spec(pv[i as int], path@));
                }
                return true;
            },
            _ => {},
        }
        i = i + 1;
    }
    false
}

/// The repo-relative form of a source path: the repo prefix and a leading
/// separator removed when present, else the path unchanged.
pub open spec fn repo_rel_chars(source: Seq<char>, repo: Seq<char>) -> Seq<char> {
    if repo.is_prefix_of(source) {
        let rest = source.skip(repo.len() as int);
        if rest.len() > 0 && rest[0] == '/' {
            rest.skip(1)
        } else {
            rest
        }
    } else {
        source
    }
}

/// Strip the repo root, and a leading separator, from a source path.
pub fn repo_relative(source: &str, repo: &str) -> (r: String)
    ensures
        r@ == repo_rel_chars(source@, repo@),
{
    match strip_prefix_str(source, repo) {
        Some(rest) => {
            proof {
                assert(repo@.is_prefix_of(source@)) by {
                    assert(source@.subrange(0, repo@.len() as int) =~= repo@);
                }
                assert(rest@ =~= source@.skip(repo@.len() as int));
            }
            let rest_len = rest.unicode_len();
            if rest_len > 0 && rest.get_char(0) == '/' {
                let out = rest.substring_char(1, rest_len);
                proof {
                    assert(out@ =~= rest@.skip(1));
                }
                out.to_owned()
            } else {
                rest.to_owned()
            }
        },
        None => source.to_owned(),
    }
}

/// One buildable package: its plan, its package class, and, once assigned,
/// its studio class.
#[derive(Debug, Clone)]
pub struct PackageBuild {
    pub plan: PlanMetadata,
    pub package_type: PackageType,
    pub studio_type: Option<PackageStudioType>,
}

impl PackageBuild {
    /// Classify a plan: the package is native exactly when its repo-relative
    /// source path matches a configured native-package glob.
    pub fn new(plan: PlanMetadata, native_patterns: &Vec<String>) -> (b: PackageBuild)
        ensures
            b.plan == plan,
            b.studio_type is None,
            (b.package_type == PackageType::Native) == any_glob_matches(
                native_patterns@.map_values(|p: String| p@),
                repo_rel_chars(plan.source@, plan.repo@),
            ),
    {
        let rel = repo_relative(plan.source.as_str(), plan.repo.as_str());
        let package_type = if path_matches_any(native_patterns, rel.as_str()) {
            PackageType::Native
        } else {
            PackageType::Standard
        };
        PackageBuild { plan, package_type, studio_type: None }
    }

    /// The repo-relative source directory of the plan.
    pub fn source_folder(&self) -> (r: String)
        ensures
            r@ == repo_rel_chars(self.plan.source@, self.plan.repo@),
    {
        repo_relative(self.plan.source.as_str(), self.plan.repo.as_str())
    }

    /// The session build directory of the repo.
    pub fn repo_build_folder(&self, session_id: &str) -> (r: String)
        ensures
            r@ == self.plan.repo@ + "/.hab-auto-build/builds/"@ + session_id@,
    {
        let mut out = self.plan.repo.clone();
        out.append("/.hab-auto-build/builds/");
        out.append(session_id);
        out
    }

    /// The session build directory of this package.
    pub fn package_build_folder(&self, session_id: &str) -> (r: String)
        ensures
            r@ == self.plan.repo@ + "/.hab-auto-build/builds/"@ + session_id@ + seq!['/']
                + self.plan.ident.origin@ + seq!['/'] + self.plan.ident.name@,
    {
        let mut out = self.repo_build_folder(session_id);
        out.append("/");
        out.append(self.plan.ident.origin.as_str());
        out.append("/");
        out.append(self.plan.ident.name.as_str());
        proof {
            reveal_strlit("/");
            assert("/"@ =~= seq!['/']);
            assert(out@ =~= self.plan.repo@ + "/.hab-auto-build/builds/"@ + session_id@
                + seq!['/'] + self.plan.ident.origin@ + seq!['/'] + self.plan.ident.name@);
        }
        out
    }

    /// The in-studio session build directory of this package.
    pub fn package_studio_build_folder(&self, session_id: &str) -> (r: String)
        ensures
            r@ == "/src/.hab-auto-build/builds/"@ + session_id@ + seq!['/']
                + self.plan.ident.origin@ + seq!['/'] + self.plan.ident.name@,
    {
        let mut out = String::new();
        out.append("/src/.hab-auto-build/builds/");
        out.append(session_id);
        out.append("/");
        out.append(self.plan.ident.origin.as_str());
        out.append("/");
        out.append(self.plan.ident.name.as_str());
        proof {
            reveal_strlit("/");
            assert("/"@ =~= seq!['/']);
            assert(out@ =~= "/src/.hab-auto-build/builds/"@ + session_id@ + seq!['/']
                + self.plan.ident.origin@ + seq!['/'] + self.plan.ident.name@);
        }
        out
    }

    /// The build log file of this package for the session.
    pub fn build_log_file(&self, session_id: &str) -> (r: String)
        ensures
            r@ == self.plan.repo@ + "/.hab-auto-build/builds/"@ + session_id@ + seq!['/']
                + self.plan.ident.origin@ + seq!['/'] + self.plan.ident.name@ + "/build.log"@,
    {
        let mut out = self.package_build_folder(session_id);
        out.append("/build.log");
        out
    }

    /// The success marker file of this package for the session.
    pub fn build_success_file(&self, session_id: &str) -> (r: String)
        ensures
            r@ == self.plan.repo@ + "/.hab-auto-build/builds/"@ + session_id@ + seq!['/']
                + self.plan.ident.origin@ + seq!['/'] + self.plan.ident.name@ + "/BUILD_OK"@,
    {
        let mut out = self.package_build_folder(session_id);
        out.append("/BUILD_OK");
        out
    }

    /// The recorded build-results file of this package for the session.
    pub fn build_results_file(&self, session_id: &str) -> (r: String)
        ensures
            r@ == self.plan.repo@ + "/.hab-auto-build/builds/"@ + session_id@ + seq!['/']
                + self.plan.ident.origin@ + seq!['/'] + self.plan.ident.name@ + "/last_build.env"@,
    {
        let mut out = self.package_build_folder(session_id);
        out.append("/last_build.env");
        out
    }

    /// Read the artifact identifier out of the recorded build results: the
    /// first `pkg_artifact=` line names the artifact filename. The read
    /// fails exactly when no line carries the key, or the first keyed line
    /// does not hold a canonical filename of this build.
    pub fn last_build_artifact_from_results(&self, results: &str) -> (r: Result<
        PackageArtifactIdent,
        IdentError,
    >)
        ensures
            match r {
                Ok(a) => {
                    &&& a.origin@ == self.plan.ident.origin@
                    &&& a.name@ == self.plan.ident.name@
                    &&& a.version@ == self.plan.ident.version@
                    &&& a.target == self.plan.ident.target
                    &&& exists|k: int|
                        0 <= k < split_on(results@, '\n').len() && #[trigger] split_on(
                            results@,
                            '\n',
                        )[k] == "pkg_artifact="@ + a.filename_chars()
                },
                Err(_) => forall|k: int|
                    0 <= k < split_on(results@, '\n').len() && line_has_artifact_key(
                        #[trigger] split_on(results@, '\n')[k],
                    ) && (forall|j: int|
                        0 <= j < k ==> !line_has_artifact_key(split_on(results@, '\n')[j]))
                        ==> !artifact_line_for(split_on(results@, '\n')[k], &self.plan.ident),
            },
    {
        let ghost key = "pkg_artifact="@;
        let lines = split_char(results, '\n');
        let ghost lv = lines@.map_values(|l: String| l@);
        let mut k: usize = 0;
        while k < lines.len()
            invariant
                k <= lines@.len(),
                lv == lines@.map_values(|l: String| l@),
                lv == split_on(results@, '\n'),
                key == "pkg_artifact="@,
                forall|j: int| 0 <= j < k ==> !line_has_artifact_key(#[trigger] lv[j]),
            decreases lines@.len() - k,
        {
            match strip_prefix_str(lines[k].as_str(), "pkg_artifact=") {
                Some(filename) => {
                    proof {
                        assert(lv[k as int] == key + filename@);
                        assert(line_has_artifact_key(lv[k as int])) by {
                            assert(lv[k as int].subrange(0, key.len() as int) =~= key);
                        }
                    }
                    let r = PackageArtifactIdent::parse_with_build(filename, &self.plan.ident);
                    proof {
                        if r is Ok {
                            let a = r->Ok_0;
                            assert(lv[k as int] == key + a.filename_chars());
                        } else {
                                let id = &self.plan.ident;
                                assert(!artifact_line_for(lv[k as int], id)) by {
                                    if artifact_line_for(lv[k as int], id) {
                                        let rl = choose|rl: Seq<char>|
                                            lv[k as int] == key + artifact_filename_chars(
                                                id.origin@,
                                                id.name@,
                                                id.version@,
                                                rl,
                                                id.target,
                                            );
                                        crate::strutil::lemma_concat_left_cancel(
                                            key,
                                            filename@,
                                            artifact_filename_chars(
                                                id.origin@,
                                                id.name@,
                                                id.version@,
                                                rl,
                                                id.target,
                                            ),
                                        );
                                    }
                                }
                                assert forall|kk: int|
                                    0 <= kk < lv.len() && line_has_artifact_key(
                                        #[trigger] lv[kk],
                                    ) && (forall|j: int|
                                        0 <= j < kk ==> !line_has_artifact_key(lv[j])) implies
                                    !artifact_line_for(lv[kk], &self.plan.ident) by {
                                    if kk > k {
                                        assert(line_has_artifact_key(lv[k as int]));
                                        assert(false);
                                    }
                                }
                        }
                    }
                    return r;
                },
                None => {},
            }
            k = k + 1;
        }
        Err(IdentError::Invalid)
    }
}

/// Whether a recorded-results line carries the artifact key.
pub open spec fn line_has_artifact_key(l: Seq<char>) -> bool {
    "pkg_artifact="@.is_prefix_of(l)
}

/// Whether a line records a canonical artifact filename of the build.
pub open spec fn artifact_line_for(l: Seq<char>, id: &PackageBuildIdent) -> bool {
    exists|rl: Seq<char>|
        l == "pkg_artifact="@ + artifact_filename_chars(
            id.origin@,
            id.name@,
            id.version@,
            rl,
            id.target,
        )
}

/// Two package identifiers carry the same text in every field.
pub open spec fn ident_fields_eq(a: PackageIdent, b: PackageIdent) -> bool {
    a.origin@ == b.origin@ && a.name@ == b.name@ && a.version@ == b.version@ && a.release@
        == b.release@
}

/// Copy a package identifier field by field.
pub fn copy_ident(a: &PackageIdent) -> (r: PackageIdent)
    ensures
        ident_fields_eq(r, *a),
{
    PackageIdent {
        origin: a.origin.clone(),
        name: a.name.clone(),
        version: a.version.clone(),
        release: a.release.clone(),
    }
}

/// The metadata of an installed package, read from its metafiles.
#[derive(Debug, Clone)]
pub struct PackageMetadata {
    pub ident: Option<PackageIdent>,
    pub deps: Vec<PackageIdent>,
    pub build_deps: Vec<PackageIdent>,
    pub pkg_config_path: Option<String>,
    pub pkg_type: PackageType,
}

/// Whether a line parses as a full package identifier.
pub open spec fn ident_line_ok(l: Seq<char>) -> bool {
    ident_text_ok(l)
}

/// What parsing one identifier per line yields: with every line well
/// formed, one identifier per line in order; with any malformed line, the
/// whole list collapses to the empty list.
pub open spec fn parsed_ident_lines(lines: Seq<String>, out: Seq<PackageIdent>) -> bool {
    &&& (forall|k: int| 0 <= k < lines.len() ==> ident_line_ok(#[trigger] lines[k]@)) ==> {
        &&& out.len() == lines.len()
        &&& forall|k: int|
            0 <= k < lines.len() ==> split_on(trim_chars(#[trigger] lines[k]@), '/') == seq![
                out[k].origin@,
                out[k].name@,
                out[k].version@,
                out[k].release@,
            ]
    }
    &&& (exists|k: int| 0 <= k < lines.len() && !ident_line_ok(#[trigger] lines[k]@))
        ==> out.len() == 0
}

/// Parse one identifier per line; if any line is malformed, the whole list
/// collapses to the empty list.
pub fn parse_ident_lines(lines: &Vec<String>) -> (r: Vec<PackageIdent>)
    ensures
        parsed_ident_lines(lines@, r@),
{
    let mut out: Vec<PackageIdent> = Vec::new();
    let mut k: usize = 0;
    while k < lines.len()
        invariant
            k <= lines@.len(),
            out@.len() == k,
            forall|j: int| 0 <= j < k ==> ident_line_ok(#[trigger] lines@[j]@),
            forall|j: int|
                0 <= j < k ==> split_on(trim_chars(#[trigger] lines@[j]@), '/') == seq![
                    out@[j].origin@,
                    out@[j].name@,
                    out@[j].version@,
                    out@[j].release@,
                ],
        decreases lines@.len() - k,
    {
        match PackageIdent::parse(lines[k].as_str()) {
            Ok(id) => {
                out.push(id);
            },
            Err(_) => {
                return Vec::new();
            },
        }
        k = k + 1;
    }
    out
}

impl PackageMetadata {
    /// Assemble the metadata from the texts of the package's metafiles. A
    /// missing package-type file means a standard package; an unreadable
    /// package type is an error.
    pub fn new(
        ident_line: &str,
        deps_lines: &Vec<String>,
        build_deps_lines: &Vec<String>,
        pkg_config_path: Option<String>,
        pkg_type_text: &Option<String>,
    ) -> (r: Result<PackageMetadata, IdentError>)
        ensures
            match r {
                Ok(m) => {
                    &&& m.ident matches Some(id) && split_on(trim_chars(ident_line@), '/') == seq![
                        id.origin@,
                        id.name@,
                        id.version@,
                        id.release@,
                    ]
                    &&& parsed_ident_lines(deps_lines@, m.deps@)
                    &&& parsed_ident_lines(build_deps_lines@, m.build_deps@)
                    &&& (pkg_type_text matches Some(t) ==> package_type_from_chars(t@) == Some(
                        m.pkg_type,
                    ))
                    &&& (pkg_type_text is None ==> m.pkg_type == PackageType::Standard)
                },
                Err(_) => !ident_line_ok(ident_line@) || (pkg_type_text matches Some(t)
                    && package_type_from_chars(t@) is None),
            },
    {
        let ident = match PackageIdent::parse(ident_line) {
            Ok(id) => id,
            Err(e) => {
                return Err(e);
            },
        };
        let pkg_type = match pkg_type_text {
            Some(t) => match PackageType::parse(t.as_str()) {
                Ok(t) => t,
                Err(e) => {
                    return Err(e);
                },
            },
            None => PackageType::Standard,
        };
        Ok(
            PackageMetadata {
                ident: Some(ident),
                deps: parse_ident_lines(deps_lines),
                build_deps: parse_ident_lines(build_deps_lines),
                pkg_config_path,
                pkg_type,
            },
        )
    }

    /// The package itself and its runtime dependencies.
    pub fn all_runtime_deps(&self) -> (r: Vec<PackageIdent>)
        ensures
            r@.len() == (if self.ident is Some {
                1int
            } else {
                0int
            }) + self.deps@.len(),
            self.ident matches Some(id) ==> ident_fields_eq(r@[0], id),
            forall|k: int|
                0 <= k < self.deps@.len() ==> ident_fields_eq(
                    r@[k + (if self.ident is Some {
                        1int
                    } else {
                        0int
                    })],
                    #[trigger] self.deps@[k],
                ),
    {
        let mut out: Vec<PackageIdent> = Vec::new();
        match &self.ident {
            Some(id) => {
                out.push(copy_ident(id));
            },
            None => {},
        }
        let ghost base = out@.len() as int;
        let mut k: usize = 0;
        while k < self.deps.len()
            invariant
                k <= self.deps@.len(),
                out@.len() == base + k,
                base == if self.ident is Some {
                    1int
                } else {
                    0int
                },
                self.ident matches Some(id) ==> ident_fields_eq(out@[0], id),
                forall|j: int|
                    0 <= j < k ==> ident_fields_eq(out@[j + base], #[trigger] self.deps@[j]),
            decreases self.deps@.len() - k,
        {
            out.push(copy_ident(&self.deps[k]));
            k = k + 1;
        }
        out
    }

    /// The package itself, its runtime dependencies, and its build
    /// dependencies, in that order.
    pub fn all_deps(&self) -> (r: Vec<PackageIdent>)
        ensures
            ({
                let base = if self.ident is Some {
                    1int
                } else {
                    0int
                };
                &&& r@.len() == base + self.deps@.len() + self.build_deps@.len()
                &&& (self.ident matches Some(id) ==> ident_fields_eq(r@[0], id))
                &&& forall|k: int|
                    0 <= k < self.deps@.len() ==> ident_fields_eq(
                        r@[k + base],
                        #[trigger] self.deps@[k],
                    )
                &&& forall|k: int|
                    0 <= k < self.build_deps@.len() ==> ident_fields_eq(
                        r@[k + base + self.deps@.len()],
                        #[trigger] self.build_deps@[k],
                    )
            }),
    {
        let mut out = self.all_runtime_deps();
        let mut k: usize = 0;
        let ghost base = if self.ident is Some {
            1int
        } else {
            0int
        };
        while k < self.build_deps.len()
            invariant
                k <= self.build_deps@.len(),
                base == if self.ident is Some {
                    1int
                } else {
                    0int
                },
                out@.len() == base + self.deps@.len() + k,
                self.ident matches Some(id) ==> ident_fields_eq(out@[0], id),
                forall|j: int|
                    0 <= j < self.deps@.len() ==> ident_fields_eq(
                        out@[j + base],
                        #[trigger] self.deps@[j],
                    ),
                forall|j: int|
                    0 <= j < k ==> ident_fields_eq(
                        out@[j + base + self.deps@.len()],
                        #[trigger] self.build_deps@[j],
                    ),
            decreases self.build_deps@.len() - k,
        {
            out.push(copy_ident(&self.build_deps[k]));
            k = k + 1;
        }
        out
    }
}

/// The local package manager, addressed by its filesystem root. The calls
/// themselves run outside the library; the exit-code rules live here.
pub struct SystemHabitat {
    root: String,
}

impl SystemHabitat {
    /// The filesystem root the package manager works under.
    pub closed spec fn view(&self) -> Seq<char> {
        self.root@
    }

    /// A package manager handle for the given root.
    pub fn new(root: &str) -> (s: SystemHabitat)
        ensures
            s@ == root@,
    {
        SystemHabitat { root: root.to_owned() }
    }

    /// Whether an install invocation succeeded: exit code zero, or exit code
    /// one, which the ecosystem uses for "already installed".
    pub fn install_succeeded(exit_code: &Option<i32>) -> (r: bool)
        ensures
            r == (exit_code matches Some(c) && (c == 0 || c == 1)),
    {
        match exit_code {
            Some(c) => *c == 0 || *c == 1,
            None => false,
        }
    }

    /// Read an installation probe: exit code zero means installed, one means
    /// not installed, anything else is an error.
    pub fn installed_from_exit(exit_code: &Option<i32>) -> (r: Result<bool, IdentError>)
        ensures
            match r {
                Ok(b) => b == (exit_code matches Some(c) && c == 0) && (exit_code matches Some(c)
                    && (c == 0 || c == 1)),
                Err(_) => !(exit_code matches Some(c) && (c == 0 || c == 1)),
            },
    {
        match exit_code {
            Some(c) => {
                if *c == 0 {
                    Ok(true)
                } else if *c == 1 {
                    Ok(false)
                } else {
                    Err(IdentError::Invalid)
                }
            },
            None => Err(IdentError::Invalid),
        }
    }
}

/// Two dependency patterns carry the same text in every field.
pub open spec fn dep_fields_eq(a: PackageDepIdent, b: PackageDepIdent) -> bool {
    a.origin@ == b.origin@ && a.name@ == b.name@ && opt_string_eq(a.version, b.version)
        && opt_string_eq(a.release, b.release)
}

/// Copy an optional string field.
fn copy_opt_string(a: &Option<String>) -> (r: Option<String>)
    ensures
        opt_string_eq(r, *a),
{
    if a.is_some() {
        Some(a.as_ref().unwrap().clone())
    } else {
        None
    }
}

/// Copy a dependency pattern field by field.
pub fn copy_dep_ident(a: &PackageDepIdent) -> (r: PackageDepIdent)
    ensures
        dep_fields_eq(r, *a),
{
    PackageDepIdent {
        origin: a.origin.clone(),
        name: a.name.clone(),
        version: copy_opt_string(&a.version),
        release: copy_opt_string(&a.release),
    }
}

/// Copy a dependency list element by element.
pub fn copy_dep_idents(v: &Vec<PackageDepIdent>) -> (r: Vec<PackageDepIdent>)
    ensures
        r@.len() == v@.len(),
        forall|k: int| 0 <= k < v@.len() ==> dep_fields_eq(#[trigger] r@[k], v@[k]),
{
    let mut out: Vec<PackageDepIdent> = Vec::new();
    let mut k: usize = 0;
    while k < v.len()
        invariant
            k <= v@.len(),
            out@.len() == k,
            forall|j: int| 0 <= j < k ==> dep_fields_eq(#[trigger] out@[j], v@[j]),
        decreases v@.len() - k,
    {
        out.push(copy_dep_ident(&v[k]));
        k = k + 1;
    }
    out
}

/// Two build identifiers carry the same text in every field.
pub open spec fn build_ident_fields_eq(a: &PackageBuildIdent, b: &PackageBuildIdent) -> bool {
    a.target == b.target && a.origin@ == b.origin@ && a.name@ == b.name@ && a.version@
        == b.version@
}

/// Two plans carry the same text in every field.
pub open spec fn plan_fields_eq(a: &PlanMetadata, b: &PlanMetadata) -> bool {
    &&& a.path@ == b.path@
    &&& a.source@ == b.source@
    &&& a.repo@ == b.repo@
    &&& build_ident_fields_eq(&a.ident, &b.ident)
    &&& a.pkg_source@ == b.pkg_source@
    &&& a.pkg_shasum@ == b.pkg_shasum@
    &&& a.deps@.len() == b.deps@.len()
    &&& forall|k: int| 0 <= k < a.deps@.len() ==> dep_fields_eq(#[trigger] a.deps@[k], b.deps@[k])
    &&& a.build_deps@.len() == b.build_deps@.len()
    &&& forall|k: int|
        0 <= k < a.build_deps@.len() ==> dep_fields_eq(#[trigger] a.build_deps@[k], b.build_deps@[k])
}

/// Copy a plan field by field.
pub fn copy_plan(p: &PlanMetadata) -> (r: PlanMetadata)
    ensures
        plan_fields_eq(&r, p),
{
    PlanMetadata {
        path: p.path.clone(),
        source: p.source.clone(),
        repo: p.repo.clone(),
        ident: PackageBuildIdent {
            target: p.ident.target,
            origin: p.ident.origin.clone(),
            name: p.ident.name.clone(),
            version: p.ident.version.clone(),
        },
        pkg_source: p.pkg_source.clone(),
        pkg_shasum: p.pkg_shasum.clone(),
        deps: copy_dep_idents(&p.deps),
        build_deps: copy_dep_idents(&p.build_deps),
    }
}

/// Two buildable packages carry the same plan and classes.
pub open spec fn build_fields_eq(a: &PackageBuild, b: &PackageBuild) -> bool {
    plan_fields_eq(&a.plan, &b.plan) && a.package_type == b.package_type && a.studio_type
        == b.studio_type
}

/// Copy a buildable package field by field.
pub fn copy_build(b: &PackageBuild) -> (r: PackageBuild)
    ensures
        build_fields_eq(&r, b),
{
    PackageBuild { plan: copy_plan(&b.plan), package_type: b.package_type, studio_type: b.studio_type }
}

} // verus!
