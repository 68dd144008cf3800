//! The identifier model: platform targets, full package identifiers,
//! build identifiers, dependency patterns and artifact identifiers, with
//! parsing, formatting, matching and ordering.

use vstd::prelude::*;

use crate::strutil::{
    lemma_split_on_prepend, lemma_split_on_sep_free, lemma_trim_edges,
    lemma_trim_id, lex_lt, sep_free, split_char, split_on, str_eq, str_lt, strip_prefix_str,
    strip_suffix_str, trim_chars, trim_str,
};

verus! {

/// Error for identifier text that does not have the expected shape.
#[derive(Debug, Clone, Copy, PartialEq, Eq, Structural)]
pub enum IdentError {
    Invalid,
}

/// A platform tag carried by build and artifact identifiers.
#[derive(Debug, Clone, Copy, PartialEq, Eq, Structural, Hash)]
pub enum PackageTarget {
    AArch64Linux,
    AArch64Darwin,
    X86_64Linux,
    X86_64Darwin,
    X86_64Windows,
}

/// The parse of a target tag, the inverse of `PackageTarget::chars`.
pub open spec fn target_from_chars(s: Seq<char>) -> Option<PackageTarget> {
    if s == "aarch64-linux"@ {
        Some(PackageTarget::AArch64Linux)
    } else if s == "aarch64-darwin"@ {
        Some(PackageTarget::AArch64Darwin)
    } else if s == "x86_64-linux"@ {
        Some(PackageTarget::X86_64Linux)
    } else if s == "x86_64-darwin"@ {
        Some(PackageTarget::X86_64Darwin)
    } else if s == "x86_64-windows"@ {
        Some(PackageTarget::X86_64Windows)
    } else {
        None
    }
}

impl PackageTarget {
    /// The canonical text of this target tag.
    pub open spec fn chars(self) -> Seq<char> {
        match self {
            PackageTarget::AArch64Linux => "aarch64-linux"@,
            PackageTarget::AArch64Darwin => "aarch64-darwin"@,
            PackageTarget::X86_64Linux => "x86_64-linux"@,
            PackageTarget::X86_64Darwin => "x86_64-darwin"@,
            PackageTarget::X86_64Windows => "x86_64-windows"@,
        }
    }

    /// The architecture part of the tag, before the dash.
    pub open spec fn arch_chars(self) -> Seq<char> {
        match self {
            PackageTarget::AArch64Linux => "aarch64"@,
            PackageTarget::AArch64Darwin => "aarch64"@,
            PackageTarget::X86_64Linux => "x86_64"@,
            PackageTarget::X86_64Darwin => "x86_64"@,
            PackageTarget::X86_64Windows => "x86_64"@,
        }
    }

    /// The operating-system part of the tag, after the dash.
    pub open spec fn os_chars(self) -> Seq<char> {
        match self {
            PackageTarget::AArch64Linux => "linux"@,
            PackageTarget::AArch64Darwin => "darwin"@,
            PackageTarget::X86_64Linux => "linux"@,
            PackageTarget::X86_64Darwin => "darwin"@,
            PackageTarget::X86_64Windows => "windows"@,
        }
    }

    /// The canonical text of this target tag.
    pub fn to_str(&self) -> (r: &'static str)
        ensures
            r@ == self.chars(),
    {
        match self {
            PackageTarget::AArch64Linux => "aarch64-linux",
            PackageTarget::AArch64Darwin => "aarch64-darwin",
            PackageTarget::X86_64Linux => "x86_64-linux",
            PackageTarget::X86_64Darwin => "x86_64-darwin",
            PackageTarget::X86_64Windows => "x86_64-windows",
        }
    }

    /// Parse a target tag; exactly the five canonical tags are accepted.
    pub fn parse(s: &str) -> (r: Option<PackageTarget>)
        ensures
            r == target_from_chars(s@),
    {
        if str_eq(s, "aarch64-linux") {
            Some(PackageTarget::AArch64Linux)
        } else if str_eq(s, "aarch64-darwin") {
            Some(PackageTarget::AArch64Darwin)
        } else if str_eq(s, "x86_64-linux") {
            Some(PackageTarget::X86_64Linux)
        } else if str_eq(s, "x86_64-darwin") {
            Some(PackageTarget::X86_64Darwin)
        } else if str_eq(s, "x86_64-windows") {
            Some(PackageTarget::X86_64Windows)
        } else {
            None
        }
    }
}

/// Each target tag is its architecture, a dash, and its operating system,
/// both dash-free and non-empty; and parsing inverts formatting.
pub proof fn lemma_target_structure(t: PackageTarget)
    ensures
        t.chars() == t.arch_chars() + seq!['-'] + t.os_chars(),
        sep_free(t.arch_chars(), '-'),
        sep_free(t.os_chars(), '-'),
        t.arch_chars().len() > 0,
        t.os_chars().len() > 0,
        target_from_chars(t.chars()) == Some(t),
{
    reveal_strlit("aarch64-linux");
    reveal_strlit("aarch64-darwin");
    reveal_strlit("x86_64-linux");
    reveal_strlit("x86_64-darwin");
    reveal_strlit("x86_64-windows");
    reveal_strlit("aarch64");
    reveal_strlit("x86_64");
    reveal_strlit("linux");
    reveal_strlit("darwin");
    reveal_strlit("windows");
    assert("aarch64-linux"@.len() == 13);
    assert("aarch64-darwin"@.len() == 14);
    assert("x86_64-linux"@.len() == 12);
    assert("x86_64-darwin"@.len() == 13);
    assert("x86_64-windows"@.len() == 14);
    assert("aarch64-linux"@[0] == 'a');
    assert("aarch64-darwin"@[0] == 'a');
    assert("x86_64-darwin"@[0] == 'x');
    assert("x86_64-windows"@[0] == 'x');
    match t {
        PackageTarget::AArch64Linux => {
            assert(t.chars() =~= t.arch_chars() + seq!['-'] + t.os_chars());
        },
        PackageTarget::AArch64Darwin => {
            assert(t.chars() =~= t.arch_chars() + seq!['-'] + t.os_chars());
        },
        PackageTarget::X86_64Linux => {
            assert(t.chars() =~= t.arch_chars() + seq!['-'] + t.os_chars());
        },
        PackageTarget::X86_64Darwin => {
            assert(t.chars() =~= t.arch_chars() + seq!['-'] + t.os_chars());
        },
        PackageTarget::X86_64Windows => {
            assert(t.chars() =~= t.arch_chars() + seq!['-'] + t.os_chars());
        },
    }
}

/// A full package identifier: `origin/name/version/release`.
#[derive(Debug, Clone, Hash)]
pub struct PackageIdent {
    pub origin: String,
    pub name: String,
    pub version: String,
    pub release: String,
}

impl PartialEq for PackageIdent {
    fn eq(&self, other: &Self) -> (r: bool) {
        self.origin == other.origin && self.name == other.name && self.version == other.version
            && self.release == other.release
    }
}

impl vstd::std_specs::cmp::PartialEqSpecImpl for PackageIdent {
    open spec fn obeys_eq_spec() -> bool {
        true
    }

    open spec fn eq_spec(&self, other: &Self) -> bool {
        self.origin@ == other.origin@ && self.name@ == other.name@ && self.version@
            == other.version@ && self.release@ == other.release@
    }
}

/// The serialized form of a full package identifier.
pub open spec fn package_ident_chars(o: Seq<char>, n: Seq<char>, v: Seq<char>, r: Seq<char>)
    -> Seq<char> {
    o + seq!['/'] + n + seq!['/'] + v + seq!['/'] + r
}

/// Whether a text is a well-formed full identifier: after trimming the
/// surrounding whitespace, exactly four slash-separated fields, each
/// non-empty.
pub open spec fn ident_text_ok(s: Seq<char>) -> bool {
    let p = split_on(trim_chars(s), '/');
    p.len() == 4 && p[0].len() > 0 && p[1].len() > 0 && p[2].len() > 0 && p[3].len() > 0
}

/// Whether a text is a well-formed build identifier: exactly three
/// slash-separated fields, each non-empty.
pub open spec fn build_text_ok(s: Seq<char>) -> bool {
    let p = split_on(s, '/');
    p.len() == 3 && p[0].len() > 0 && p[1].len() > 0 && p[2].len() > 0
}

/// Whether a text is a well-formed dependency pattern: two to four
/// slash-separated fields, each non-empty.
pub open spec fn dep_text_ok(s: Seq<char>) -> bool {
    let p = split_on(s, '/');
    &&& 2 <= p.len() <= 4
    &&& forall|k: int| 0 <= k < p.len() ==> (#[trigger] p[k]).len() > 0
}

impl PackageIdent {
    /// The serialized `origin/name/version/release` form.
    pub open spec fn chars(&self) -> Seq<char> {
        package_ident_chars(self.origin@, self.name@, self.version@, self.release@)
    }

    /// Parse the `origin/name/version/release` form: the surrounding
    /// whitespace is ignored, and exactly four non-empty slash-separated
    /// fields are accepted.
    pub fn parse(s: &str) -> (r: Result<PackageIdent, IdentError>)
        ensures
            match r {
                Ok(id) => ident_text_ok(s@) && split_on(trim_chars(s@), '/') == seq![
                    id.origin@,
                    id.name@,
                    id.version@,
                    id.release@,
                ],
                Err(_) => !ident_text_ok(s@),
            },
    {
        let trimmed = trim_str(s);
        let parts = split_char(trimmed, '/');
        if parts.len() == 4 && parts[0].as_str().unicode_len() > 0
            && parts[1].as_str().unicode_len() > 0 && parts[2].as_str().unicode_len() > 0
            && parts[3].as_str().unicode_len() > 0 {
            let id = PackageIdent {
                origin: parts[0].clone(),
                name: parts[1].clone(),
                version: parts[2].clone(),
                release: parts[3].clone(),
            };
            proof {
                assert(split_on(trim_chars(s@), '/') =~= seq![
                    id.origin@,
                    id.name@,
                    id.version@,
                    id.release@,
                ]);
            }
            Ok(id)
        } else {
            Err(IdentError::Invalid)
        }
    }

    /// Format as `origin/name/version/release`.
    pub fn to_string(&self) -> (r: String)
        ensures
            r@ == self.chars(),
    {
        let mut out = self.origin.clone();
        out.append("/");
        out.append(self.name.as_str());
        out.append("/");
        out.append(self.version.as_str());
        out.append("/");
        out.append(self.release.as_str());
        proof {
            reveal_strlit("/");
            assert("/"@ =~= seq!['/']);
            assert(out@ =~= self.chars());
        }
        out
    }

    /// The artifact identifier of this package on the given target.
    pub fn artifact(&self, target: PackageTarget) -> (r: PackageArtifactIdent)
        ensures
            r.origin@ == self.origin@,
            r.name@ == self.name@,
            r.version@ == self.version@,
            r.release@ == self.release@,
            r.target == target,
    {
        PackageArtifactIdent {
            origin: self.origin.clone(),
            name: self.name.clone(),
            version: self.version.clone(),
            release: self.release.clone(),
            target,
        }
    }

    /// The installation directory of this package, relative to a root.
    pub fn install_dir(&self) -> (r: String)
        ensures
            r@ == "hab/pkgs/"@ + self.origin@ + seq!['/'] + self.name@ + seq!['/'] + self.version@
                + seq!['/'] + self.release@,
    {
        let mut out = String::new();
        out.append("hab/pkgs/");
        out.append(self.origin.as_str());
        out.append("/");
        out.append(self.name.as_str());
        out.append("/");
        out.append(self.version.as_str());
        out.append("/");
        out.append(self.release.as_str());
        proof {
            reveal_strlit("/");
            assert("/"@ =~= seq!['/']);
            assert(out@ =~= "hab/pkgs/"@ + self.origin@ + seq!['/'] + self.name@ + seq!['/']
                + self.version@ + seq!['/'] + self.release@);
        }
        out
    }

    /// The dependency pattern naming exactly this package.
    pub fn to_dep_ident(&self) -> (r: PackageDepIdent)
        ensures
            r.origin@ == self.origin@,
            r.name@ == self.name@,
            r.version matches Some(v) && v@ == self.version@,
            r.release matches Some(rl) && rl@ == self.release@,
    {
        PackageDepIdent {
            origin: self.origin.clone(),
            name: self.name.clone(),
            version: Some(self.version.clone()),
            release: Some(self.release.clone()),
        }
    }
}

/// Any string that parses into four fields re-parses identically after
/// being re-emitted in the canonical form.
pub proof fn lemma_package_ident_round_trip(
    s: Seq<char>,
    o: Seq<char>,
    n: Seq<char>,
    v: Seq<char>,
    r: Seq<char>,
)
    requires
        split_on(trim_chars(s), '/') == seq![o, n, v, r],
        o.len() > 0 && n.len() > 0 && v.len() > 0 && r.len() > 0,
    ensures
        ident_text_ok(package_ident_chars(o, n, v, r)),
        split_on(trim_chars(package_ident_chars(o, n, v, r)), '/') == seq![o, n, v, r],
{
    let t = trim_chars(s);
    let formatted = package_ident_chars(o, n, v, r);
    // The trimmed source is exactly the canonical form of its fields.
    crate::strutil::lemma_split_concat(t, '/');
    assert(crate::strutil::join_sep(seq![o, n, v, r], seq!['/']) =~= formatted) by {
        reveal_with_fuel(crate::strutil::join_sep, 5);
        assert(seq![o, n, v, r].skip(1) =~= seq![n, v, r]);
        assert(seq![n, v, r].skip(1) =~= seq![v, r]);
        assert(seq![v, r].skip(1) =~= seq![r]);
    }
    assert(t == formatted);
    // A trimmed string trims to itself, so re-parsing sees the same fields.
    lemma_trim_edges(s);
    assert(t.len() > 0);
    lemma_trim_id(t);
    assert(trim_chars(formatted) == formatted);
}

/// Every part that `split_on` yields is free of the separator.
pub proof fn lemma_split_on_parts_sep_free(s: Seq<char>, c: char)
    ensures
        forall|i: int| 0 <= i < split_on(s, c).len() ==> sep_free(#[trigger] split_on(s, c)[i], c),
    decreases s.len(),
{
    if s.len() == 0 {
        assert forall|i: int| 0 <= i < split_on(s, c).len() implies sep_free(
            #[trigger] split_on(s, c)[i],
            c,
        ) by {
            assert(split_on(s, c)[i] == Seq::<char>::empty());
        }
    } else if s[0] == c {
        lemma_split_on_parts_sep_free(s.skip(1), c);
        assert forall|i: int| 0 <= i < split_on(s, c).len() implies sep_free(
            #[trigger] split_on(s, c)[i],
            c,
        ) by {
            if i == 0 {
                assert(split_on(s, c)[0] == Seq::<char>::empty());
            } else {
                assert(split_on(s, c)[i] == split_on(s.skip(1), c)[i - 1]);
            }
        }
    } else {
        lemma_split_on_parts_sep_free(s.skip(1), c);
        let rest = split_on(s.skip(1), c);
        assert forall|i: int| 0 <= i < split_on(s, c).len() implies sep_free(
            #[trigger] split_on(s, c)[i],
            c,
        ) by {
            if i == 0 {
                assert(split_on(s, c)[0] == seq![s[0]] + rest[0]);
                assert(sep_free(rest[0], c));
                assert forall|j: int| 0 <= j < (seq![s[0]] + rest[0]).len() implies (seq![s[0]]
                    + rest[0])[j] != c by {
                    if j == 0 {
                        assert((seq![s[0]] + rest[0])[0] == s[0]);
                    } else {
                        assert((seq![s[0]] + rest[0])[j] == rest[0][j - 1]);
                    }
                }
            } else {
                assert(split_on(s, c)[i] == rest.skip(1)[i - 1]);
                assert(rest.skip(1)[i - 1] == rest[i]);
            }
        }
    }
}

/// Joining four separator-free fields splits back into the four fields.
pub proof fn lemma_join_four(o: Seq<char>, n: Seq<char>, v: Seq<char>, r: Seq<char>, c: char)
    requires
        sep_free(o, c),
        sep_free(n, c),
        sep_free(v, c),
        sep_free(r, c),
    ensures
        split_on(o + seq![c] + n + seq![c] + v + seq![c] + r, c) == seq![o, n, v, r],
{
    let s3 = v + seq![c] + r;
    let s2 = n + seq![c] + s3;
    let s1 = o + seq![c] + s2;
    lemma_split_on_sep_free(r, c);
    lemma_split_on_prepend(v, r, c);
    lemma_split_on_prepend(n, s3, c);
    lemma_split_on_prepend(o, s2, c);
    assert(o + seq![c] + n + seq![c] + v + seq![c] + r =~= s1);
    assert(split_on(s3, c) =~= seq![v, r]);
    assert(split_on(s2, c) =~= seq![n, v, r]);
    assert(split_on(s1, c) =~= seq![o, n, v, r]);
}

/// A build identifier: target plus `origin/name/version`, where an empty
/// version stands for a dynamically determined one.
#[derive(Debug, Clone, Hash)]
pub struct PackageBuildIdent {
    pub target: PackageTarget,
    pub origin: String,
    pub name: String,
    pub version: String,
}

impl PartialEq for PackageBuildIdent {
    fn eq(&self, other: &Self) -> (r: bool) {
        self.target == other.target && self.origin == other.origin && self.name == other.name
            && self.version == other.version
    }
}

impl vstd::std_specs::cmp::PartialEqSpecImpl for PackageBuildIdent {
    open spec fn obeys_eq_spec() -> bool {
        true
    }

    open spec fn eq_spec(&self, other: &Self) -> bool {
        self.target == other.target && self.origin@ == other.origin@ && self.name@ == other.name@
            && self.version@ == other.version@
    }
}

/// Strict order on build identifiers of one target: lexicographic by
/// origin, then name, then version.
pub open spec fn build_ident_lt(a: &PackageBuildIdent, b: &PackageBuildIdent) -> bool {
    a.target == b.target && (lex_lt(a.origin@, b.origin@) || (a.origin@ == b.origin@ && (lex_lt(
        a.name@,
        b.name@,
    ) || (a.name@ == b.name@ && lex_lt(a.version@, b.version@)))))
}

/// No build identifier is strictly below itself.
pub proof fn lemma_build_ident_lt_irrefl(a: &PackageBuildIdent)
    ensures
        !build_ident_lt(a, a),
{
    crate::strutil::lemma_lex_lt_irrefl(a.origin@);
    crate::strutil::lemma_lex_lt_irrefl(a.name@);
    crate::strutil::lemma_lex_lt_irrefl(a.version@);
}

/// The order on build identifiers is transitive.
pub proof fn lemma_build_ident_lt_trans(
    a: &PackageBuildIdent,
    b: &PackageBuildIdent,
    c: &PackageBuildIdent,
)
    requires
        build_ident_lt(a, b),
        build_ident_lt(b, c),
    ensures
        build_ident_lt(a, c),
{
    if lex_lt(a.origin@, b.origin@) && lex_lt(b.origin@, c.origin@) {
        crate::strutil::lemma_lex_lt_trans(a.origin@, b.origin@, c.origin@);
    } else if a.origin@ == b.origin@ && a.name@ == b.name@ && b.origin@ == c.origin@ && b.name@
        == c.name@ && lex_lt(a.version@, b.version@) && lex_lt(b.version@, c.version@) {
        crate::strutil::lemma_lex_lt_trans(a.version@, b.version@, c.version@);
    } else if lex_lt(a.name@, b.name@) && lex_lt(b.name@, c.name@) {
        crate::strutil::lemma_lex_lt_trans(a.name@, b.name@, c.name@);
    }
}

impl PackageBuildIdent {
    /// The serialized form: an empty version prints as `DYNAMIC`.
    pub open spec fn chars(&self) -> Seq<char> {
        if self.version@.len() == 0 {
            self.origin@ + seq!['/'] + self.name@ + seq!['/'] + "DYNAMIC"@
        } else {
            self.origin@ + seq!['/'] + self.name@ + seq!['/'] + self.version@
        }
    }

    /// Format as `origin/name/version`, with `DYNAMIC` for an empty version.
    pub fn to_string(&self) -> (r: String)
        ensures
            r@ == self.chars(),
    {
        let mut out = self.origin.clone();
        out.append("/");
        out.append(self.name.as_str());
        out.append("/");
        if self.version.as_str().unicode_len() == 0 {
            out.append("DYNAMIC");
        } else {
            out.append(self.version.as_str());
        }
        proof {
            reveal_strlit("/");
            assert("/"@ =~= seq!['/']);
            assert(out@ =~= self.chars());
        }
        out
    }

    /// Parse `origin/name/version` for the given target: exactly three
    /// non-empty slash-separated fields, with the version text `DYNAMIC`
    /// read as the empty (dynamic) version.
    pub fn parse(s: &str, target: PackageTarget) -> (r: Result<PackageBuildIdent, IdentError>)
        ensures
            match r {
                Ok(id) => {
                    &&& build_text_ok(s@)
                    &&& id.target == target
                    &&& id.origin@ == split_on(s@, '/')[0]
                    &&& id.name@ == split_on(s@, '/')[1]
                    &&& id.version@ == (if split_on(s@, '/')[2] == "DYNAMIC"@ {
                        Seq::<char>::empty()
                    } else {
                        split_on(s@, '/')[2]
                    })
                },
                Err(_) => !build_text_ok(s@),
            },
    {
        let parts = split_char(s, '/');
        if parts.len() == 3 && parts[0].as_str().unicode_len() > 0
            && parts[1].as_str().unicode_len() > 0 && parts[2].as_str().unicode_len() > 0 {
            let version = if str_eq(parts[2].as_str(), "DYNAMIC") {
                String::new()
            } else {
                parts[2].clone()
            };
            let id = PackageBuildIdent {
                target,
                origin: parts[0].clone(),
                name: parts[1].clone(),
                version,
            };
            proof {
                assert(split_on(s@, '/')[0] == parts@.map_values(|p: String| p@)[0]);
                assert(split_on(s@, '/')[1] == parts@.map_values(|p: String| p@)[1]);
                assert(split_on(s@, '/')[2] == parts@.map_values(|p: String| p@)[2]);
            }
            Ok(id)
        } else {
            Err(IdentError::Invalid)
        }
    }

    /// True when this build identifier is strictly greater than `other`.
    pub fn gt(&self, other: &PackageBuildIdent) -> (r: bool)
        ensures
            r == build_ident_lt(other, self),
    {
        if !(self.target == other.target) {
            return false;
        }
        if str_lt(other.origin.as_str(), self.origin.as_str()) {
            return true;
        }
        if !str_eq(other.origin.as_str(), self.origin.as_str()) {
            return false;
        }
        if str_lt(other.name.as_str(), self.name.as_str()) {
            return true;
        }
        if !str_eq(other.name.as_str(), self.name.as_str()) {
            return false;
        }
        str_lt(other.version.as_str(), self.version.as_str())
    }

    /// The dependency pattern naming this build: an empty version gives a
    /// pattern without a version constraint.
    pub fn to_dep_ident(&self) -> (r: PackageDepIdent)
        ensures
            r.origin@ == self.origin@,
            r.name@ == self.name@,
            self.version@.len() == 0 ==> r.version is None,
            self.version@.len() > 0 ==> (r.version matches Some(v) && v@ == self.version@),
            r.release is None,
    {
        let version = if self.version.as_str().unicode_len() == 0 {
            None
        } else {
            Some(self.version.clone())
        };
        PackageDepIdent { origin: self.origin.clone(), name: self.name.clone(), version, release: None }
    }
}

/// Re-emitting a parsed build identifier and parsing it again yields the
/// same value, for versions other than the literal text `DYNAMIC`.
pub proof fn lemma_build_ident_round_trip(id: &PackageBuildIdent)
    requires
        sep_free(id.origin@, '/'),
        sep_free(id.name@, '/'),
        sep_free(id.version@, '/'),
        id.origin@.len() > 0,
        id.name@.len() > 0,
        id.version@ != "DYNAMIC"@,
    ensures
        build_text_ok(id.chars()),
        split_on(id.chars(), '/')[0] == id.origin@,
        split_on(id.chars(), '/')[1] == id.name@,
        (if split_on(id.chars(), '/')[2] == "DYNAMIC"@ {
            Seq::<char>::empty()
        } else {
            split_on(id.chars(), '/')[2]
        }) == id.version@,
{
    let shown = if id.version@.len() == 0 {
        "DYNAMIC"@
    } else {
        id.version@
    };
    assert(sep_free(shown, '/')) by {
        reveal_strlit("DYNAMIC");
        if id.version@.len() == 0 {
            assert forall|i: int| 0 <= i < "DYNAMIC"@.len() implies "DYNAMIC"@[i] != '/' by {}
        }
    }
    lemma_split_on_sep_free(shown, '/');
    lemma_split_on_prepend(id.name@, shown, '/');
    lemma_split_on_prepend(id.origin@, id.name@ + seq!['/'] + shown, '/');
    assert(id.chars() =~= id.origin@ + seq!['/'] + (id.name@ + seq!['/'] + shown));
    assert(split_on(id.name@ + seq!['/'] + shown, '/') =~= seq![id.name@, shown]);
    assert(split_on(id.chars(), '/') =~= seq![id.origin@, id.name@, shown]);
    assert(shown.len() > 0) by {
        reveal_strlit("DYNAMIC");
    }
    if id.version@.len() > 0 {
        assert(shown != "DYNAMIC"@);
    }
}

/// A dependency pattern: origin and name, with optional version and
/// release constraints.
#[derive(Debug, Clone, Hash)]
pub struct PackageDepIdent {
    pub origin: String,
    pub name: String,
    pub version: Option<String>,
    pub release: Option<String>,
}

/// Equality of optional string fields, by text.
pub open spec fn opt_string_eq(a: Option<String>, b: Option<String>) -> bool {
    match a {
        None => b is None,
        Some(x) => b matches Some(y) && x@ == y@,
    }
}

/// Test two optional strings for textual equality.
pub fn opt_string_eq_exec(a: &Option<String>, b: &Option<String>) -> (r: bool)
    ensures
        r == opt_string_eq(*a, *b),
{
    if a.is_none() && b.is_none() {
        return true;
    }
    if a.is_some() && b.is_some() {
        let x = a.as_ref().unwrap();
        let y = b.as_ref().unwrap();
        return *x == *y;
    }
    false
}

impl PartialEq for PackageDepIdent {
    fn eq(&self, other: &Self) -> (r: bool) {
        self.origin == other.origin && self.name == other.name && opt_string_eq_exec(
            &self.version,
            &other.version,
        ) && opt_string_eq_exec(&self.release, &other.release)
    }
}

impl vstd::std_specs::cmp::PartialEqSpecImpl for PackageDepIdent {
    open spec fn obeys_eq_spec() -> bool {
        true
    }

    open spec fn eq_spec(&self, other: &Self) -> bool {
        self.origin@ == other.origin@ && self.name@ == other.name@ && opt_string_eq(
            self.version,
            other.version,
        ) && opt_string_eq(self.release, other.release)
    }
}

impl PackageDepIdent {
    /// The serialized form: origin and name, then version and release,
    /// each appended only when present and non-empty.
    pub open spec fn chars(&self) -> Seq<char> {
        self.origin@ + seq!['/'] + self.name@ + (match self.version {
            Some(v) => if v@.len() > 0 {
                seq!['/'] + v@
            } else {
                Seq::<char>::empty()
            },
            None => Seq::<char>::empty(),
        }) + (match self.release {
            Some(r) => if r@.len() > 0 {
                seq!['/'] + r@
            } else {
                Seq::<char>::empty()
            },
            None => Seq::<char>::empty(),
        })
    }

    /// Parse a dependency pattern: two to four slash-separated fields, each
    /// non-empty.
    pub fn parse(s: &str) -> (r: Result<PackageDepIdent, IdentError>)
        ensures
            match r {
                Ok(d) => {
                    let parts = split_on(s@, '/');
                    &&& dep_text_ok(s@)
                    &&& d.origin@ == parts[0]
                    &&& d.name@ == parts[1]
                    &&& (match d.version {
                        Some(v) => parts.len() >= 3 && v@ == parts[2],
                        None => parts.len() == 2,
                    })
                    &&& (match d.release {
                        Some(rl) => parts.len() == 4 && rl@ == parts[3],
                        None => parts.len() <= 3,
                    })
                },
                Err(_) => !dep_text_ok(s@),
            },
    {
        let parts = split_char(s, '/');
        if parts.len() < 2 || parts.len() > 4 {
            proof {
                crate::strutil::lemma_split_on_len(s@, '/');
            }
            return Err(IdentError::Invalid);
        }
        let mut k: usize = 0;
        while k < parts.len()
            invariant
                k <= parts@.len(),
                parts@.map_values(|p: String| p@) == split_on(s@, '/'),
                forall|j: int| 0 <= j < k ==> (#[trigger] split_on(s@, '/')[j]).len() > 0,
            decreases parts@.len() - k,
        {
            if parts[k].as_str().unicode_len() == 0 {
                proof {
                    assert(split_on(s@, '/')[k as int].len() == 0);
                }
                return Err(IdentError::Invalid);
            }
            k = k + 1;
        }
        let version = if parts.len() >= 3 {
            Some(parts[2].clone())
        } else {
            None
        };
        let release = if parts.len() == 4 {
            Some(parts[3].clone())
        } else {
            None
        };
        let d = PackageDepIdent { origin: parts[0].clone(), name: parts[1].clone(), version, release };
        proof {
            let pv = parts@.map_values(|p: String| p@);
            assert(split_on(s@, '/')[0] == pv[0]);
            assert(split_on(s@, '/')[1] == pv[1]);
            if pv.len() >= 3 {
                assert(split_on(s@, '/')[2] == pv[2]);
            }
            if pv.len() == 4 {
                assert(split_on(s@, '/')[3] == pv[3]);
            }
        }
        Ok(d)
    }

    /// Format the pattern in its serialized form.
    pub fn to_string(&self) -> (r: String)
        ensures
            r@ == self.chars(),
    {
        let mut out = self.origin.clone();
        out.append("/");
        out.append(self.name.as_str());
        match &self.version {
            Some(v) => {
                if v.as_str().unicode_len() > 0 {
                    out.append("/");
                    out.append(v.as_str());
                }
            },
            None => {},
        }
        match &self.release {
            Some(rl) => {
                if rl.as_str().unicode_len() > 0 {
                    out.append("/");
                    out.append(rl.as_str());
                }
            },
            None => {},
        }
        proof {
            reveal_strlit("/");
            assert("/"@ =~= seq!['/']);
            assert(out@ =~= self.chars());
        }
        out
    }

    /// Whether the pattern matches a build identifier: origin and name
    /// equal, and the version, when constrained, exactly equal.
    pub open spec fn spec_matches_build(&self, id: &PackageBuildIdent) -> bool {
        self.origin@ == id.origin@ && self.name@ == id.name@ && (match self.version {
            Some(v) => id.version@ == v@,
            None => true,
        })
    }

    /// Whether the pattern matches an artifact identifier, by the same rule.
    pub open spec fn spec_matches_artifact(&self, id: &PackageArtifactIdent) -> bool {
        self.origin@ == id.origin@ && self.name@ == id.name@ && (match self.version {
            Some(v) => id.version@ == v@,
            None => true,
        })
    }

    /// Test the pattern against a build identifier.
    pub fn matches_build(&self, id: &PackageBuildIdent) -> (r: bool)
        ensures
            r == self.spec_matches_build(id),
    {
        if !str_eq(self.origin.as_str(), id.origin.as_str()) {
            return false;
        }
        if !str_eq(self.name.as_str(), id.name.as_str()) {
            return false;
        }
        match &self.version {
            Some(v) => str_eq(id.version.as_str(), v.as_str()),
            None => true,
        }
    }

    /// Test the pattern against an artifact identifier.
    pub fn matches_artifact(&self, id: &PackageArtifactIdent) -> (r: bool)
        ensures
            r == self.spec_matches_artifact(id),
    {
        if !str_eq(self.origin.as_str(), id.origin.as_str()) {
            return false;
        }
        if !str_eq(self.name.as_str(), id.name.as_str()) {
            return false;
        }
        match &self.version {
            Some(v) => str_eq(id.version.as_str(), v.as_str()),
            None => true,
        }
    }
}

/// Re-emitting a parsed dependency pattern and parsing it again yields the
/// same value, provided no present field is empty.
pub proof fn lemma_dep_ident_round_trip(d: &PackageDepIdent)
    requires
        sep_free(d.origin@, '/'),
        sep_free(d.name@, '/'),
        d.origin@.len() > 0,
        d.name@.len() > 0,
        d.version matches Some(v) ==> sep_free(v@, '/') && v@.len() > 0,
        d.release matches Some(r) ==> sep_free(r@, '/') && r@.len() > 0,
        d.release is Some ==> d.version is Some,
    ensures
        dep_text_ok(d.chars()),
        ({
            let parts = split_on(d.chars(), '/');
            &&& parts[0] == d.origin@
            &&& parts[1] == d.name@
            &&& (match d.version {
                Some(v) => parts.len() >= 3 && parts[2] == v@,
                None => parts.len() == 2,
            })
            &&& (match d.release {
                Some(r) => parts.len() == 4 && parts[3] == r@,
                None => parts.len() <= 3,
            })
        }),
{
    match (d.version, d.release) {
        (None, None) => {
            lemma_split_on_sep_free(d.name@, '/');
            lemma_split_on_prepend(d.origin@, d.name@, '/');
            assert(d.chars() =~= d.origin@ + seq!['/'] + d.name@);
            assert(split_on(d.chars(), '/') =~= seq![d.origin@, d.name@]);
        },
        (Some(v), None) => {
            lemma_split_on_sep_free(v@, '/');
            lemma_split_on_prepend(d.name@, v@, '/');
            lemma_split_on_prepend(d.origin@, d.name@ + seq!['/'] + v@, '/');
            assert(d.chars() =~= d.origin@ + seq!['/'] + (d.name@ + seq!['/'] + v@));
            assert(split_on(d.name@ + seq!['/'] + v@, '/') =~= seq![d.name@, v@]);
            assert(split_on(d.chars(), '/') =~= seq![d.origin@, d.name@, v@]);
        },
        (Some(v), Some(r)) => {
            lemma_join_four(d.origin@, d.name@, v@, r@, '/');
            assert(d.chars() =~= d.origin@ + seq!['/'] + d.name@ + seq!['/'] + v@ + seq!['/']
                + r@);
        },
        (None, Some(r)) => {
            assert(false);
        },
    }
}

/// An artifact identifier: a build identifier plus release; its canonical
/// serialized form is the artifact filename.
#[derive(Debug, Clone, Hash)]
pub struct PackageArtifactIdent {
    pub origin: String,
    pub name: String,
    pub version: String,
    pub release: String,
    pub target: PackageTarget,
}

impl PartialEq for PackageArtifactIdent {
    fn eq(&self, other: &Self) -> (r: bool) {
        self.origin == other.origin && self.name == other.name && self.version == other.version
            && self.release == other.release && self.target == other.target
    }
}

impl vstd::std_specs::cmp::PartialEqSpecImpl for PackageArtifactIdent {
    open spec fn obeys_eq_spec() -> bool {
        true
    }

    open spec fn eq_spec(&self, other: &Self) -> bool {
        self.origin@ == other.origin@ && self.name@ == other.name@ && self.version@
            == other.version@ && self.release@ == other.release@ && self.target == other.target
    }
}

/// The canonical artifact filename for the given identifier fields.
pub open spec fn artifact_filename_chars(
    o: Seq<char>,
    n: Seq<char>,
    v: Seq<char>,
    r: Seq<char>,
    t: PackageTarget,
) -> Seq<char> {
    o + seq!['-'] + n + seq!['-'] + v + seq!['-'] + r + seq!['-'] + t.chars() + ".hart"@
}

impl PackageArtifactIdent {
    /// The canonical filename of this artifact.
    pub open spec fn filename_chars(&self) -> Seq<char> {
        artifact_filename_chars(self.origin@, self.name@, self.version@, self.release@, self.target)
    }

    /// The package identifier of this artifact, without the target.
    pub fn to_package_ident(&self) -> (r: PackageIdent)
        ensures
            r.origin@ == self.origin@,
            r.name@ == self.name@,
            r.version@ == self.version@,
            r.release@ == self.release@,
    {
        PackageIdent {
            origin: self.origin.clone(),
            name: self.name.clone(),
            version: self.version.clone(),
            release: self.release.clone(),
        }
    }

    /// The dependency pattern naming exactly this artifact.
    pub fn to_dep_ident(&self) -> (r: PackageDepIdent)
        ensures
            r.origin@ == self.origin@,
            r.name@ == self.name@,
            r.version matches Some(v) && v@ == self.version@,
            r.release matches Some(rl) && rl@ == self.release@,
    {
        PackageDepIdent {
            origin: self.origin.clone(),
            name: self.name.clone(),
            version: Some(self.version.clone()),
            release: Some(self.release.clone()),
        }
    }

    /// Format as `origin-name-version-release-target.hart`.
    pub fn to_filename(&self) -> (r: String)
        ensures
            r@ == self.filename_chars(),
    {
        let mut out = self.origin.clone();
        out.append("-");
        out.append(self.name.as_str());
        out.append("-");
        out.append(self.version.as_str());
        out.append("-");
        out.append(self.release.as_str());
        out.append("-");
        out.append(self.target.to_str());
        out.append(".hart");
        proof {
            reveal_strlit("-");
            assert("-"@ =~= seq!['-']);
            assert(out@ =~= self.filename_chars());
        }
        out
    }

    /// Format as the canonical filename.
    pub fn to_string(&self) -> (r: String)
        ensures
            r@ == self.filename_chars(),
    {
        self.to_filename()
    }

    /// Parse an artifact filename for a package whose full identifier is
    /// already known; only the target remains to be read.
    pub fn parse_with_ident(filename: &str, ident: &PackageIdent) -> (r: Result<
        PackageArtifactIdent,
        IdentError,
    >)
        ensures
            match r {
                Ok(a) => {
                    &&& a.origin@ == ident.origin@
                    &&& a.name@ == ident.name@
                    &&& a.version@ == ident.version@
                    &&& a.release@ == ident.release@
                    &&& filename@ == a.filename_chars()
                },
                Err(_) => !(exists|t: PackageTarget|
                    filename@ == artifact_filename_chars(
                        ident.origin@,
                        ident.name@,
                        ident.version@,
                        ident.release@,
                        t,
                    )),
            },
    {
        let mut prefix = ident.origin.clone();
        prefix.append("-");
        prefix.append(ident.name.as_str());
        prefix.append("-");
        prefix.append(ident.version.as_str());
        prefix.append("-");
        prefix.append(ident.release.as_str());
        prefix.append("-");
        proof {
            reveal_strlit("-");
            assert("-"@ =~= seq!['-']);
        }
        let rest = match strip_prefix_str(filename, prefix.as_str()) {
            Some(rest) => rest,
            None => {
                proof {
                    assert forall|t: PackageTarget|
                        filename@ != artifact_filename_chars(
                            ident.origin@,
                            ident.name@,
                            ident.version@,
                            ident.release@,
                            t,
                        ) by {
                        if filename@ == artifact_filename_chars(
                            ident.origin@,
                            ident.name@,
                            ident.version@,
                            ident.release@,
                            t,
                        ) {
                            assert(prefix@.is_prefix_of(filename@)) by {
                                assert(filename@ =~= prefix@ + (t.chars() + ".hart"@));
                                assert(filename@.subrange(0, prefix@.len() as int) =~= prefix@);
                            }
                        }
                    }
                }
                return Err(IdentError::Invalid);
            },
        };
        let middle = match strip_suffix_str(rest, ".hart") {
            Some(middle) => middle,
            None => {
                proof {
                    assert forall|t: PackageTarget|
                        filename@ != artifact_filename_chars(
                            ident.origin@,
                            ident.name@,
                            ident.version@,
                            ident.release@,
                            t,
                        ) by {
                        if filename@ == artifact_filename_chars(
                            ident.origin@,
                            ident.name@,
                            ident.version@,
                            ident.release@,
                            t,
                        ) {
                            assert(filename@ =~= prefix@ + (t.chars() + ".hart"@));
                            crate::strutil::lemma_concat_left_cancel(
                                prefix@,
                                rest@,
                                t.chars() + ".hart"@,
                            );
                            assert(".hart"@.is_suffix_of(rest@)) by {
                                assert(rest@.subrange(
                                    t.chars().len() as int,
                                    rest@.len() as int,
                                ) =~= ".hart"@);
                            }
                        }
                    }
                }
                return Err(IdentError::Invalid);
            },
        };
        match PackageTarget::parse(middle) {
            Some(target) => {
                let a = PackageArtifactIdent {
                    origin: ident.origin.clone(),
                    name: ident.name.clone(),
                    version: ident.version.clone(),
                    release: ident.release.clone(),
                    target,
                };
                proof {
                    assert(filename@ =~= a.filename_chars());
                }
                Ok(a)
            },
            None => {
                proof {
                    assert forall|t: PackageTarget|
                        filename@ != artifact_filename_chars(
                            ident.origin@,
                            ident.name@,
                            ident.version@,
                            ident.release@,
                            t,
                        ) by {
                        if filename@ == artifact_filename_chars(
                            ident.origin@,
                            ident.name@,
                            ident.version@,
                            ident.release@,
                            t,
                        ) {
                            assert(filename@ =~= prefix@ + (t.chars() + ".hart"@));
                            crate::strutil::lemma_concat_left_cancel(
                                prefix@,
                                rest@,
                                t.chars() + ".hart"@,
                            );
                            crate::strutil::lemma_concat_right_cancel(
                                ".hart"@,
                                middle@,
                                t.chars(),
                            );
                            lemma_target_structure(t);
                        }
                    }
                }
                Err(IdentError::Invalid)
            },
        }
    }

    /// Parse an artifact filename for a package whose build identifier and
    /// target are already known; only the release remains to be read.
    pub fn parse_with_build(filename: &str, ident: &PackageBuildIdent) -> (r: Result<
        PackageArtifactIdent,
        IdentError,
    >)
        ensures
            match r {
                Ok(a) => {
                    &&& a.origin@ == ident.origin@
                    &&& a.name@ == ident.name@
                    &&& a.version@ == ident.version@
                    &&& a.target == ident.target
                    &&& filename@ == a.filename_chars()
                },
                Err(_) => !(exists|rl: Seq<char>|
                    filename@ == artifact_filename_chars(
                        ident.origin@,
                        ident.name@,
                        ident.version@,
                        rl,
                        ident.target,
                    )),
            },
    {
        let mut prefix = ident.origin.clone();
        prefix.append("-");
        prefix.append(ident.name.as_str());
        prefix.append("-");
        prefix.append(ident.version.as_str());
        prefix.append("-");
        let mut suffix = String::new();
        suffix.append("-");
        suffix.append(ident.target.to_str());
        suffix.append(".hart");
        proof {
            reveal_strlit("-");
            assert("-"@ =~= seq!['-']);
        }
        let rest = match strip_prefix_str(filename, prefix.as_str()) {
            Some(rest) => rest,
            None => {
                proof {
                    assert forall|rl: Seq<char>|
                        filename@ != artifact_filename_chars(
                            ident.origin@,
                            ident.name@,
                            ident.version@,
                            rl,
                            ident.target,
                        ) by {
                        if filename@ == artifact_filename_chars(
                            ident.origin@,
                            ident.name@,
                            ident.version@,
                            rl,
                            ident.target,
                        ) {
                            assert(prefix@.is_prefix_of(filename@)) by {
                                assert(filename@ =~= prefix@ + (rl + seq!['-']
                                    + ident.target.chars() + ".hart"@));
                                assert(filename@.subrange(0, prefix@.len() as int) =~= prefix@);
                            }
                        }
                    }
                }
                return Err(IdentError::Invalid);
            },
        };
        match strip_suffix_str(rest, suffix.as_str()) {
            Some(release) => {
                let a = PackageArtifactIdent {
                    origin: ident.origin.clone(),
                    name: ident.name.clone(),
                    version: ident.version.clone(),
                    release: release.to_owned(),
                    target: ident.target,
                };
                proof {
                    assert(filename@ =~= a.filename_chars());
                }
                Ok(a)
            },
            None => {
                proof {
                    assert forall|rl: Seq<char>|
                        filename@ != artifact_filename_chars(
                            ident.origin@,
                            ident.name@,
                            ident.version@,
                            rl,
                            ident.target,
                        ) by {
                        if filename@ == artifact_filename_chars(
                            ident.origin@,
                            ident.name@,
                            ident.version@,
                            rl,
                            ident.target,
                        ) {
                            assert(filename@ =~= prefix@ + (rl + (seq!['-']
                                + ident.target.chars() + ".hart"@)));
                            crate::strutil::lemma_concat_left_cancel(
                                prefix@,
                                rest@,
                                rl + (seq!['-'] + ident.target.chars() + ".hart"@),
                            );
                            assert(suffix@ =~= seq!['-'] + ident.target.chars() + ".hart"@);
                            assert(suffix@.is_suffix_of(rest@)) by {
                                assert(rest@.subrange(
                                    rl.len() as int,
                                    rest@.len() as int,
                                ) =~= suffix@);
                            }
                        }
                    }
                }
                Err(IdentError::Invalid)
            },
        }
    }
}

/// The conditions under which an artifact filename determines version and
/// release: the release is non-empty and dash-free, the version non-empty.
pub open spec fn artifact_fields_wf(v: Seq<char>, r: Seq<char>) -> bool {
    sep_free(r, '-') && r.len() > 0 && v.len() > 0
}

impl PackageArtifactIdent {
    /// Parse an artifact filename for a known origin and name, splitting the
    /// remainder into dash-separated fields from the right: operating
    /// system, architecture, release, and version.
    #[verifier::rlimit(100)]
    pub fn parse_filename(filename: &str, origin: &str, name: &str) -> (res: Option<
        PackageArtifactIdent,
    >)
        ensures
            match res {
                Some(a) => {
                    &&& a.origin@ == origin@
                    &&& a.name@ == name@
                    &&& filename@ == a.filename_chars()
                    &&& artifact_fields_wf(a.version@, a.release@)
                },
                None => forall|v: Seq<char>, r: Seq<char>, t: PackageTarget|
                    artifact_fields_wf(v, r) ==> filename@ != #[trigger] artifact_filename_chars(
                        origin@,
                        name@,
                        v,
                        r,
                        t,
                    ),
            },
    {
        let ghost o = origin@;
        let ghost n = name@;
        let ghost d = seq!['-'];
        proof {
            reveal_strlit("-");
            assert("-"@ =~= seq!['-']);
        }
        let rest = match strip_suffix_str(filename, ".hart") {
            Some(rest) => rest,
            None => {
                proof {
                    assert forall|v: Seq<char>, r: Seq<char>, t: PackageTarget|
                        artifact_fields_wf(v, r) implies filename@
                        != #[trigger] artifact_filename_chars(o, n, v, r, t) by {
                        if filename@ == artifact_filename_chars(o, n, v, r, t) {
                            let x = o + d + n + d + v + d + r + d + t.chars();
                            assert(filename@ =~= x + ".hart"@);
                            assert(".hart"@.is_suffix_of(filename@)) by {
                                assert(filename@.subrange(
                                    x.len() as int,
                                    filename@.len() as int,
                                ) =~= ".hart"@);
                            }
                        }
                    }
                }
                return None;
            },
        };
        let mut prefix = origin.to_owned();
        prefix.append("-");
        prefix.append(name);
        prefix.append("-");
        assert(prefix@ == o + d + n + d);
        let mid = match strip_prefix_str(rest, prefix.as_str()) {
            Some(mid) => mid,
            None => {
                proof {
                    assert forall|v: Seq<char>, r: Seq<char>, t: PackageTarget|
                        artifact_fields_wf(v, r) implies filename@
                        != #[trigger] artifact_filename_chars(o, n, v, r, t) by {
                        if filename@ == artifact_filename_chars(o, n, v, r, t) {
                            let x = o + d + n + d + v + d + r + d + t.chars();
                            assert(filename@ =~= x + ".hart"@);
                            crate::strutil::lemma_concat_right_cancel(".hart"@, rest@, x);
                            assert(prefix@.is_prefix_of(rest@)) by {
                                assert(rest@ =~= prefix@ + (v + d + r + d + t.chars()));
                                assert(rest@.subrange(0, prefix@.len() as int) =~= prefix@);
                            }
                        }
                    }
                }
                return None;
            },
        };
        // From here on, whenever the filename has the canonical shape,
        // `mid` is `version-release-arch-os`.
        let ghost decomposed = |v: Seq<char>, r: Seq<char>, t: PackageTarget|
            {
                mid@ == v + d + r + d + t.arch_chars() + d + t.os_chars()
            };
        proof {
            assert forall|v: Seq<char>, r: Seq<char>, t: PackageTarget|
                filename@ == artifact_filename_chars(o, n, v, r, t) implies #[trigger] decomposed(
                v,
                r,
                t,
            ) by {
                let x = o + d + n + d + v + d + r + d + t.chars();
                assert(filename@ =~= x + ".hart"@);
                crate::strutil::lemma_concat_right_cancel(".hart"@, rest@, x);
                lemma_target_structure(t);
                assert(rest@ =~= prefix@ + (v + d + r + d + t.arch_chars() + d + t.os_chars()));
                crate::strutil::lemma_concat_left_cancel(
                    prefix@,
                    mid@,
                    v + d + r + d + t.arch_chars() + d + t.os_chars(),
                );
            }
        }
        let mid_len = mid.unicode_len();
        let p1 = match crate::strutil::last_index_of(mid, '-') {
            Some(p1) => p1,
            None => {
                proof {
                    assert forall|v: Seq<char>, r: Seq<char>, t: PackageTarget|
                        artifact_fields_wf(v, r) implies filename@
                        != #[trigger] artifact_filename_chars(o, n, v, r, t) by {
                        if filename@ == artifact_filename_chars(o, n, v, r, t) {
                            assert(decomposed(v, r, t));
                            assert(mid@[v.len() as int] == '-');
                        }
                    }
                }
                return None;
            },
        };
        let head1 = mid.substring_char(0, p1);
        proof {
            assert forall|v: Seq<char>, r: Seq<char>, t: PackageTarget|
                filename@ == artifact_filename_chars(o, n, v, r, t) implies p1 == v.len() + 1
                + r.len() + 1 + t.arch_chars().len() && head1@ == v + d + r + d
                + t.arch_chars() by {
                assert(decomposed(v, r, t));
                lemma_target_structure(t);
                let x = v + d + r + d + t.arch_chars();
                assert(mid@ =~= x + seq!['-'] + t.os_chars());
                crate::strutil::lemma_last_sep(x, t.os_chars(), '-');
                if p1 < x.len() {
                    assert(mid@[x.len() as int] == '-');
                    assert(false);
                }
                if p1 > x.len() {
                    assert(mid@[p1 as int] != '-');
                    assert(false);
                }
                assert(head1@ =~= x);
            }
        }
        let p2 = match crate::strutil::last_index_of(head1, '-') {
            Some(p2) => p2,
            None => {
                proof {
                    assert forall|v: Seq<char>, r: Seq<char>, t: PackageTarget|
                        artifact_fields_wf(v, r) implies filename@
                        != #[trigger] artifact_filename_chars(o, n, v, r, t) by {
                        if filename@ == artifact_filename_chars(o, n, v, r, t) {
                            assert(head1@[v.len() as int] == '-');
                        }
                    }
                }
                return None;
            },
        };
        proof {
            assert forall|v: Seq<char>, r: Seq<char>, t: PackageTarget|
                filename@ == artifact_filename_chars(o, n, v, r, t) && artifact_fields_wf(v, r)
                implies p2 == v.len() + 1 + r.len() by {
                lemma_target_structure(t);
                let x = v + d + r;
                assert(head1@ =~= x + seq!['-'] + t.arch_chars());
                crate::strutil::lemma_last_sep(x, t.arch_chars(), '-');
                if p2 < x.len() {
                    assert(head1@[x.len() as int] == '-');
                    assert(false);
                }
                if p2 > x.len() {
                    assert(head1@[p2 as int] != '-');
                    assert(false);
                }
            }
        }
        let target_str = mid.substring_char(p2 + 1, mid_len);
        let target = match PackageTarget::parse(target_str) {
            Some(target) => target,
            None => {
                proof {
                    assert forall|v: Seq<char>, r: Seq<char>, t: PackageTarget|
                        artifact_fields_wf(v, r) implies filename@
                        != #[trigger] artifact_filename_chars(o, n, v, r, t) by {
                        if filename@ == artifact_filename_chars(o, n, v, r, t) {
                            assert(decomposed(v, r, t));
                            lemma_target_structure(t);
                            assert(target_str@ =~= t.chars());
                        }
                    }
                }
                return None;
            },
        };
        let head2 = mid.substring_char(0, p2);
        proof {
            assert forall|v: Seq<char>, r: Seq<char>, t: PackageTarget|
                filename@ == artifact_filename_chars(o, n, v, r, t) && artifact_fields_wf(v, r)
                implies head2@ == v + d + r by {
                assert(decomposed(v, r, t));
                lemma_target_structure(t);
                assert(head2@ =~= v + d + r);
            }
        }
        let p3 = match crate::strutil::last_index_of(head2, '-') {
            Some(p3) => p3,
            None => {
                proof {
                    assert forall|v: Seq<char>, r: Seq<char>, t: PackageTarget|
                        artifact_fields_wf(v, r) implies filename@
                        != #[trigger] artifact_filename_chars(o, n, v, r, t) by {
                        if filename@ == artifact_filename_chars(o, n, v, r, t) {
                            assert(head2@[v.len() as int] == '-');
                        }
                    }
                }
                return None;
            },
        };
        proof {
            assert forall|v: Seq<char>, r: Seq<char>, t: PackageTarget|
                filename@ == artifact_filename_chars(o, n, v, r, t) && artifact_fields_wf(v, r)
                implies p3 == v.len() by {
                crate::strutil::lemma_last_sep(v, r, '-');
                if p3 < v.len() {
                    assert(head2@[v.len() as int] == '-');
                    assert(false);
                }
                if p3 > v.len() {
                    assert(head2@[p3 as int] != '-');
                    assert(false);
                }
            }
        }
        if p3 == 0 || p3 + 1 == p2 {
            proof {
                assert forall|v: Seq<char>, r: Seq<char>, t: PackageTarget|
                    artifact_fields_wf(v, r) implies filename@
                    != #[trigger] artifact_filename_chars(o, n, v, r, t) by {
                    if filename@ == artifact_filename_chars(o, n, v, r, t) {
                        assert(p3 == v.len() && p2 == v.len() + 1 + r.len());
                    }
                }
            }
            return None;
        }
        let version = head2.substring_char(0, p3);
        let release = head2.substring_char(p3 + 1, p2);
        let a = PackageArtifactIdent {
            origin: origin.to_owned(),
            name: name.to_owned(),
            version: version.to_owned(),
            release: release.to_owned(),
            target,
        };
        proof {
            assert(sep_free(release@, '-')) by {
                assert forall|j: int| 0 <= j < release@.len() implies release@[j] != '-' by {
                    assert(release@[j] == head2@[p3 + 1 + j]);
                }
            }
            assert(head2@ =~= version@ + seq!['-'] + release@);
            assert(mid@ =~= head2@ + seq!['-'] + target_str@);
            assert(target_str@ == target.chars());
            assert(rest@ == prefix@ + mid@);
            assert(filename@ =~= a.filename_chars());
        }
        Some(a)
    }
}

/// An artifact filename written from well-formed fields reads back to
/// exactly those fields: the decomposition is unique.
pub proof fn lemma_artifact_filename_unique(
    o: Seq<char>,
    n: Seq<char>,
    v1: Seq<char>,
    r1: Seq<char>,
    t1: PackageTarget,
    v2: Seq<char>,
    r2: Seq<char>,
    t2: PackageTarget,
)
    requires
        artifact_filename_chars(o, n, v1, r1, t1) == artifact_filename_chars(o, n, v2, r2, t2),
        sep_free(r1, '-'),
        sep_free(r2, '-'),
    ensures
        v1 == v2,
        r1 == r2,
        t1 == t2,
{
    let d = seq!['-'];
    let p = o + d + n + d;
    lemma_target_structure(t1);
    lemma_target_structure(t2);
    let x1 = v1 + d + r1 + d + t1.arch_chars();
    let x2 = v2 + d + r2 + d + t2.arch_chars();
    let y1 = x1 + d + t1.os_chars();
    let y2 = x2 + d + t2.os_chars();
    assert(artifact_filename_chars(o, n, v1, r1, t1) =~= (p + y1) + ".hart"@);
    assert(artifact_filename_chars(o, n, v2, r2, t2) =~= (p + y2) + ".hart"@);
    crate::strutil::lemma_concat_right_cancel(".hart"@, p + y1, p + y2);
    crate::strutil::lemma_concat_left_cancel(p, y1, y2);
    crate::strutil::lemma_last_sep_split_unique(x1, t1.os_chars(), x2, t2.os_chars(), '-');
    let w1 = v1 + d + r1;
    let w2 = v2 + d + r2;
    assert(x1 =~= w1 + d + t1.arch_chars());
    assert(x2 =~= w2 + d + t2.arch_chars());
    crate::strutil::lemma_last_sep_split_unique(w1, t1.arch_chars(), w2, t2.arch_chars(), '-');
    crate::strutil::lemma_last_sep_split_unique(v1, r1, v2, r2, '-');
    assert(t1.chars() == t2.chars());
    assert(target_from_chars(t1.chars()) == Some(t1));
    assert(target_from_chars(t2.chars()) == Some(t2));
}

} // verus!
