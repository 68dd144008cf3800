//! The artifact cache index: identifiers parsed from cached artifact
//! filenames, with "latest version / latest release" queries resolved by
//! lexicographic comparison of the version and release strings.

use vstd::prelude::*;

use crate::ident::{
    artifact_fields_wf, artifact_filename_chars, PackageArtifactIdent, PackageDepIdent,
    PackageTarget,
};
use crate::strutil::{lemma_lex_total, lex_le, lex_lt, str_eq, str_lt};

verus! {

/// Whether a cache entry belongs to the given origin and name.
pub open spec fn pkg_match(e: PackageArtifactIdent, o: Seq<char>, n: Seq<char>) -> bool {
    e.origin@ == o && e.name@ == n
}

/// Whether a cache entry belongs to the given origin, name, version and
/// target.
pub open spec fn version_target_match(
    e: PackageArtifactIdent,
    o: Seq<char>,
    n: Seq<char>,
    v: Seq<char>,
    t: PackageTarget,
) -> bool {
    pkg_match(e, o, n) && e.version@ == v && e.target == t
}

/// Whether a cache entry is exactly the given identifier.
pub open spec fn exact_match(
    e: PackageArtifactIdent,
    o: Seq<char>,
    n: Seq<char>,
    v: Seq<char>,
    r: Seq<char>,
    t: PackageTarget,
) -> bool {
    version_target_match(e, o, n, v, t) && e.release@ == r
}

/// Whether `vv` is the largest version (lexicographically) of the package
/// among the entries, over all targets.
pub open spec fn is_max_version(
    s: Seq<PackageArtifactIdent>,
    o: Seq<char>,
    n: Seq<char>,
    vv: Seq<char>,
) -> bool {
    &&& exists|j: int| 0 <= j < s.len() && pkg_match(#[trigger] s[j], o, n) && s[j].version@ == vv
    &&& forall|j: int|
        0 <= j < s.len() && pkg_match(#[trigger] s[j], o, n) ==> lex_le(s[j].version@, vv)
}

/// Whether no entry carries the given version under the given target.
pub open spec fn no_release_for(
    s: Seq<PackageArtifactIdent>,
    o: Seq<char>,
    n: Seq<char>,
    vv: Seq<char>,
    t: PackageTarget,
) -> bool {
    forall|j: int| 0 <= j < s.len() ==> !version_target_match(#[trigger] s[j], o, n, vv, t)
}

/// An index over the cached artifacts of one origin and name.
pub struct ArtifactCacheIndex {
    entries: Vec<PackageArtifactIdent>,
}

impl ArtifactCacheIndex {
    /// The entries of the index.
    pub closed spec fn view(&self) -> Seq<PackageArtifactIdent> {
        self.entries@
    }

    /// An empty index.
    pub fn new() -> (idx: ArtifactCacheIndex)
        ensures
            idx@ == Seq::<PackageArtifactIdent>::empty(),
    {
        ArtifactCacheIndex { entries: Vec::new() }
    }

    /// Record one artifact identifier.
    pub fn insert(&mut self, a: PackageArtifactIdent)
        ensures
            final(self)@ == old(self)@.push(a),
    {
        self.entries.push(a);
    }

    /// Resolve the pattern to the most recent matching artifact:
    /// with version and release given, the exact entry; with only a version,
    /// the largest release under that version and target; with neither, the
    /// largest version of the package, then the largest release under the
    /// target within it. Versions and releases compare lexicographically.
    pub fn latest_artifact(&self, dep: &PackageDepIdent, target: PackageTarget) -> (res: Option<
        PackageArtifactIdent,
    >)
        ensures
            match res {
                Some(a) => {
                    &&& a.origin@ == dep.origin@
                    &&& a.name@ == dep.name@
                    &&& a.target == target
                },
                None => true,
            },
            match dep.version {
                Some(v) => match dep.release {
                    Some(r) => match res {
                        Some(a) => a.version@ == v@ && a.release@ == r@ && exists|j: int|
                            0 <= j < self@.len() && exact_match(
                                #[trigger] self@[j],
                                dep.origin@,
                                dep.name@,
                                v@,
                                r@,
                                target,
                            ),
                        None => forall|j: int|
                            0 <= j < self@.len() ==> !exact_match(
                                #[trigger] self@[j],
                                dep.origin@,
                                dep.name@,
                                v@,
                                r@,
                                target,
                            ),
                    },
                    None => match res {
                        Some(a) => {
                            &&& a.version@ == v@
                            &&& exists|j: int|
                                0 <= j < self@.len() && version_target_match(
                                    #[trigger] self@[j],
                                    dep.origin@,
                                    dep.name@,
                                    v@,
                                    target,
                                ) && self@[j].release@ == a.release@
                            &&& forall|j: int|
                                0 <= j < self@.len() && version_target_match(
                                    #[trigger] self@[j],
                                    dep.origin@,
                                    dep.name@,
                                    v@,
                                    target,
                                ) ==> lex_le(self@[j].release@, a.release@)
                        },
                        None => forall|j: int|
                            0 <= j < self@.len() ==> !version_target_match(
                                #[trigger] self@[j],
                                dep.origin@,
                                dep.name@,
                                v@,
                                target,
                            ),
                    },
                },
                None => match res {
                    Some(a) => {
                        &&& exists|j: int|
                            0 <= j < self@.len() && pkg_match(
                                #[trigger] self@[j],
                                dep.origin@,
                                dep.name@,
                            ) && self@[j].version@ == a.version@
                        &&& forall|j: int|
                            0 <= j < self@.len() && pkg_match(
                                #[trigger] self@[j],
                                dep.origin@,
                                dep.name@,
                            ) ==> lex_le(self@[j].version@, a.version@)
                        &&& exists|j: int|
                            0 <= j < self@.len() && version_target_match(
                                #[trigger] self@[j],
                                dep.origin@,
                                dep.name@,
                                a.version@,
                                target,
                            ) && self@[j].release@ == a.release@
                        &&& forall|j: int|
                            0 <= j < self@.len() && version_target_match(
                                #[trigger] self@[j],
                                dep.origin@,
                                dep.name@,
                                a.version@,
                                target,
                            ) ==> lex_le(self@[j].release@, a.release@)
                    },
                    None => (forall|j: int|
                        0 <= j < self@.len() ==> !pkg_match(
                            #[trigger] self@[j],
                            dep.origin@,
                            dep.name@,
                        )) || (exists|vv: Seq<char>|
                        #[trigger] is_max_version(self@, dep.origin@, dep.name@, vv)
                            && no_release_for(self@, dep.origin@, dep.name@, vv, target)),
                },
            },
    {
        let ghost o = dep.origin@;
        let ghost n = dep.name@;
        match &dep.version {
            Some(v) => {
                match &dep.release {
                    Some(r) => self.lookup_exact(dep, v, r, target),
                    None => self.lookup_latest_release(dep, v, target),
                }
            },
            None => {
                // Find the largest version of the package over all targets.
                let mut best: Option<usize> = None;
                let mut i: usize = 0;
                while i < self.entries.len()
                    invariant
                        i <= self@.len(),
                        match best {
                            Some(b) => b < i && pkg_match(self@[b as int], o, n) && forall|j: int|
                                0 <= j < i && pkg_match(#[trigger] self@[j], o, n) ==> lex_le(
                                    self@[j].version@,
                                    self@[b as int].version@,
                                ),
                            None => forall|j: int|
                                0 <= j < i ==> !pkg_match(#[trigger] self@[j], o, n),
                        },
                        o == dep.origin@,
                        n == dep.name@,
                    decreases self@.len() - i,
                {
                    let e = &self.entries[i];
                    if str_eq(e.origin.as_str(), dep.origin.as_str()) && str_eq(
                        e.name.as_str(),
                        dep.name.as_str(),
                    ) {
                        match best {
                            Some(b) => {
                                if str_lt(
                                    self.entries[b].version.as_str(),
                                    self.entries[i].version.as_str(),
                                ) {
                                    proof {
                                        assert forall|j: int|
                                            0 <= j < i + 1 && pkg_match(
                                                #[trigger] self@[j],
                                                o,
                                                n,
                                            ) implies lex_le(
                                            self@[j].version@,
                                            self@[i as int].version@,
                                        ) by {
                                            if j < i {
                                                crate::strutil::lemma_lex_trans(
                                                    self@[j].version@,
                                                    self@[b as int].version@,
                                                    self@[i as int].version@,
                                                );
                                            }
                                        }
                                    }
                                    best = Some(i);
                                } else {
                                    proof {
                                        lemma_lex_total(
                                            self@[b as int].version@,
                                            self@[i as int].version@,
                                        );
                                    }
                                }
                            },
                            None => {
                                best = Some(i);
                            },
                        }
                    }
                    i = i + 1;
                }
                match best {
                    Some(b) => {
                        let vmax = self.entries[b].version.clone();
                        let res = self.lookup_latest_release(dep, &vmax, target);
                        proof {
                            if res is None {
                                assert(is_max_version(self@, o, n, vmax@)) by {
                                    assert(pkg_match(self@[b as int], o, n));
                                }
                                assert(no_release_for(self@, o, n, vmax@, target));
                            }
                        }
                        res
                    },
                    None => None,
                }
            },
        }
    }

    /// Scan for an exact entry.
    fn lookup_exact(
        &self,
        dep: &PackageDepIdent,
        v: &String,
        r: &String,
        target: PackageTarget,
    ) -> (res: Option<PackageArtifactIdent>)
        ensures
            match res {
                Some(a) => {
                    &&& a.origin@ == dep.origin@
                    &&& a.name@ == dep.name@
                    &&& a.version@ == v@
                    &&& a.release@ == r@
                    &&& a.target == target
                    &&& exists|j: int|
                        0 <= j < self@.len() && exact_match(
                            #[trigger] self@[j],
                            dep.origin@,
                            dep.name@,
                            v@,
                            r@,
                            target,
                        )
                },
                None => forall|j: int|
                    0 <= j < self@.len() ==> !exact_match(
                        #[trigger] self@[j],
                        dep.origin@,
                        dep.name@,
                        v@,
                        r@,
                        target,
                    ),
            },
    {
        let mut i: usize = 0;
        while i < self.entries.len()
            invariant
                i <= self@.len(),
                forall|j: int|
                    0 <= j < i ==> !exact_match(
                        #[trigger] self@[j],
                        dep.origin@,
                        dep.name@,
                        v@,
                        r@,
                        target,
                    ),
            decreases self@.len() - i,
        {
            let e = &self.entries[i];
            if str_eq(e.origin.as_str(), dep.origin.as_str()) && str_eq(
                e.name.as_str(),
                dep.name.as_str(),
            ) && str_eq(e.version.as_str(), v.as_str()) && str_eq(e.release.as_str(), r.as_str())
                && e.target == target {
                return Some(
                    PackageArtifactIdent {
                        origin: dep.origin.clone(),
                        name: dep.name.clone(),
                        version: v.clone(),
                        release: r.clone(),
                        target,
                    },
                );
            }
            i = i + 1;
        }
        None
    }

    /// Scan for the largest release under a fixed version and target.
    fn lookup_latest_release(&self, dep: &PackageDepIdent, v: &String, target: PackageTarget) -> (res:
        Option<PackageArtifactIdent>)
        ensures
            match res {
                Some(a) => {
                    &&& a.origin@ == dep.origin@
                    &&& a.name@ == dep.name@
                    &&& a.version@ == v@
                    &&& a.target == target
                    &&& exists|j: int|
                        0 <= j < self@.len() && version_target_match(
                            #[trigger] self@[j],
                            dep.origin@,
                            dep.name@,
                            v@,
                            target,
                        ) && self@[j].release@ == a.release@
                    &&& forall|j: int|
                        0 <= j < self@.len() && version_target_match(
                            #[trigger] self@[j],
                            dep.origin@,
                            dep.name@,
                            v@,
                            target,
                        ) ==> lex_le(self@[j].release@, a.release@)
                },
                None => forall|j: int|
                    0 <= j < self@.len() ==> !version_target_match(
                        #[trigger] self@[j],
                        dep.origin@,
                        dep.name@,
                        v@,
                        target,
                    ),
            },
    {
        let ghost o = dep.origin@;
        let ghost n = dep.name@;
        let mut best: Option<usize> = None;
        let mut i: usize = 0;
        while i < self.entries.len()
            invariant
                i <= self@.len(),
                match best {
                    Some(b) => b < i && version_target_match(self@[b as int], o, n, v@, target)
                        && forall|j: int|
                        0 <= j < i && version_target_match(
                            #[trigger] self@[j],
                            o,
                            n,
                            v@,
                            target,
                        ) ==> lex_le(self@[j].release@, self@[b as int].release@),
                    None => forall|j: int|
                        0 <= j < i ==> !version_target_match(
                            #[trigger] self@[j],
                            o,
                            n,
                            v@,
                            target,
                        ),
                },
                o == dep.origin@,
                n == dep.name@,
            decreases self@.len() - i,
        {
            let e = &self.entries[i];
            if str_eq(e.origin.as_str(), dep.origin.as_str()) && str_eq(
                e.name.as_str(),
                dep.name.as_str(),
            ) && str_eq(e.version.as_str(), v.as_str()) && e.target == target {
                match best {
                    Some(b) => {
                        if str_lt(
                            self.entries[b].release.as_str(),
                            self.entries[i].release.as_str(),
                        ) {
                            proof {
                                assert forall|j: int|
                                    0 <= j < i + 1 && version_target_match(
                                        #[trigger] self@[j],
                                        o,
                                        n,
                                        v@,
                                        target,
                                    ) implies lex_le(
                                    self@[j].release@,
                                    self@[i as int].release@,
                                ) by {
                                    if j < i {
                                        crate::strutil::lemma_lex_trans(
                                            self@[j].release@,
                                            self@[b as int].release@,
                                            self@[i as int].release@,
                                        );
                                    }
                                }
                            }
                            best = Some(i);
                        } else {
                            proof {
                                lemma_lex_total(self@[b as int].release@, self@[i as int].release@);
                            }
                        }
                    },
                    None => {
                        best = Some(i);
                    },
                }
            }
            i = i + 1;
        }
        match best {
            Some(b) => Some(
                PackageArtifactIdent {
                    origin: dep.origin.clone(),
                    name: dep.name.clone(),
                    version: v.clone(),
                    release: self.entries[b].release.clone(),
                    target,
                },
            ),
            None => None,
        }
    }
}

/// Build the index for one origin and name from the filenames found in the
/// cache directory. Filenames that do not parse as an artifact of that
/// package are skipped; one bad entry never aborts the scan.
pub fn cache_index(origin: &str, name: &str, filenames: &Vec<String>) -> (idx: ArtifactCacheIndex)
    ensures
        forall|k: int|
            0 <= k < idx@.len() ==> {
                &&& (#[trigger] idx@[k]).origin@ == origin@
                &&& idx@[k].name@ == name@
                &&& artifact_fields_wf(idx@[k].version@, idx@[k].release@)
                &&& exists|m: int|
                    0 <= m < filenames@.len() && (#[trigger] filenames@[m])@
                        == idx@[k].filename_chars()
            },
        forall|m: int, v: Seq<char>, r: Seq<char>, t: PackageTarget|
            #![trigger filenames@[m], artifact_filename_chars(origin@, name@, v, r, t)]
            0 <= m < filenames@.len() && artifact_fields_wf(v, r) && filenames@[m]@
                == artifact_filename_chars(origin@, name@, v, r, t) ==> exists|k: int|
                0 <= k < idx@.len() && (#[trigger] idx@[k]).version@ == v && idx@[k].release@ == r
                    && idx@[k].target == t,
{
    let mut idx = ArtifactCacheIndex::new();
    let mut m: usize = 0;
    while m < filenames.len()
        invariant
            m <= filenames@.len(),
            forall|k: int|
                0 <= k < idx@.len() ==> {
                    &&& (#[trigger] idx@[k]).origin@ == origin@
                    &&& idx@[k].name@ == name@
                    &&& artifact_fields_wf(idx@[k].version@, idx@[k].release@)
                    &&& exists|mm: int|
                        0 <= mm < filenames@.len() && (#[trigger] filenames@[mm])@
                            == idx@[k].filename_chars()
                },
            forall|mm: int, v: Seq<char>, r: Seq<char>, t: PackageTarget|
                #![trigger filenames@[mm], artifact_filename_chars(origin@, name@, v, r, t)]
                0 <= mm < m && artifact_fields_wf(v, r) && filenames@[mm]@
                    == artifact_filename_chars(origin@, name@, v, r, t) ==> exists|k: int|
                    0 <= k < idx@.len() && (#[trigger] idx@[k]).version@ == v && idx@[k].release@
                        == r && idx@[k].target == t,
        decreases filenames@.len() - m,
    {
        match PackageArtifactIdent::parse_filename(filenames[m].as_str(), origin, name) {
            Some(a) => {
                let ghost av = a.version@;
                let ghost ar = a.release@;
                let ghost at = a.target;
                let ghost afile = a.filename_chars();
                let ghost old_idx = idx@;
                idx.insert(a);
                proof {
                    assert(idx@[old_idx.len() as int].version@ == av);
                    assert forall|mm: int, v: Seq<char>, r: Seq<char>, t: PackageTarget|
                        #![trigger filenames@[mm], artifact_filename_chars(origin@, name@, v, r, t)]
                        0 <= mm < m + 1 && artifact_fields_wf(v, r) && filenames@[mm]@
                            == artifact_filename_chars(origin@, name@, v, r, t) implies exists|
                        k: int,
                    |
                        0 <= k < idx@.len() && (#[trigger] idx@[k]).version@ == v && idx@[k].release@
                            == r && idx@[k].target == t by {
                        if mm == m {
                            crate::ident::lemma_artifact_filename_unique(
                                origin@,
                                name@,
                                av,
                                ar,
                                at,
                                v,
                                r,
                                t,
                            );
                            assert(idx@[old_idx.len() as int].version@ == v && idx@[old_idx.len() as int].release@
                                == r && idx@[old_idx.len() as int].target == t);
                        } else {
                            assert(exists|k: int|
                                0 <= k < old_idx.len() && (#[trigger] old_idx[k]).version@ == v
                                    && old_idx[k].release@ == r && old_idx[k].target == t);
                            let k = choose|k: int|
                                0 <= k < old_idx.len() && (#[trigger] old_idx[k]).version@ == v
                                    && old_idx[k].release@ == r && old_idx[k].target == t;
                            assert(idx@[k].version@ == v);
                        }
                    }
                }
            },
            None => {},
        }
        m = m + 1;
    }
    idx
}

/// Once an exact query's release is present in the index, inserting any
/// further entry leaves the query's result identity unchanged: the matching
/// entry remains, and the exact contract of `latest_artifact` pins the
/// returned identifier to the queried fields.
pub proof fn lemma_cache_query_monotone(
    s: Seq<PackageArtifactIdent>,
    x: PackageArtifactIdent,
    o: Seq<char>,
    n: Seq<char>,
    v: Seq<char>,
    r: Seq<char>,
    t: PackageTarget,
)
    requires
        exists|j: int| 0 <= j < s.len() && exact_match(#[trigger] s[j], o, n, v, r, t),
    ensures
        exists|j: int| 0 <= j < s.push(x).len() && exact_match(#[trigger] s.push(x)[j], o, n, v, r, t),
{
    let j = choose|j: int| 0 <= j < s.len() && exact_match(#[trigger] s[j], o, n, v, r, t);
    assert(s.push(x)[j] == s[j]);
}

} // verus!
