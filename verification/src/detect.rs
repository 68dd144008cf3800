//! Change detection: whether a package needs a rebuild, given its latest
//! cached artifact and that file's timestamp, the operator's skip list, the
//! modification times under its source directory, and the latest artifact
//! release of each declared dependency.

use vstd::prelude::*;

use crate::ident::{PackageArtifactIdent, PackageBuildIdent};
use crate::plan::UpdateCause;
use crate::strutil::{lex_lt, str_eq, str_lt};

verus! {

/// The operator-maintained list of builds to skip, stamped with the moment
/// it was last updated (seconds of the Unix epoch).
#[derive(Debug, Clone)]
pub struct PackageSkipList {
    pub updated_at: i64,
    pub packages: Vec<PackageBuildIdent>,
}

/// Whether two build identifiers carry the same fields.
pub open spec fn build_ident_eq(a: &PackageBuildIdent, b: &PackageBuildIdent) -> bool {
    a.target == b.target && a.origin@ == b.origin@ && a.name@ == b.name@ && a.version@
        == b.version@
}

/// Whether a build identifier appears among the listed packages.
pub open spec fn listed_in(packages: Seq<PackageBuildIdent>, ident: &PackageBuildIdent) -> bool {
    exists|k: int| 0 <= k < packages.len() && build_ident_eq(&(#[trigger] packages[k]), ident)
}

/// The skip-list timestamp applying to a build: the list's stamp exactly
/// when the build is listed.
pub fn skip_timestamp(skip: &Option<PackageSkipList>, ident: &PackageBuildIdent) -> (r: Option<
    i64,
>)
    ensures
        match r {
            Some(ts) => skip matches Some(list) && ts == list.updated_at && listed_in(
                list.packages@,
                ident,
            ),
            None => skip matches Some(list) ==> !listed_in(list.packages@, ident),
        },
{
    if skip.is_none() {
        return None;
    }
    match skip.as_ref() {
        Some(list) => {
            let mut k: usize = 0;
            while k < list.packages.len()
                invariant
                    skip matches Some(l) && l == *list,
                    k <= list.packages@.len(),
                    forall|j: int|
                        0 <= j < k ==> !build_ident_eq(&(#[trigger] list.packages@[j]), ident),
                decreases list.packages@.len() - k,
            {
                let e = &list.packages[k];
                if e.target == ident.target && str_eq(e.origin.as_str(), ident.origin.as_str())
                    && str_eq(e.name.as_str(), ident.name.as_str()) && str_eq(
                    e.version.as_str(),
                    ident.version.as_str(),
                ) {
                    proof {
                        assert(listed_in(list.packages@, ident)) by {
                            assert(build_ident_eq(&list.packages@[k as int], ident));
                        }
                    }
                    return Some(list.updated_at);
                }
                k = k + 1;
            }
            None
        },
        None => None,
    }
}

/// Decide whether a package is updated. With no cached artifact the package
/// always counts as updated. Otherwise the cutoff is the artifact file's
/// timestamp, raised to the skip-list stamp when one applies; a dependency
/// whose latest release is lexicographically beyond the artifact's marks an
/// updated dependency, else any source file beyond the cutoff marks an
/// updated source; otherwise the package is up to date.
pub fn is_updated(
    last_build: &Option<(PackageArtifactIdent, i64)>,
    skip_ts: &Option<i64>,
    source_mtimes: &Vec<i64>,
    dep_latest_releases: &Vec<Option<String>>,
) -> (r: Option<UpdateCause>)
    ensures
        match *last_build {
            None => r == Some(UpdateCause::NoArtifact),
            Some((a, t)) => {
                let cutoff = match *skip_ts {
                    Some(s) => if s > t {
                        s
                    } else {
                        t
                    },
                    None => t,
                };
                let dep_updated = exists|k: int|
                    0 <= k < dep_latest_releases@.len()
                        && ((#[trigger] dep_latest_releases@[k]) matches Some(rel) && lex_lt(
                        a.release@,
                        rel@,
                    ));
                let src_updated = exists|k: int|
                    0 <= k < source_mtimes@.len() && #[trigger] source_mtimes@[k] > cutoff;
                r == (if dep_updated {
                    Some(UpdateCause::UpdatedDependency)
                } else if src_updated {
                    Some(UpdateCause::UpdatedSource)
                } else {
                    None::<UpdateCause>
                })
            },
        },
{
    let (artifact, t) = match last_build {
        Some((artifact, t)) => (artifact, *t),
        None => {
            return Some(UpdateCause::NoArtifact);
        },
    };
    let cutoff = match skip_ts {
        Some(s) => if *s > t {
            *s
        } else {
            t
        },
        None => t,
    };
    let mut dep_updated = false;
    let ghost mut wit_d: int = 0;
    let mut k: usize = 0;
    while k < dep_latest_releases.len()
        invariant
            k <= dep_latest_releases@.len(),
            dep_updated ==> 0 <= wit_d < dep_latest_releases@.len()
                && (dep_latest_releases@[wit_d] matches Some(rel) && lex_lt(
                artifact.release@,
                rel@,
            )),
            !dep_updated ==> forall|j: int|
                0 <= j < k ==> !((#[trigger] dep_latest_releases@[j]) matches Some(rel) && lex_lt(
                    artifact.release@,
                    rel@,
                )),
        decreases dep_latest_releases@.len() - k,
    {
        match &dep_latest_releases[k] {
            Some(rel) => {
                if str_lt(artifact.release.as_str(), rel.as_str()) {
                    dep_updated = true;
                    proof {
                        wit_d = k as int;
                    }
                }
            },
            None => {},
        }
        k = k + 1;
    }
    let mut src_updated = false;
    let ghost mut wit_s: int = 0;
    let mut k: usize = 0;
    while k < source_mtimes.len()
        invariant
            k <= source_mtimes@.len(),
            src_updated ==> 0 <= wit_s < source_mtimes@.len() && source_mtimes@[wit_s] > cutoff,
            !src_updated ==> forall|j: int| 0 <= j < k ==> !(#[trigger] source_mtimes@[j] > cutoff),
        decreases source_mtimes@.len() - k,
    {
        if source_mtimes[k] > cutoff {
            src_updated = true;
            proof {
                wit_s = k as int;
            }
        }
        k = k + 1;
    }
    proof {
        if dep_updated {
            assert(exists|j: int|
                0 <= j < dep_latest_releases@.len()
                    && ((#[trigger] dep_latest_releases@[j]) matches Some(rel) && lex_lt(
                    artifact.release@,
                    rel@,
                ))) by {
                assert(dep_latest_releases@[wit_d] matches Some(rel) && lex_lt(
                    artifact.release@,
                    rel@,
                ));
            }
        }
        if src_updated {
            assert(exists|j: int|
                0 <= j < source_mtimes@.len() && #[trigger] source_mtimes@[j] > cutoff) by {
                assert(source_mtimes@[wit_s] > cutoff);
            }
        }
    }
    if dep_updated {
        Some(UpdateCause::UpdatedDependency)
    } else if src_updated {
        Some(UpdateCause::UpdatedSource)
    } else {
        None
    }
}

} // verus!
