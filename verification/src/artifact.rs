//! The artifact opener: a built artifact is a five-line text header followed
//! by a compressed tar stream whose first entry names the installed package
//! path; together with the filename it recovers the artifact identifier.

use vstd::prelude::*;

use crate::ident::{
    artifact_filename_chars, IdentError, PackageArtifactIdent, PackageIdent, PackageTarget,
};
use crate::strutil::split_on;

verus! {

/// The number of newline bytes in a byte string.
pub open spec fn newline_count(b: Seq<u8>) -> nat
    decreases b.len(),
{
    if b.len() == 0 {
        0
    } else {
        newline_count(b.drop_last()) + (if b.last() == 10u8 {
            1nat
        } else {
            0nat
        })
    }
}

/// The position just after the fifth newline, where the compressed tar
/// stream of an artifact begins.
pub fn header_end(data: &Vec<u8>) -> (r: Option<usize>)
    ensures
        match r {
            Some(p) => 0 < p <= data@.len() && data@[p - 1] == 10u8 && newline_count(
                data@.take(p as int),
            ) == 5,
            None => newline_count(data@) < 5,
        },
{
    let mut count: usize = 0;
    let mut i: usize = 0;
    proof {
        assert(data@.take(0) =~= Seq::<u8>::empty());
    }
    while i < data.len()
        invariant
            i <= data@.len(),
            count == newline_count(data@.take(i as int)),
            count < 5,
        decreases data@.len() - i,
    {
        let byte = data[i];
        proof {
            assert(data@.take(i + 1).drop_last() =~= data@.take(i as int));
            assert(data@.take(i + 1).last() == data@[i as int]);
        }
        if byte == 10 {
            count = count + 1;
            if count == 5 {
                return Some(i + 1);
            }
        }
        i = i + 1;
    }
    proof {
        assert(data@.take(data@.len() as int) =~= data@);
    }
    None
}

/// The path of the first entry of an xz-compressed tar stream, when the
/// stream decodes; a function of the bytes alone.
pub uninterp spec fn tar_entry_path(data: Seq<u8>) -> Option<Seq<char>>;

/// Relies on xz2::bufread::XzDecoder and tar::Archive: decode the stream and
/// read the first entry's path; both read the bytes alone.
#[verifier::external_body]
fn first_tar_entry_path(data: &[u8]) -> (r: Option<String>)
    ensures
        match r {
            Some(s) => tar_entry_path(data@) matches Some(p) && p == s@,
            None => tar_entry_path(data@) is None,
        },
{
    let decoder = xz2::bufread::XzDecoder::new(data);
    let mut archive = tar::Archive::new(decoder);
    let mut entries = match archive.entries() {
        Ok(entries) => entries,
        Err(_) => return None,
    };
    let entry = match entries.next() {
        Some(Ok(entry)) => entry,
        _ => return None,
    };
    match entry.path() {
        Ok(path) => Some(path.to_string_lossy().to_string()),
        Err(_) => None,
    }
}

/// Whether `p` is the end of the five-line artifact header: the position
/// just after the fifth newline.
pub open spec fn header_split(data: Seq<u8>, p: int) -> bool {
    0 < p <= data.len() && data[p - 1] == 10u8 && newline_count(data.take(p)) == 5
}

/// Whether an entry path and a filename determine some artifact identifier:
/// the path starts `hab/pkgs/` with at least four segments below it, and the
/// filename is their canonical artifact filename for some target.
pub open spec fn entry_parses(ep: Seq<char>, file_name: Seq<char>) -> bool {
    let parts = split_on(ep, '/');
    parts.len() >= 6 && parts[0] == "hab"@ && parts[1] == "pkgs"@ && (exists|t: PackageTarget|
        file_name == artifact_filename_chars(parts[2], parts[3], parts[4], parts[5], t))
}

/// Whether an entry path and a filename determine the given identifier
/// fields: the path starts `hab/pkgs/` and its next four segments are the
/// identifier, whose canonical filename for some target is the given name.
pub open spec fn entry_shape(
    entry_path: Seq<char>,
    file_name: Seq<char>,
    o: Seq<char>,
    n: Seq<char>,
    v: Seq<char>,
    rl: Seq<char>,
    t: PackageTarget,
) -> bool {
    let parts = split_on(entry_path, '/');
    &&& parts.len() >= 6
    &&& parts[0] == "hab"@
    &&& parts[1] == "pkgs"@
    &&& parts[2] == o
    &&& parts[3] == n
    &&& parts[4] == v
    &&& parts[5] == rl
    &&& file_name == artifact_filename_chars(o, n, v, rl, t)
}

/// Read the artifact identifier out of the first tar entry path and the
/// artifact's filename.
pub fn ident_from_artifact(entry_path: &str, file_name: &str) -> (r: Result<
    PackageArtifactIdent,
    IdentError,
>)
    ensures
        match r {
            Ok(a) => entry_shape(
                entry_path@,
                file_name@,
                a.origin@,
                a.name@,
                a.version@,
                a.release@,
                a.target,
            ),
            Err(_) => {
                let parts = split_on(entry_path@, '/');
                parts.len() < 6 || parts[0] != "hab"@ || parts[1] != "pkgs"@ || (forall|t: PackageTarget|
                    file_name@ != artifact_filename_chars(parts[2], parts[3], parts[4], parts[5], t))
            },
        },
{
    let parts = crate::strutil::split_char(entry_path, '/');
    if parts.len() < 6 {
        return Err(IdentError::Invalid);
    }
    if !crate::strutil::str_eq(parts[0].as_str(), "hab") || !crate::strutil::str_eq(
        parts[1].as_str(),
        "pkgs",
    ) {
        return Err(IdentError::Invalid);
    }
    let ident = PackageIdent {
        origin: parts[2].clone(),
        name: parts[3].clone(),
        version: parts[4].clone(),
        release: parts[5].clone(),
    };
    proof {
        let pv = parts@.map_values(|p: String| p@);
        assert(split_on(entry_path@, '/')[2] == pv[2]);
        assert(split_on(entry_path@, '/')[3] == pv[3]);
        assert(split_on(entry_path@, '/')[4] == pv[4]);
        assert(split_on(entry_path@, '/')[5] == pv[5]);
        assert(split_on(entry_path@, '/')[0] == pv[0]);
        assert(split_on(entry_path@, '/')[1] == pv[1]);
    }
    let ghost pv = parts@.map_values(|p: String| p@);
    match PackageArtifactIdent::parse_with_ident(file_name, &ident) {
        Ok(a) => {
            proof {
                assert(entry_shape(
                    entry_path@,
                    file_name@,
                    a.origin@,
                    a.name@,
                    a.version@,
                    a.release@,
                    a.target,
                ));
            }
            Ok(a)
        },
        Err(e) => {
            proof {
                let parts2 = split_on(entry_path@, '/');
                assert forall|t: PackageTarget|
                    file_name@ != artifact_filename_chars(
                        parts2[2],
                        parts2[3],
                        parts2[4],
                        parts2[5],
                        t,
                    ) by {
                    if file_name@ == artifact_filename_chars(
                        parts2[2],
                        parts2[3],
                        parts2[4],
                        parts2[5],
                        t,
                    ) {
                        assert(file_name@ == artifact_filename_chars(
                            ident.origin@,
                            ident.name@,
                            ident.version@,
                            ident.release@,
                            t,
                        ));
                    }
                }
            }
            Err(e)
        },
    }
}

/// A built artifact: its identifier and the path of its file.
#[derive(Debug, Clone)]
pub struct PackageArtifact {
    pub ident: PackageArtifactIdent,
    pub path: String,
}

impl PackageArtifact {
    /// Open an artifact from its file's bytes: skip the five header lines,
    /// read the first tar entry of the compressed stream, and recover the
    /// identifier from the entry path and the filename. The open fails
    /// exactly when the header is short, the stream yields no entry path, or
    /// the entry path and filename fit no identifier.
    pub fn from_bytes(path: &str, file_name: &str, data: &Vec<u8>) -> (r: Result<
        PackageArtifact,
        IdentError,
    >)
        ensures
            match r {
                Ok(pa) => {
                    &&& pa.path@ == path@
                    &&& exists|p: int|
                        #[trigger] header_split(data@, p) && (tar_entry_path(data@.skip(p))
                            matches Some(ep) && entry_shape(
                            ep,
                            file_name@,
                            pa.ident.origin@,
                            pa.ident.name@,
                            pa.ident.version@,
                            pa.ident.release@,
                            pa.ident.target,
                        ))
                },
                Err(_) => {
                    ||| newline_count(data@) < 5
                    ||| exists|p: int|
                        #[trigger] header_split(data@, p) && tar_entry_path(data@.skip(p)) is None
                    ||| exists|p: int|
                        #[trigger] header_split(data@, p) && (tar_entry_path(data@.skip(p))
                            matches Some(ep) && !entry_parses(ep, file_name@))
                },
            },
    {
        let start = match header_end(data) {
            Some(start) => start,
            None => {
                return Err(IdentError::Invalid);
            },
        };
        let mut rest: Vec<u8> = Vec::new();
        let mut i: usize = start;
        while i < data.len()
            invariant
                start <= i <= data@.len(),
                rest@ == data@.subrange(start as int, i as int),
            decreases data@.len() - i,
        {
            rest.push(data[i]);
            proof {
                assert(rest@ =~= data@.subrange(start as int, i + 1));
            }
            i = i + 1;
        }
        proof {
            assert(rest@ =~= data@.skip(start as int));
            assert(header_split(data@, start as int));
        }
        let entry_path = match first_tar_entry_path(rest.as_slice()) {
            Some(entry_path) => entry_path,
            None => {
                proof {
                    assert(exists|p: int|
                        #[trigger] header_split(data@, p) && tar_entry_path(data@.skip(p))
                            is None) by {
                        assert(header_split(data@, start as int) && tar_entry_path(
                            data@.skip(start as int),
                        ) is None);
                    }
                }
                return Err(IdentError::Invalid);
            },
        };
        match ident_from_artifact(entry_path.as_str(), file_name) {
            Ok(ident) => {
                let pa = PackageArtifact { ident, path: path.to_owned() };
                proof {
                    assert(header_split(data@, start as int) && (tar_entry_path(
                        data@.skip(start as int),
                    ) matches Some(ep) && entry_shape(
                        ep,
                        file_name@,
                        pa.ident.origin@,
                        pa.ident.name@,
                        pa.ident.version@,
                        pa.ident.release@,
                        pa.ident.target,
                    )));
                }
                Ok(pa)
            },
            Err(e) => {
                proof {
                    assert(!entry_parses(entry_path@, file_name@)) by {
                        if entry_parses(entry_path@, file_name@) {
                            let parts = split_on(entry_path@, '/');
                            let t = choose|t: PackageTarget|
                                file_name@ == artifact_filename_chars(
                                    parts[2],
                                    parts[3],
                                    parts[4],
                                    parts[5],
                                    t,
                                );
                            assert(file_name@ != artifact_filename_chars(
                                parts[2],
                                parts[3],
                                parts[4],
                                parts[5],
                                t,
                            ));
                        }
                    }
                    assert(exists|p: int|
                        #[trigger] header_split(data@, p) && (tar_entry_path(data@.skip(p))
                            matches Some(ep) && !entry_parses(ep, file_name@))) by {
                        assert(header_split(data@, start as int) && (tar_entry_path(
                            data@.skip(start as int),
                        ) matches Some(ep) && !entry_parses(ep, file_name@)));
                    }
                }
                Err(e)
            },
        }
    }

    /// The system-wide installation directory of this artifact.
    pub fn install_dir(&self) -> (r: String)
        ensures
            r@ == "/hab/pkgs/"@ + self.ident.origin@ + seq!['/'] + self.ident.name@ + seq!['/']
                + self.ident.version@ + seq!['/'] + self.ident.release@,
    {
        let mut out = String::new();
        out.append("/hab/pkgs/");
        out.append(self.ident.origin.as_str());
        out.append("/");
        out.append(self.ident.name.as_str());
        out.append("/");
        out.append(self.ident.version.as_str());
        out.append("/");
        out.append(self.ident.release.as_str());
        proof {
            reveal_strlit("/");
            assert("/"@ =~= seq!['/']);
            assert(out@ =~= "/hab/pkgs/"@ + self.ident.origin@ + seq!['/'] + self.ident.name@
                + seq!['/'] + self.ident.version@ + seq!['/'] + self.ident.release@);
        }
        out
    }

    /// The cache path of an artifact file.
    pub fn cache_path(ident: &PackageArtifactIdent) -> (r: String)
        ensures
            r@ == "/hab/cache/artifacts/"@ + ident.filename_chars(),
    {
        let mut out = String::new();
        out.append("/hab/cache/artifacts/");
        let filename = ident.to_filename();
        out.append(filename.as_str());
        out
    }
}

} // verus!
