//! Selection logic for versions resolved against the Modrinth repository:
//! given the metadata a lookup returned, pick the one file to download.

use vstd::prelude::*;

use crate::error::InstallError;
use crate::text::str_eq;

verus! {

/// The Modrinth repository, as a resolver of version metadata to URLs. The
/// network lookup itself lives outside; this type decides what the returned
/// metadata means.
pub struct Modrinth;

/// One downloadable file of a resolved version.
#[derive(Clone, Debug)]
pub struct ModrinthFile {
    pub url: String,
    pub primary: bool,
}

/// The metadata a version lookup returns: the owning project and the files
/// the version exposes, in server order.
#[derive(Clone, Debug)]
pub struct ModrinthVersion {
    pub project_id: String,
    pub files: Vec<ModrinthFile>,
}

/// Some file is marked primary, the first such being at `primary_ix`.
pub open spec fn has_primary(files: Seq<ModrinthFile>) -> bool {
    exists|i: int|
        0 <= i < files.len() && #[trigger] files[i].primary && (forall|j: int|
            0 <= j < i ==> !(#[trigger] files[j].primary))
}

/// The position of the first file marked primary.
pub open spec fn primary_ix(files: Seq<ModrinthFile>) -> int {
    choose|i: int|
        0 <= i < files.len() && #[trigger] files[i].primary && (forall|j: int|
            0 <= j < i ==> !(#[trigger] files[j].primary))
}

/// The URL the selection rule picks: the first file marked primary, else the
/// first file in server order.
pub open spec fn spec_chosen_url(files: Seq<ModrinthFile>) -> Seq<char>
    recommends
        files.len() > 0,
{
    if has_primary(files) {
        files[primary_ix(files)].url@
    } else {
        files[0].url@
    }
}

impl Modrinth {
    /// Resolves looked-up version metadata to a download URL. Fails with an
    /// integrity error when the metadata belongs to another project, and with
    /// the no-files error when the version has no files. The returned flag
    /// reports the non-fatal ambiguity of several files with none marked
    /// primary.
    pub fn get_download_url(project_id: &str, version: &ModrinthVersion) -> (r: Result<
        (String, bool),
        InstallError,
    >)
        ensures
            r is Ok <==> (version.project_id@ == project_id@ && version.files@.len() > 0),
            r matches Ok(p) ==> p.0@ == spec_chosen_url(version.files@) && p.1 == (
            version.files@.len() > 1 && !has_primary(version.files@)),
            r matches Err(e) ==> (if version.project_id@ != project_id@ {
                match e {
                    InstallError::Integrity { expected, actual, .. } => expected@ == project_id@
                        && actual@ == version.project_id@,
                    _ => false,
                }
            } else {
                e is NoFiles
            }),
    {
        if !str_eq(version.project_id.as_str(), project_id) {
            return Err(
                InstallError::Integrity {
                    expected: project_id.to_owned(),
                    actual: version.project_id.clone(),
                    path: String::new(),
                },
            );
        }
        let n = version.files.len();
        if n == 0 {
            return Err(InstallError::NoFiles);
        }
        let mut i: usize = 0;
        while i < n
            invariant
                n == version.files@.len(),
                i <= n,
                0 < n,
                version.project_id@ == project_id@,
                forall|j: int| 0 <= j < i ==> !(#[trigger] version.files@[j].primary),
            decreases n - i,
        {
            if version.files[i].primary {
                proof {
                    assert(has_primary(version.files@));
                    let k = primary_ix(version.files@);
                    if k < i as int {
                        assert(version.files@[k].primary);
                        assert(false);
                    }
                    if k > i as int {
                        assert(false);
                    }
                }
                return Ok((version.files[i].url.clone(), false));
            }
            i = i + 1;
        }
        proof {
            if has_primary(version.files@) {
                let k = primary_ix(version.files@);
                assert(version.files@[k].primary);
                assert(false);
            }
        }
        Ok((version.files[0].url.clone(), n > 1))
    }
}

} // verus!
