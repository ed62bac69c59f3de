//! The declarative install manifest: profile metadata, loader descriptor, and
//! the mod and resource entry lists, with their validation rules.

use vstd::prelude::*;
use vstd::string::{StrSliceExecFns, StringExecFns};

use crate::error::InstallError;
use crate::text::dec_rep;
use crate::text::u64_to_dec;
use crate::version::Version;

verus! {

/// Newest manifest schema version this installer understands; anything newer
/// is rejected outright.
pub const LATEST_SCHEMA_VERSION: u32 = 2;

/// Where an artifact comes from: a repository reference resolved to a
/// well-known download URL, or a direct URL.
#[derive(Clone, Debug, PartialEq, Eq)]
pub enum SourceType {
    Curseforge { project_id: u32, file_id: u32 },
    Direct { url: String },
}

/// Which side an entry applies to.
#[derive(Clone, Copy, Debug, PartialEq, Eq, Structural)]
pub enum SideType {
    Both,
    Client,
    Server,
}

/// Launcher-profile metadata carried by the manifest.
#[derive(Clone, Debug)]
pub struct Profile {
    pub name: String,
    pub icon: String,
    pub version: String,
    pub jvm_args: Option<String>,
}

/// The loader artifact: a direct URL and its expected content hash.
#[derive(Clone, Debug)]
pub struct ModLoader {
    pub name: String,
    pub url: String,
    pub hash: String,
    pub auto_open: bool,
}

/// One mod to install.
#[derive(Clone, Debug)]
pub struct ModEntry {
    pub name: String,
    pub source: SourceType,
    pub hash: String,
    pub side: SideType,
}

/// One auxiliary resource to install, placed under `target_dir`.
#[derive(Clone, Debug)]
pub struct ResourceEntry {
    pub name: String,
    pub source: SourceType,
    pub hash: String,
    pub target_dir: String,
    pub decompress: bool,
    pub side: SideType,
}

/// The whole manifest.
#[derive(Clone, Debug)]
pub struct ModPackConfig {
    pub schema_version: u32,
    pub pack_version: Version,
    pub profile: Profile,
    pub mod_loader: ModLoader,
    pub mods: Vec<ModEntry>,
    pub resources: Vec<ResourceEntry>,
}

/// Whitespace as far as trimming is concerned.
pub open spec fn is_space(c: char) -> bool {
    c == ' ' || c == '\t' || c == '\n' || c == '\r'
}

/// A string that is empty once trimmed of whitespace.
pub open spec fn is_blank(s: Seq<char>) -> bool {
    forall|i: int| 0 <= i < s.len() ==> is_space(s[i])
}

/// True when a `..` segment starts at position `i` of a `/`-separated path.
pub open spec fn dotdot_at(s: Seq<char>, i: int) -> bool {
    s[i] == '.' && s[i + 1] == '.' && (i == 0 || s[i - 1] == '/') && (i + 2 == s.len() || s[i + 2]
        == '/')
}

/// A safe relative directory: not absolute, free of `\` and `:`, and without
/// any parent-directory (`..`) segment.
pub open spec fn safe_relative_dir(s: Seq<char>) -> bool {
    &&& forall|i: int| 0 <= i < s.len() ==> s[i] != '\\' && s[i] != ':'
    &&& s.len() > 0 ==> s[0] != '/'
    &&& forall|i: int| 0 <= i && i + 2 <= s.len() ==> !dotdot_at(s, i)
}

/// The result is a validation error naming this field.
pub open spec fn names_field(r: Result<(), InstallError>, f: Seq<char>) -> bool {
    match r {
        Err(InstallError::Validation { field, .. }) => field@ == f,
        _ => false,
    }
}

impl Profile {
    /// The profile invariant: name and version are non-blank.
    pub open spec fn valid(self) -> bool {
        !is_blank(self.name@) && !is_blank(self.version@)
    }

    /// Checks the profile invariant; the error names the offending field.
    pub fn validate(&self) -> (r: Result<(), InstallError>)
        ensures
            r is Ok <==> self.valid(),
            is_blank(self.name@) ==> names_field(r, "profile.name"@),
            !is_blank(self.name@) && is_blank(self.version@) ==> names_field(
                r,
                "profile.version"@,
            ),
    {
        if blank(self.name.as_str()) {
            return Err(
                InstallError::Validation {
                    field: String::from_str("profile.name"),
                    message: String::from_str("must not be empty"),
                },
            );
        }
        if blank(self.version.as_str()) {
            return Err(
                InstallError::Validation {
                    field: String::from_str("profile.version"),
                    message: String::from_str("must not be empty"),
                },
            );
        }
        Ok(())
    }
}

impl ModLoader {
    /// The loader descriptor carries no invariant of its own.
    pub open spec fn valid(self) -> bool {
        true
    }

    /// Checks the (empty) loader invariant.
    pub fn validate(&self) -> (r: Result<(), InstallError>)
        ensures
            r is Ok,
    {
        Ok(())
    }
}

impl ModEntry {
    /// A mod entry carries no invariant of its own.
    pub open spec fn valid(self) -> bool {
        true
    }

    /// Checks the (empty) mod-entry invariant.
    pub fn validate(&self) -> (r: Result<(), InstallError>)
        ensures
            r is Ok,
    {
        Ok(())
    }
}

impl ResourceEntry {
    /// A resource entry is valid when its target directory is safe.
    pub open spec fn valid(self) -> bool {
        safe_relative_dir(self.target_dir@)
    }

    /// Checks the resource-entry invariant; the error names the field.
    pub fn validate(&self) -> (r: Result<(), InstallError>)
        ensures
            r is Ok <==> self.valid(),
            r is Err ==> names_field(r, "resources.targetDir"@),
    {
        validate_relative_dir(self.target_dir.as_str(), "resources.targetDir")
    }
}

impl ModPackConfig {
    /// The whole-manifest invariant: a supported schema version and every
    /// part valid.
    pub open spec fn valid(self) -> bool {
        &&& self.schema_version <= LATEST_SCHEMA_VERSION
    &&& self.profile.valid()
    &&& self.mod_loader.valid()
    &&& forall|i: int| 0 <= i < self.mods@.len() ==> self.mods@[i].valid()
    &&& forall|i: int| 0 <= i < self.resources@.len() ==> self.resources@[i].valid()
    }

    /// Checks every invariant of the manifest, reporting the first violation
    /// with the field it names.
    pub fn validate(&self) -> (r: Result<(), InstallError>)
        ensures
            r is Ok <==> self.valid(),
            r is Err ==> r->Err_0 is Validation,
            self.schema_version > LATEST_SCHEMA_VERSION ==> names_field(r, "schemaVersion"@),
            self.schema_version <= LATEST_SCHEMA_VERSION && is_blank(self.profile.name@)
                ==> names_field(r, "profile.name"@),
            self.schema_version <= LATEST_SCHEMA_VERSION && !is_blank(self.profile.name@)
                && is_blank(self.profile.version@) ==> names_field(r, "profile.version"@),
            self.schema_version <= LATEST_SCHEMA_VERSION && self.profile.valid() && r is Err
                ==> names_field(r, "resources.targetDir"@),
    {
        if self.schema_version > LATEST_SCHEMA_VERSION {
            return Err(
                InstallError::Validation {
                    field: String::from_str("schemaVersion"),
                    message: String::from_str("newer than this installer supports"),
                },
            );
        }
        self.profile.validate()?;
        self.mod_loader.validate()?;
        let mut i: usize = 0;
        while i < self.mods.len()
            invariant
                i <= self.mods@.len(),
                forall|j: int| 0 <= j < i ==> self.mods@[j].valid(),
            decreases self.mods@.len() - i,
        {
            self.mods[i].validate()?;
            i = i + 1;
        }
        let mut k: usize = 0;
        while k < self.resources.len()
            invariant
                k <= self.resources@.len(),
                forall|j: int| 0 <= j < k ==> self.resources@[j].valid(),
                self.schema_version <= LATEST_SCHEMA_VERSION,
                self.profile.valid(),
                forall|j: int| 0 <= j < self.mods@.len() ==> self.mods@[j].valid(),
            decreases self.resources@.len() - k,
        {
            let r = self.resources[k].validate();
            if let Err(e) = r {
                return Err(e);
            }
            k = k + 1;
        }
        Ok(())
    }
}

/// Decides whether a string is blank (empty after trimming).
pub fn blank(s: &str) -> (r: bool)
    ensures
        r == is_blank(s@),
{
    let len = s.unicode_len();
    for i in 0..len
        invariant
            len == s@.len(),
            forall|j: int| 0 <= j < i ==> is_space(s@[j]),
    {
        let c = s.get_char(i);
        if !(c == ' ' || c == '\t' || c == '\n' || c == '\r') {
            return false;
        }
    }
    true
}

/// Checks that `dir` is a safe relative directory, naming `field` in the
/// error on violation.
pub fn validate_relative_dir(dir: &str, field: &str) -> (r: Result<(), InstallError>)
    ensures
        r is Ok <==> safe_relative_dir(dir@),
        r is Err ==> (match r->Err_0 {
            InstallError::Validation { field: f, .. } => f@ == field@,
            _ => false,
        }),
{
    let len = dir.unicode_len();
    let mut i: usize = 0;
    while i < len
        invariant
            len == dir@.len(),
            i <= len,
            forall|j: int| 0 <= j < i ==> dir@[j] != '\\' && dir@[j] != ':',
            i > 0 ==> dir@[0] != '/',
            forall|j: int| 0 <= j && j + 2 <= len && j < i ==> !dotdot_at(dir@, j),
        decreases len - i,
    {
        let c = dir.get_char(i);
        if c == '\\' || c == ':' {
            return Err(
                InstallError::Validation {
                    field: String::from_str(field),
                    message: String::from_str("contains invalid characters"),
                },
            );
        }
        if i == 0 && c == '/' {
            return Err(
                InstallError::Validation {
                    field: String::from_str(field),
                    message: String::from_str("must be a relative path"),
                },
            );
        }
        if c == '.' && len - i >= 2 {
            let c1 = dir.get_char(i + 1);
            let at_start = i == 0 || dir.get_char(i - 1) == '/';
            let at_end = i + 2 == len || dir.get_char(i + 2) == '/';
            if c1 == '.' && at_start && at_end {
                assert(dotdot_at(dir@, i as int));
                return Err(
                    InstallError::Validation {
                        field: String::from_str(field),
                        message: String::from_str("must not contain '..' segments"),
                    },
                );
            }
        }
        i = i + 1;
    }
    Ok(())
}

/// Source identity: two sources are the same exactly when they are the same
/// kind and their identifying values agree. This is what the ledger's
/// canonical source key distinguishes.
pub open spec fn source_eq(a: SourceType, b: SourceType) -> bool {
    match (a, b) {
        (
            SourceType::Curseforge { project_id: p1, file_id: f1 },
            SourceType::Curseforge { project_id: p2, file_id: f2 },
        ) => p1 == p2 && f1 == f2,
        (SourceType::Direct { url: u1 }, SourceType::Direct { url: u2 }) => u1@ == u2@,
        _ => false,
    }
}

/// Decides `source_eq`.
pub fn source_matches(a: &SourceType, b: &SourceType) -> (r: bool)
    ensures
        r == source_eq(*a, *b),
{
    match (a, b) {
        (
            SourceType::Curseforge { project_id: p1, file_id: f1 },
            SourceType::Curseforge { project_id: p2, file_id: f2 },
        ) => p1 == p2 && f1 == f2,
        (SourceType::Direct { url: u1 }, SourceType::Direct { url: u2 }) => u1.eq(u2),
        _ => false,
    }
}

/// Source identity is symmetric.
pub proof fn lemma_source_eq_sym(a: SourceType, b: SourceType)
    ensures
        source_eq(a, b) == source_eq(b, a),
{
}

/// Two sources identical to a third are identical to each other.
pub proof fn lemma_source_eq_trans(a: SourceType, b: SourceType, c: SourceType)
    ensures
        source_eq(a, c) && source_eq(b, c) ==> source_eq(a, b),
{
}

impl SourceType {
    /// A copy with the same source identity.
    pub fn duplicate(&self) -> (r: SourceType)
        ensures
            source_eq(r, *self),
    {
        match self {
            SourceType::Curseforge { project_id, file_id } => SourceType::Curseforge {
                project_id: *project_id,
                file_id: *file_id,
            },
            SourceType::Direct { url } => SourceType::Direct { url: url.clone() },
        }
    }
}

/// The concrete download URL an artifact source resolves to, as a sequence of
/// characters: repository references map to the repository's well-known
/// download endpoint; direct sources are their URL verbatim.
pub open spec fn spec_download_url(s: SourceType) -> Seq<char> {
    match s {
        SourceType::Curseforge { project_id, file_id } => {
            "https://www.curseforge.com/api/v1/mods/"@ + dec_rep(project_id as nat) + "/files/"@
                + dec_rep(file_id as nat) + "/download"@
        },
        SourceType::Direct { url } => url@,
    }
}

impl SourceType {
    /// Resolves this source to its concrete download URL. No network is
    /// involved: repository references use the repository's stable download
    /// endpoint.
    pub fn get_download_url(&self) -> (r: String)
        ensures
            r@ == spec_download_url(*self),
    {
        match self {
            SourceType::Curseforge { project_id, file_id } => {
                let mut s = String::from_str("https://www.curseforge.com/api/v1/mods/");
                let p = u64_to_dec(*project_id as u64);
                s.append(p.as_str());
                s.append("/files/");
                let f = u64_to_dec(*file_id as u64);
                s.append(f.as_str());
                s.append("/download");
                assert(s@ =~= spec_download_url(*self));
                s
            },
            SourceType::Direct { url } => {
                let mut s = String::new();
                s.append(url.as_str());
                assert(s@ =~= spec_download_url(*self));
                s
            },
        }
    }
}

} // verus!
