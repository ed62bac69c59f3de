//! Launcher-side decisions: the external launcher's profile registry as
//! plain values, backup-file naming, picking the loader archive to run, and
//! the preference order over the launcher's bundled runtime directories.

use vstd::prelude::*;
use vstd::seq_lib::group_to_multiset_ensures;
use vstd::string::{StrSliceExecFns, StringExecFns};

use crate::config::Profile;
use crate::error::InstallError;
use crate::text::{dec_rep, eq_ignore_case, str_eq_ignore_case, u64_to_dec};

verus! {

/// A window-size preference of a launcher profile.
#[derive(Clone, Copy, Debug, PartialEq, Eq, Structural)]
pub struct ProfileResolution {
    pub height: u32,
    pub width: u32,
}

/// One profile of the external launcher's registry, as plain values:
/// timestamps are milliseconds since the epoch, paths are strings.
#[derive(Clone, Debug)]
pub struct LauncherProfile {
    pub created: Option<i64>,
    pub game_dir: Option<String>,
    pub icon: String,
    pub java_args: Option<String>,
    pub java_dir: Option<String>,
    pub last_used: Option<i64>,
    pub last_version_id: String,
    pub name: String,
    pub resolution: Option<ProfileResolution>,
    pub skip_jre_version_check: Option<bool>,
    pub profile_type: String,
}

/// The profiles of the registry file, keyed by profile id, in file order.
/// Settings the file also carries are opaque to the pipeline and are carried
/// through unchanged by the shell.
#[derive(Clone, Debug)]
pub struct LauncherProfiles {
    pub profiles: Vec<(String, LauncherProfile)>,
    pub version: u32,
}

/// A profile with this display name exists in the registry.
pub open spec fn spec_has_profile_named(ps: Seq<(String, LauncherProfile)>, name: Seq<char>) -> bool {
    exists|i: int| 0 <= i < ps.len() && (#[trigger] ps[i].1.name)@ == name
}

/// A profile with this id exists in the registry.
pub open spec fn spec_has_profile_id(ps: Seq<(String, LauncherProfile)>, id: Seq<char>) -> bool {
    exists|i: int| 0 <= i < ps.len() && (#[trigger] ps[i].0)@ == id
}

impl LauncherProfiles {
    /// Whether some profile already carries this display name; if so, the
    /// install adds nothing.
    pub fn has_profile_named(&self, name: &str) -> (r: bool)
        ensures
            r == spec_has_profile_named(self.profiles@, name@),
    {
        let n = self.profiles.len();
        for i in 0..n
            invariant
                n == self.profiles@.len(),
                forall|j: int| 0 <= j < i ==> (#[trigger] self.profiles@[j].1.name)@ != name@,
        {
            if crate::text::str_eq(self.profiles[i].1.name.as_str(), name) {
                return true;
            }
        }
        false
    }

    /// Adds a profile under a fresh id; an id collision is refused and
    /// changes nothing.
    pub fn insert_profile(&mut self, id: String, profile: LauncherProfile) -> (r: Result<
        (),
        InstallError,
    >)
        ensures
            spec_has_profile_id(old(self).profiles@, id@) ==> r is Err && *final(self) == *old(
                self,
            ) && r->Err_0 is Io,
            !spec_has_profile_id(old(self).profiles@, id@) ==> r is Ok && final(self).profiles@
                == old(self).profiles@.push((id, profile)) && final(self).version == old(
                self,
            ).version,
    {
        let n = self.profiles.len();
        for i in 0..n
            invariant
                n == self.profiles@.len(),
                forall|j: int| 0 <= j < i ==> (#[trigger] self.profiles@[j].0)@ != id@,
        {
            if crate::text::str_eq(self.profiles[i].0.as_str(), id.as_str()) {
                return Err(
                    InstallError::Io {
                        message: String::from_str("profile id already exists in launcher profiles"),
                    },
                );
            }
        }
        self.profiles.push((id, profile));
        Ok(())
    }
}

/// Builds the registry entry for the installed pack: both timestamps are the
/// given instant, the profile type is `custom`, and everything else comes
/// from the manifest's profile metadata.
pub fn build_profile(p: &Profile, install_dir: &str, now_millis: i64) -> (r: LauncherProfile)
    ensures
        r.created == Some(now_millis),
        r.last_used == Some(now_millis),
        (match r.game_dir {
            Some(d) => d@ == install_dir@,
            None => false,
        }),
        r.icon@ == p.icon@,
        (match (r.java_args, p.jvm_args) {
            (Some(a), Some(b)) => a@ == b@,
            (None, None) => true,
            _ => false,
        }),
        r.java_dir is None,
        r.last_version_id@ == p.version@,
        r.name@ == p.name@,
        r.resolution is None,
        r.skip_jre_version_check is None,
        r.profile_type@ == "custom"@,
{
    LauncherProfile {
        created: Some(now_millis),
        game_dir: Some(String::from_str(install_dir)),
        icon: p.icon.clone(),
        java_args: match &p.jvm_args {
            Some(s) => Some(s.clone()),
            None => None,
        },
        java_dir: None,
        last_used: Some(now_millis),
        last_version_id: p.version.clone(),
        name: p.name.clone(),
        resolution: None,
        skip_jre_version_check: None,
        profile_type: String::from_str("custom"),
    }
}

/// The extension of the `k`-th backup candidate for the registry file:
/// `json.bak` first, then `json.bak1`, `json.bak2`, and so on.
pub fn backup_extension(k: u64) -> (r: String)
    ensures
        k == 0 ==> r@ == "json.bak"@,
        k >= 1 ==> r@ == "json.bak"@ + dec_rep(k as nat),
{
    let mut s = String::from_str("json.bak");
    if k >= 1 {
        let d = u64_to_dec(k);
        s.append(d.as_str());
        assert(s@ =~= "json.bak"@ + dec_rep(k as nat));
    }
    s
}

/// A file name whose extension (after the last dot) is `jar`, ignoring ASCII
/// case.
pub open spec fn is_jar_name(s: Seq<char>) -> bool {
    exists|i: int|
        0 <= i < s.len() && #[trigger] s[i] == '.' && (forall|j: int|
            i < j < s.len() ==> s[j] != '.') && eq_ignore_case(s.skip(i + 1), "jar"@)
}

/// Decides `is_jar_name`.
pub fn has_jar_extension(s: &str) -> (r: bool)
    ensures
        r == is_jar_name(s@),
{
    let n = s.unicode_len();
    let mut i = n;
    while i > 0
        invariant
            i <= n,
            n == s@.len(),
            forall|j: int| i as int <= j < n ==> s@[j] != '.',
        decreases i,
    {
        i = i - 1;
        if s.get_char(i) == '.' {
            let ext = s.substring_char(i + 1, n);
            let r = str_eq_ignore_case(ext, "jar");
            proof {
                assert(ext@ =~= s@.skip(i + 1));
                if r {
                    assert(is_jar_name(s@));
                } else {
                    if is_jar_name(s@) {
                        let k = choose|k: int|
                            0 <= k < s@.len() && #[trigger] s@[k] == '.' && (forall|j: int|
                                k < j < s@.len() ==> s@[j] != '.') && eq_ignore_case(
                                s@.skip(k + 1),
                                "jar"@,
                            );
                        if k < i as int {
                            assert(s@[i as int] == '.');
                            assert(false);
                        }
                        if k > i as int {
                            assert(s@[k] == '.');
                            assert(false);
                        }
                        assert(false);
                    }
                }
            }
            return r;
        }
    }
    proof {
        if is_jar_name(s@) {
            let k = choose|k: int|
                0 <= k < s@.len() && #[trigger] s@[k] == '.' && (forall|j: int|
                    k < j < s@.len() ==> s@[j] != '.') && eq_ignore_case(s@.skip(k + 1), "jar"@);
            assert(false);
        }
    }
    false
}

/// Picks the loader archive to launch: the first file in directory order
/// whose extension is `jar`, ignoring case.
pub fn select_jar(names: &Vec<String>) -> (r: Option<usize>)
    ensures
        match r {
            Some(i) => i < names@.len() && is_jar_name(names@[i as int]@) && forall|j: int|
                0 <= j < i ==> !is_jar_name((#[trigger] names@[j])@),
            None => forall|j: int| 0 <= j < names@.len() ==> !is_jar_name((#[trigger] names@[j])@),
        },
{
    let n = names.len();
    for i in 0..n
        invariant
            n == names@.len(),
            forall|j: int| 0 <= j < i ==> !is_jar_name((#[trigger] names@[j])@),
    {
        if has_jar_extension(names[i].as_str()) {
            return Some(i);
        }
    }
    None
}

/// Lexicographic order on character sequences by code point.
pub open spec fn lex_le(a: Seq<char>, b: Seq<char>) -> bool
    decreases a.len(),
{
    if a.len() == 0 {
        true
    } else if b.len() == 0 {
        false
    } else if (a.first() as u32) < (b.first() as u32) {
        true
    } else if (b.first() as u32) < (a.first() as u32) {
        false
    } else {
        lex_le(a.drop_first(), b.drop_first())
    }
}

/// Any two sequences compare one way or the other.
pub proof fn lemma_lex_le_total(a: Seq<char>, b: Seq<char>)
    ensures
        lex_le(a, b) || lex_le(b, a),
    decreases a.len(),
{
    if a.len() > 0 && b.len() > 0 && !((a.first() as u32) < (b.first() as u32)) && !((
    b.first() as u32) < (a.first() as u32)) {
        lemma_lex_le_total(a.drop_first(), b.drop_first());
    }
}

/// The lexicographic order is transitive.
pub proof fn lemma_lex_le_trans(a: Seq<char>, b: Seq<char>, c: Seq<char>)
    requires
        lex_le(a, b),
        lex_le(b, c),
    ensures
        lex_le(a, c),
    decreases a.len(),
{
    if a.len() > 0 && b.len() > 0 && c.len() > 0 {
        if !((a.first() as u32) < (c.first() as u32)) && !((c.first() as u32) < (
        a.first() as u32)) {
            if !((a.first() as u32) < (b.first() as u32)) && !((b.first() as u32) < (
            c.first() as u32)) {
                lemma_lex_le_trans(a.drop_first(), b.drop_first(), c.drop_first());
            }
        }
    }
}

/// A directory of the launcher's newer runtime format.
pub open spec fn is_newer_runtime(s: Seq<char>) -> bool {
    s.len() >= 13 && s.take(13) == "java-runtime-"@
}

/// The preference order over runtime directories: newer-format directories
/// come before older ones, and within one format names run lexicographically
/// descending, so newer-looking releases come first.
pub open spec fn runtime_le(a: Seq<char>, b: Seq<char>) -> bool {
    if is_newer_runtime(a) != is_newer_runtime(b) {
        is_newer_runtime(a)
    } else {
        lex_le(b, a)
    }
}

/// The runtime order is total.
pub proof fn lemma_runtime_le_total(a: Seq<char>, b: Seq<char>)
    ensures
        runtime_le(a, b) || runtime_le(b, a),
{
    lemma_lex_le_total(a, b);
}

/// The runtime order is transitive.
pub proof fn lemma_runtime_le_trans(a: Seq<char>, b: Seq<char>, c: Seq<char>)
    requires
        runtime_le(a, b),
        runtime_le(b, c),
    ensures
        runtime_le(a, c),
{
    if is_newer_runtime(a) == is_newer_runtime(b) && is_newer_runtime(b) == is_newer_runtime(c) {
        lemma_lex_le_trans(c, b, a);
    }
}

/// Decides `is_newer_runtime`.
fn is_newer_runtime_dir(s: &str) -> (r: bool)
    ensures
        r == is_newer_runtime(s@),
{
    let n = s.unicode_len();
    if n < 13 {
        return false;
    }
    proof {
        reveal_strlit("java-runtime-");
    }
    let lit = "java-runtime-";
    let mut j: usize = 0;
    while j < 13
        invariant
            j <= 13,
            13 <= n == s@.len(),
            lit@ == "java-runtime-"@,
            lit@.len() == 13,
            forall|q: int| 0 <= q < j ==> s@[q] == lit@[q],
        decreases 13 - j,
    {
        if s.get_char(j) != lit.get_char(j) {
            proof {
                assert(s@.take(13)[j as int] == s@[j as int]);
            }
            return false;
        }
        j = j + 1;
    }
    proof {
        assert forall|q: int| 0 <= q < 13 implies s@.take(13)[q] == "java-runtime-"@[q] by {
            assert(s@.take(13)[q] == s@[q]);
        }
        assert(s@.take(13) =~= "java-runtime-"@);
    }
    true
}

/// Decides `lex_le`.
fn lex_le_str(a: &str, b: &str) -> (r: bool)
    ensures
        r == lex_le(a@, b@),
{
    let na = a.unicode_len();
    let nb = b.unicode_len();
    let mut i: usize = 0;
    proof {
        assert(a@.skip(0) =~= a@);
        assert(b@.skip(0) =~= b@);
    }
    loop
        invariant
            i <= na,
            i <= nb,
            na == a@.len(),
            nb == b@.len(),
            lex_le(a@, b@) == lex_le(a@.skip(i as int), b@.skip(i as int)),
        decreases na - i,
    {
        proof {
            let ta = a@.skip(i as int);
            let tb = b@.skip(i as int);
            if ta.len() > 0 {
                assert(ta.first() == a@[i as int]);
                assert(ta.drop_first() =~= a@.skip(i + 1));
            }
            if tb.len() > 0 {
                assert(tb.first() == b@[i as int]);
                assert(tb.drop_first() =~= b@.skip(i + 1));
            }
        }
        if i == na {
            return true;
        }
        if i == nb {
            return false;
        }
        let ca = a.get_char(i) as u32;
        let cb = b.get_char(i) as u32;
        if ca < cb {
            return true;
        }
        if cb < ca {
            return false;
        }
        i = i + 1;
    }
}

/// Decides `runtime_le`.
fn runtime_le_str(a: &str, b: &str) -> (r: bool)
    ensures
        r == runtime_le(a@, b@),
{
    let na = is_newer_runtime_dir(a);
    let nb = is_newer_runtime_dir(b);
    if na != nb {
        na
    } else {
        lex_le_str(b, a)
    }
}

/// Orders runtime directory names by preference: the result is a permutation
/// of the input, sorted under `runtime_le`, so probing it front to back
/// tries the newest-looking runtime first, as the launcher would.
pub fn order_runtime_dirs(dirs: Vec<String>) -> (r: Vec<String>)
    ensures
        r@.len() == dirs@.len(),
        r@.to_multiset() == dirs@.to_multiset(),
        forall|x: int, y: int|
            0 <= x < y < r@.len() ==> runtime_le((#[trigger] r@[x])@, (#[trigger] r@[y])@),
{
    broadcast use group_to_multiset_ensures;

    let mut rest = dirs;
    let mut out: Vec<String> = Vec::new();
    let ghost all = dirs@;
    while rest.len() > 0
        invariant
            out@.to_multiset().add(rest@.to_multiset()) =~= all.to_multiset(),
            out@.len() + rest@.len() == all.len(),
            forall|x: int, y: int|
                0 <= x < y < out@.len() ==> runtime_le((#[trigger] out@[x])@, (#[trigger] out@[y])@),
            forall|x: int, y: int|
                0 <= x < out@.len() && 0 <= y < rest@.len() ==> runtime_le(
                    (#[trigger] out@[x])@,
                    (#[trigger] rest@[y])@,
                ),
        decreases rest@.len(),
    {
        let n = rest.len();
        let mut mi: usize = 0;
        let mut scan: usize = 1;
        proof {
            lemma_runtime_le_total(rest@[0]@, rest@[0]@);
        }
        while scan < n
            invariant
                mi < scan <= n,
                n == rest@.len(),
                forall|j: int| 0 <= j < scan ==> runtime_le(rest@[mi as int]@, (#[trigger] rest@[j])@),
            decreases n - scan,
        {
            if runtime_le_str(rest[scan].as_str(), rest[mi].as_str()) {
                proof {
                    assert forall|j: int|
                        0 <= j < scan as int + 1 implies runtime_le(
                        rest@[scan as int]@,
                        (#[trigger] rest@[j])@,
                    ) by {
                        if j < scan as int {
                            lemma_runtime_le_trans(rest@[scan as int]@, rest@[mi as int]@, rest@[j]@);
                        } else {
                            lemma_runtime_le_total(rest@[scan as int]@, rest@[scan as int]@);
                        }
                    }
                }
                mi = scan;
            } else {
                proof {
                    lemma_runtime_le_total(rest@[mi as int]@, rest@[scan as int]@);
                }
            }
            scan = scan + 1;
        }
        let ghost pre_rest = rest@;
        let ghost pre_out = out@;
        let m = rest.remove(mi);
        out.push(m);
        proof {
            broadcast use group_to_multiset_ensures;

            assert(rest@ =~= pre_rest.remove(mi as int));
            assert(pre_rest[mi as int] == m);
            assert(pre_rest.contains(m));
            assert(pre_rest.remove(mi as int).to_multiset() =~= pre_rest.to_multiset().remove(
                pre_rest[mi as int],
            ));
            assert(out@ =~= pre_out.push(m));
            assert(pre_out.push(m).to_multiset() =~= pre_out.to_multiset().insert(m));
            assert(rest@.to_multiset() =~= pre_rest.to_multiset().remove(m));
            assert(out@.to_multiset() =~= pre_out.to_multiset().insert(m));
            assert(pre_rest.to_multiset().count(m) > 0);
            assert forall|x: int, y: int|
                0 <= x < out@.len() && 0 <= y < rest@.len() implies runtime_le(
                (#[trigger] out@[x])@,
                (#[trigger] rest@[y])@,
            ) by {
                let orig_y = if y < mi as int {
                    y
                } else {
                    y + 1
                };
                assert(rest@[y] == pre_rest[orig_y]);
                if x < pre_out.len() {
                    assert(out@[x] == pre_out[x]);
                } else {
                    assert(out@[x] == m);
                    assert(runtime_le(pre_rest[mi as int]@, pre_rest[orig_y]@));
                }
            }
            assert forall|x: int, y: int|
                0 <= x < y < out@.len() implies runtime_le(
                (#[trigger] out@[x])@,
                (#[trigger] out@[y])@,
            ) by {
                if y == out@.len() - 1 {
                    assert(out@[y] == m);
                    assert(out@[x] == pre_out[x]);
                    assert(runtime_le(pre_out[x]@, pre_rest[mi as int]@));
                } else {
                    assert(out@[x] == pre_out[x] && out@[y] == pre_out[y]);
                }
            }
            assert(out@.to_multiset().add(rest@.to_multiset()) =~= all.to_multiset());
        }
    }
    out
}

} // verus!
