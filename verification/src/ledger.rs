//! The installation ledger: the persisted record of artifacts already
//! installed, keyed by source identity. Records are replaced in place on
//! drift, never duplicated; the file's version marker only moves forward.

use vstd::prelude::*;
use vstd::string::StringExecFns;

use crate::config::{
    lemma_source_eq_sym, lemma_source_eq_trans, source_eq, source_matches, ModEntry, ModLoader,
    ResourceEntry, SourceType,
};
use crate::text::{dec_rep, lemma_dec_rep_digits, lemma_dec_rep_injective, u64_to_dec};
use crate::version::{version_lt, Version};

verus! {

/// The recorded loader artifact.
#[derive(Clone, Debug)]
pub struct ModLoaderState {
    pub file_name: String,
    pub url: String,
    pub hash: String,
}

/// One recorded mod.
#[derive(Clone, Debug)]
pub struct ModState {
    pub file_name: String,
    pub source: SourceType,
    pub hash: String,
}

/// One recorded resource.
#[derive(Clone, Debug)]
pub struct ResourceState {
    pub file_name: String,
    pub source: SourceType,
    pub hash: String,
    pub target_dir: String,
    pub decompress: bool,
}

/// The whole persisted ledger. The derived source-key indexes of the original
/// storage format are never persisted; here lookups go directly by source
/// identity, which the well-formedness invariant keeps unique per record.
#[derive(Clone, Debug)]
pub struct InstallerState {
    pub installer_version: Version,
    pub mod_loader: Option<ModLoaderState>,
    pub mods: Vec<ModState>,
    pub resources: Vec<ResourceState>,
}

/// Resource records are keyed by source identity and target directory
/// together: the same artifact may legitimately live in two places.
pub open spec fn resource_key_eq(
    a: SourceType,
    a_dir: Seq<char>,
    b: SourceType,
    b_dir: Seq<char>,
) -> bool {
    source_eq(a, b) && a_dir == b_dir
}

impl ModLoaderState {
    /// A record satisfies the loader descriptor when URL and hash both match.
    pub fn equals(&self, config: &ModLoader) -> (r: bool)
        ensures
            r == (self.url@ == config.url@ && self.hash@ == config.hash@),
    {
        self.url == config.url && self.hash == config.hash
    }
}

impl ModState {
    /// A record satisfies a mod entry when source identity and hash both
    /// match.
    pub fn equals(&self, config: &ModEntry) -> (r: bool)
        ensures
            r == (source_eq(self.source, config.source) && self.hash@ == config.hash@),
    {
        source_matches(&self.source, &config.source) && self.hash == config.hash
    }
}

impl ResourceState {
    /// A record satisfies a resource entry when source identity and hash both
    /// match.
    pub fn equals(&self, config: &ResourceEntry) -> (r: bool)
        ensures
            r == (source_eq(self.source, config.source) && self.hash@ == config.hash@),
    {
        source_matches(&self.source, &config.source) && self.hash == config.hash
    }
}

impl InstallerState {
    /// Well-formedness: no two mod records share a source, and no two
    /// resource records share a (source, target directory) pair.
    pub open spec fn wf(self) -> bool {
        &&& forall|i: int, j: int|
            0 <= i < j < self.mods@.len() ==> !source_eq(
                self.mods@[i].source,
                self.mods@[j].source,
            )
    &&& forall|i: int, j: int|
            0 <= i < j < self.resources@.len() ==> !resource_key_eq(
                self.resources@[i].source,
                self.resources@[i].target_dir@,
                self.resources@[j].source,
                self.resources@[j].target_dir@,
            )
    }

    /// Some mod record has this source.
    pub open spec fn has_mod(self, s: SourceType) -> bool {
        exists|i: int| 0 <= i < self.mods@.len() && source_eq(self.mods@[i].source, s)
    }

    /// The position of the mod record with this source.
    pub open spec fn mod_index_of(self, s: SourceType) -> int {
        choose|i: int| 0 <= i < self.mods@.len() && source_eq(self.mods@[i].source, s)
    }

    /// Some resource record has this source and target directory.
    pub open spec fn has_resource(self, s: SourceType, dir: Seq<char>) -> bool {
        exists|i: int|
            0 <= i < self.resources@.len() && resource_key_eq(
                self.resources@[i].source,
                self.resources@[i].target_dir@,
                s,
                dir,
            )
    }

    /// The position of the resource record with this source and target
    /// directory.
    pub open spec fn resource_index_of(self, s: SourceType, dir: Seq<char>) -> int {
        choose|i: int|
            0 <= i < self.resources@.len() && resource_key_eq(
                self.resources@[i].source,
                self.resources@[i].target_dir@,
                s,
                dir,
            )
    }

    /// An empty ledger tagged with the running installer's version.
    pub fn new(version: &Version) -> (r: InstallerState)
        ensures
            r.installer_version == *version,
            r.mod_loader is None,
            r.mods@.len() == 0,
            r.resources@.len() == 0,
            r.wf(),
    {
        InstallerState {
            installer_version: *version,
            mod_loader: None,
            mods: Vec::new(),
            resources: Vec::new(),
        }
    }

    /// Forward-only version marker: on load, an older stored version is
    /// advanced to the running installer's; a newer one is left alone. The
    /// marker never moves backwards.
    pub fn migrate_version(&mut self, current: &Version)
        ensures
            final(self).installer_version == if version_lt(
                old(self).installer_version,
                *current,
            ) {
                *current
            } else {
                old(self).installer_version
            },
            !version_lt(final(self).installer_version, old(self).installer_version),
            final(self).mod_loader == old(self).mod_loader,
            final(self).mods == old(self).mods,
            final(self).resources == old(self).resources,
    {
        if self.installer_version.is_older_than(current) {
            self.installer_version = *current;
        }
    }

    /// The recorded loader artifact, if any.
    pub fn get_mod_loader(&self) -> (r: Option<&ModLoaderState>)
        ensures
            match r {
                Some(l) => self.mod_loader matches Some(x) && *l == x,
                None => self.mod_loader is None,
            },
    {
        self.mod_loader.as_ref()
    }

    /// Records the loader artifact, replacing any previous record.
    pub fn set_mod_loader(&mut self, loader: ModLoaderState)
        ensures
            final(self).mod_loader == Some(loader),
            final(self).installer_version == old(self).installer_version,
            final(self).mods == old(self).mods,
            final(self).resources == old(self).resources,
    {
        self.mod_loader = Some(loader);
    }

    /// Looks up the mod record with this entry's source identity.
    pub fn get_mod(&self, mod_entry: &ModEntry) -> (r: Option<&ModState>)
        ensures
            r is Some <==> self.has_mod(mod_entry.source),
            r matches Some(m) ==> exists|i: int|
                0 <= i < self.mods@.len() && source_eq(self.mods@[i].source, mod_entry.source)
                    && *m == self.mods@[i],
    {
        let n = self.mods.len();
        for i in 0..n
            invariant
                n == self.mods@.len(),
                forall|j: int| 0 <= j < i ==> !source_eq(self.mods@[j].source, mod_entry.source),
        {
            if source_matches(&self.mods[i].source, &mod_entry.source) {
                return Some(&self.mods[i]);
            }
        }
        None
    }

    /// Records a mod: replaces the record with the same source identity in
    /// place, or appends a new one. Never duplicates a key, and never touches
    /// any other record.
    pub fn add_mod(&mut self, mod_state: ModState)
        requires
            old(self).wf(),
        ensures
            final(self).wf(),
            final(self).installer_version == old(self).installer_version,
            final(self).mod_loader == old(self).mod_loader,
            final(self).resources == old(self).resources,
            old(self).has_mod(mod_state.source) ==> final(self).mods@ == old(self).mods@.update(
                old(self).mod_index_of(mod_state.source),
                mod_state,
            ),
            !old(self).has_mod(mod_state.source) ==> final(self).mods@ == old(self).mods@.push(
                mod_state,
            ),
            final(self).has_mod(mod_state.source),
    {
        let n = self.mods.len();
        for i in 0..n
            invariant
                n == self.mods@.len(),
                forall|j: int| 0 <= j < i ==> !source_eq(self.mods@[j].source, mod_state.source),
                self == old(self),
                old(self).wf(),
        {
            if source_matches(&self.mods[i].source, &mod_state.source) {
                proof {
                    assert(old(self).has_mod(mod_state.source));
                    let k = old(self).mod_index_of(mod_state.source);
                    assert(0 <= k < self.mods@.len() && source_eq(
                        self.mods@[k].source,
                        mod_state.source,
                    ));
                    if k != i as int {
                        lemma_source_eq_trans(
                            self.mods@[k].source,
                            self.mods@[i as int].source,
                            mod_state.source,
                        );
                        lemma_source_eq_sym(self.mods@[k].source, self.mods@[i as int].source);
                        assert(false);
                    }
                }
                let ghost pre = self.mods@;
                let ghost idx = i as int;
                self.mods.set(i, mod_state);
                proof {
                    assert(self.mods@ == pre.update(idx, mod_state));
                    assert forall|p: int, q: int|
                        0 <= p < q < self.mods@.len() implies !source_eq(
                        self.mods@[p].source,
                        self.mods@[q].source,
                    ) by {
                        if p == idx {
                            if source_eq(self.mods@[p].source, self.mods@[q].source) {
                                lemma_source_eq_sym(mod_state.source, pre[q].source);
                                lemma_source_eq_trans(
                                    pre[q].source,
                                    pre[idx].source,
                                    mod_state.source,
                                );
                                lemma_source_eq_sym(pre[idx].source, pre[q].source);
                                assert(false);
                            }
                        } else if q == idx {
                            if source_eq(self.mods@[p].source, self.mods@[q].source) {
                                lemma_source_eq_trans(
                                    pre[p].source,
                                    pre[idx].source,
                                    mod_state.source,
                                );
                                assert(false);
                            }
                        }
                    }
                    assert(source_eq(self.mods@[idx].source, mod_state.source));
                }
                return ;
            }
        }
        proof {
            assert(!old(self).has_mod(mod_state.source));
        }
        self.mods.push(mod_state);
        proof {
            let ghost n_new = self.mods@.len() - 1;
            assert(source_eq(self.mods@[n_new].source, mod_state.source));
        }
    }

    /// Looks up the resource record with this entry's source identity and
    /// target directory.
    pub fn get_resource(&self, resource_entry: &ResourceEntry) -> (r: Option<&ResourceState>)
        ensures
            r is Some <==> self.has_resource(resource_entry.source, resource_entry.target_dir@),
            r matches Some(m) ==> exists|i: int|
                0 <= i < self.resources@.len() && resource_key_eq(
                    self.resources@[i].source,
                    self.resources@[i].target_dir@,
                    resource_entry.source,
                    resource_entry.target_dir@,
                ) && *m == self.resources@[i],
    {
        let n = self.resources.len();
        for i in 0..n
            invariant
                n == self.resources@.len(),
                forall|j: int|
                    0 <= j < i ==> !resource_key_eq(
                        self.resources@[j].source,
                        self.resources@[j].target_dir@,
                        resource_entry.source,
                        resource_entry.target_dir@,
                    ),
        {
            if source_matches(&self.resources[i].source, &resource_entry.source)
                && self.resources[i].target_dir == resource_entry.target_dir {
                return Some(&self.resources[i]);
            }
        }
        None
    }

    /// Records a resource: replaces the record with the same (source, target
    /// directory) key in place, or appends a new one.
    pub fn add_resource(&mut self, resource_state: ResourceState)
        requires
            old(self).wf(),
        ensures
            final(self).wf(),
            final(self).installer_version == old(self).installer_version,
            final(self).mod_loader == old(self).mod_loader,
            final(self).mods == old(self).mods,
            old(self).has_resource(resource_state.source, resource_state.target_dir@) ==> final(self).resources@ == old(self).resources@.update(
                old(self).resource_index_of(resource_state.source, resource_state.target_dir@),
                resource_state,
            ),
            !old(self).has_resource(resource_state.source, resource_state.target_dir@) ==> final(self).resources@ == old(self).resources@.push(resource_state),
            final(self).has_resource(resource_state.source, resource_state.target_dir@),
    {
        let n = self.resources.len();
        for i in 0..n
            invariant
                n == self.resources@.len(),
                forall|j: int|
                    0 <= j < i ==> !resource_key_eq(
                        self.resources@[j].source,
                        self.resources@[j].target_dir@,
                        resource_state.source,
                        resource_state.target_dir@,
                    ),
                self == old(self),
                old(self).wf(),
        {
            if source_matches(&self.resources[i].source, &resource_state.source)
                && self.resources[i].target_dir == resource_state.target_dir {
                proof {
                    assert(old(self).has_resource(
                        resource_state.source,
                        resource_state.target_dir@,
                    ));
                    let k = old(self).resource_index_of(
                        resource_state.source,
                        resource_state.target_dir@,
                    );
                    assert(0 <= k < self.resources@.len() && resource_key_eq(
                        self.resources@[k].source,
                        self.resources@[k].target_dir@,
                        resource_state.source,
                        resource_state.target_dir@,
                    ));
                    if k != i as int {
                        lemma_source_eq_trans(
                            self.resources@[k].source,
                            self.resources@[i as int].source,
                            resource_state.source,
                        );
                        lemma_source_eq_sym(
                            self.resources@[k].source,
                            self.resources@[i as int].source,
                        );
                        if k < i as int {
                            assert(resource_key_eq(
                                self.resources@[k].source,
                                self.resources@[k].target_dir@,
                                self.resources@[i as int].source,
                                self.resources@[i as int].target_dir@,
                            ));
                        } else {
                            assert(resource_key_eq(
                                self.resources@[i as int].source,
                                self.resources@[i as int].target_dir@,
                                self.resources@[k].source,
                                self.resources@[k].target_dir@,
                            ));
                        }
                        assert(false);
                    }
                }
                let ghost pre = self.resources@;
                let ghost idx = i as int;
                self.resources.set(i, resource_state);
                proof {
                    assert(self.resources@ == pre.update(idx, resource_state));
                    assert forall|p: int, q: int|
                        0 <= p < q < self.resources@.len() implies !resource_key_eq(
                        self.resources@[p].source,
                        self.resources@[p].target_dir@,
                        self.resources@[q].source,
                        self.resources@[q].target_dir@,
                    ) by {
                        if p == idx {
                            if resource_key_eq(
                                self.resources@[p].source,
                                self.resources@[p].target_dir@,
                                self.resources@[q].source,
                                self.resources@[q].target_dir@,
                            ) {
                                lemma_source_eq_sym(resource_state.source, pre[q].source);
                                lemma_source_eq_trans(
                                    pre[idx].source,
                                    pre[q].source,
                                    resource_state.source,
                                );
                                assert(resource_key_eq(
                                    pre[idx].source,
                                    pre[idx].target_dir@,
                                    pre[q].source,
                                    pre[q].target_dir@,
                                ));
                                assert(false);
                            }
                        } else if q == idx {
                            if resource_key_eq(
                                self.resources@[p].source,
                                self.resources@[p].target_dir@,
                                self.resources@[q].source,
                                self.resources@[q].target_dir@,
                            ) {
                                lemma_source_eq_trans(
                                    pre[p].source,
                                    pre[idx].source,
                                    resource_state.source,
                                );
                                assert(resource_key_eq(
                                    pre[p].source,
                                    pre[p].target_dir@,
                                    pre[idx].source,
                                    pre[idx].target_dir@,
                                ));
                                assert(false);
                            }
                        }
                    }
                    assert(resource_key_eq(
                        self.resources@[idx].source,
                        self.resources@[idx].target_dir@,
                        resource_state.source,
                        resource_state.target_dir@,
                    ));
                }
                return ;
            }
        }
        proof {
            assert(!old(self).has_resource(resource_state.source, resource_state.target_dir@));
        }
        self.resources.push(resource_state);
        proof {
            let ghost n_new = self.resources@.len() - 1;
            assert(resource_key_eq(
                self.resources@[n_new].source,
                self.resources@[n_new].target_dir@,
                resource_state.source,
                resource_state.target_dir@,
            ));
        }
    }
}

/// A loader record satisfies the loader descriptor when URL and hash match.
pub open spec fn loader_satisfies(rec: Option<ModLoaderState>, c: ModLoader) -> bool {
    match rec {
        Some(s) => s.url@ == c.url@ && s.hash@ == c.hash@,
        None => false,
    }
}

/// Some mod record satisfies the entry: same source identity, same hash.
pub open spec fn mods_satisfy(mods: Seq<ModState>, e: ModEntry) -> bool {
    exists|i: int|
        0 <= i < mods.len() && source_eq(#[trigger] mods[i].source, e.source) && mods[i].hash@
            == e.hash@
}

/// Some resource record satisfies the entry: same (source, target directory)
/// key, same hash.
pub open spec fn resources_satisfy(rs: Seq<ResourceState>, e: ResourceEntry) -> bool {
    exists|i: int|
        0 <= i < rs.len() && resource_key_eq(
            #[trigger] rs[i].source,
            rs[i].target_dir@,
            e.source,
            e.target_dir@,
        ) && rs[i].hash@ == e.hash@
}

impl InstallerState {
    /// Decides whether the recorded loader satisfies the descriptor.
    pub fn is_loader_satisfied(&self, c: &ModLoader) -> (r: bool)
        ensures
            r == loader_satisfies(self.mod_loader, *c),
    {
        match self.get_mod_loader() {
            Some(rec) => rec.equals(c),
            None => false,
        }
    }

    /// Decides whether some mod record satisfies the entry.
    pub fn is_mod_satisfied(&self, e: &ModEntry) -> (r: bool)
        requires
            self.wf(),
        ensures
            r == mods_satisfy(self.mods@, *e),
    {
        match self.get_mod(e) {
            Some(m) => {
                let r = m.equals(e);
                proof {
                    let j = choose|j: int|
                        0 <= j < self.mods@.len() && source_eq(self.mods@[j].source, e.source)
                            && *m == self.mods@[j];
                    if !r && mods_satisfy(self.mods@, *e) {
                        let k = choose|k: int|
                            0 <= k < self.mods@.len() && source_eq(
                                #[trigger] self.mods@[k].source,
                                e.source,
                            ) && self.mods@[k].hash@ == e.hash@;
                        if k != j {
                            lemma_source_eq_trans(
                                self.mods@[k].source,
                                self.mods@[j].source,
                                e.source,
                            );
                            lemma_source_eq_sym(self.mods@[k].source, self.mods@[j].source);
                            assert(false);
                        }
                        assert(false);
                    }
                }
                r
            },
            None => {
                proof {
                    if mods_satisfy(self.mods@, *e) {
                        assert(self.has_mod(e.source));
                        assert(false);
                    }
                }
                false
            },
        }
    }

    /// Decides whether some resource record satisfies the entry.
    pub fn is_resource_satisfied(&self, e: &ResourceEntry) -> (r: bool)
        requires
            self.wf(),
        ensures
            r == resources_satisfy(self.resources@, *e),
    {
        match self.get_resource(e) {
            Some(m) => {
                let r = m.equals(e);
                proof {
                    let j = choose|j: int|
                        0 <= j < self.resources@.len() && resource_key_eq(
                            self.resources@[j].source,
                            self.resources@[j].target_dir@,
                            e.source,
                            e.target_dir@,
                        ) && *m == self.resources@[j];
                    if !r && resources_satisfy(self.resources@, *e) {
                        let k = choose|k: int|
                            0 <= k < self.resources@.len() && resource_key_eq(
                                #[trigger] self.resources@[k].source,
                                self.resources@[k].target_dir@,
                                e.source,
                                e.target_dir@,
                            ) && self.resources@[k].hash@ == e.hash@;
                        if k != j {
                            lemma_source_eq_trans(
                                self.resources@[k].source,
                                self.resources@[j].source,
                                e.source,
                            );
                            lemma_source_eq_sym(
                                self.resources@[k].source,
                                self.resources@[j].source,
                            );
                            if k < j {
                                assert(resource_key_eq(
                                    self.resources@[k].source,
                                    self.resources@[k].target_dir@,
                                    self.resources@[j].source,
                                    self.resources@[j].target_dir@,
                                ));
                            } else {
                                assert(resource_key_eq(
                                    self.resources@[j].source,
                                    self.resources@[j].target_dir@,
                                    self.resources@[k].source,
                                    self.resources@[k].target_dir@,
                                ));
                            }
                            assert(false);
                        }
                        assert(false);
                    }
                }
                r
            },
            None => {
                proof {
                    if resources_satisfy(self.resources@, *e) {
                        assert(self.has_resource(e.source, e.target_dir@));
                        assert(false);
                    }
                }
                false
            },
        }
    }
}

/// Replacing or appending a mod record with one key leaves every entry with a
/// different key satisfied.
pub proof fn lemma_mods_change_preserves(
    pre: InstallerState,
    post_mods: Seq<ModState>,
    m: ModState,
    e: ModEntry,
)
    requires
        pre.wf(),
        post_mods == if pre.has_mod(m.source) {
            pre.mods@.update(pre.mod_index_of(m.source), m)
        } else {
            pre.mods@.push(m)
        },
        mods_satisfy(pre.mods@, e),
        !source_eq(e.source, m.source),
    ensures
        mods_satisfy(post_mods, e),
{
    let j = choose|j: int|
        0 <= j < pre.mods@.len() && source_eq(#[trigger] pre.mods@[j].source, e.source)
            && pre.mods@[j].hash@ == e.hash@;
    if pre.has_mod(m.source) {
        let idx = pre.mod_index_of(m.source);
        if j == idx {
            lemma_source_eq_sym(pre.mods@[j].source, e.source);
            lemma_source_eq_trans(e.source, m.source, pre.mods@[j].source);
            lemma_source_eq_sym(pre.mods@[idx].source, m.source);
            assert(false);
        }
        assert(post_mods[j] == pre.mods@[j]);
        assert(source_eq(post_mods[j].source, e.source));
    } else {
        assert(post_mods[j] == pre.mods@[j]);
        assert(source_eq(post_mods[j].source, e.source));
    }
}

/// Replacing or appending a resource record with one key leaves every entry
/// with a different key satisfied.
pub proof fn lemma_resources_change_preserves(
    pre: InstallerState,
    post_rs: Seq<ResourceState>,
    m: ResourceState,
    e: ResourceEntry,
)
    requires
        pre.wf(),
        post_rs == if pre.has_resource(m.source, m.target_dir@) {
            pre.resources@.update(pre.resource_index_of(m.source, m.target_dir@), m)
        } else {
            pre.resources@.push(m)
        },
        resources_satisfy(pre.resources@, e),
        !resource_key_eq(e.source, e.target_dir@, m.source, m.target_dir@),
    ensures
        resources_satisfy(post_rs, e),
{
    let j = choose|j: int|
        0 <= j < pre.resources@.len() && resource_key_eq(
            #[trigger] pre.resources@[j].source,
            pre.resources@[j].target_dir@,
            e.source,
            e.target_dir@,
        ) && pre.resources@[j].hash@ == e.hash@;
    if pre.has_resource(m.source, m.target_dir@) {
        let idx = pre.resource_index_of(m.source, m.target_dir@);
        if j == idx {
            lemma_source_eq_sym(pre.resources@[j].source, e.source);
            lemma_source_eq_trans(e.source, m.source, pre.resources@[j].source);
            lemma_source_eq_sym(pre.resources@[idx].source, m.source);
            assert(false);
        }
        assert(post_rs[j] == pre.resources@[j]);
        assert(resource_key_eq(post_rs[j].source, post_rs[j].target_dir@, e.source, e.target_dir@));
    } else {
        assert(post_rs[j] == pre.resources@[j]);
        assert(resource_key_eq(post_rs[j].source, post_rs[j].target_dir@, e.source, e.target_dir@));
    }
}

/// The canonical source key as a character sequence: `cf:<project>:<file>`
/// for repository references, `direct:<url>` for direct URLs.
pub open spec fn spec_source_key(s: SourceType) -> Seq<char> {
    match s {
        SourceType::Curseforge { project_id, file_id } => {
            "cf:"@ + dec_rep(project_id as nat) + ":"@ + dec_rep(file_id as nat)
        },
        SourceType::Direct { url } => "direct:"@ + url@,
    }
}

/// Builds the canonical source key used to index mod records.
pub fn mod_key(source: &SourceType) -> (r: String)
    ensures
        r@ == spec_source_key(*source),
{
    match source {
        SourceType::Curseforge { project_id, file_id } => {
            let mut s = String::from_str("cf:");
            let p = u64_to_dec(*project_id as u64);
            s.append(p.as_str());
            s.append(":");
            let f = u64_to_dec(*file_id as u64);
            s.append(f.as_str());
            assert(s@ =~= spec_source_key(*source));
            s
        },
        SourceType::Direct { url } => {
            let mut s = String::from_str("direct:");
            s.append(url.as_str());
            assert(s@ =~= spec_source_key(*source));
            s
        },
    }
}

/// Builds the canonical (source key, target directory) pair used to index
/// resource records.
pub fn resource_key(source: &SourceType, target_dir: &str) -> (r: (String, String))
    ensures
        r.0@ == spec_source_key(*source),
        r.1@ == target_dir@,
{
    (mod_key(source), String::from_str(target_dir))
}

/// The canonical key identifies the source: two sources have the same key
/// exactly when they are the same source. This is what lets the ledger index
/// records by key.
pub proof fn lemma_source_key_identifies(a: SourceType, b: SourceType)
    ensures
        source_eq(a, b) <==> spec_source_key(a) == spec_source_key(b),
{
    reveal_strlit("cf:");
    reveal_strlit(":");
    reveal_strlit("direct:");
    if source_eq(a, b) {
        match (a, b) {
            (
                SourceType::Curseforge { project_id: p1, file_id: f1 },
                SourceType::Curseforge { project_id: p2, file_id: f2 },
            ) => {
                assert(spec_source_key(a) =~= spec_source_key(b));
            },
            (SourceType::Direct { url: u1 }, SourceType::Direct { url: u2 }) => {
                assert(spec_source_key(a) =~= spec_source_key(b));
            },
            _ => {},
        }
    }
    if spec_source_key(a) == spec_source_key(b) {
        let ka = spec_source_key(a);
        let kb = spec_source_key(b);
        match (a, b) {
            (
                SourceType::Curseforge { project_id: p1, file_id: f1 },
                SourceType::Curseforge { project_id: p2, file_id: f2 },
            ) => {
                lemma_dec_rep_digits(p1 as nat);
                lemma_dec_rep_digits(p2 as nat);
                lemma_dec_rep_digits(f1 as nat);
                lemma_dec_rep_digits(f2 as nat);
                let l1 = dec_rep(p1 as nat).len() as int;
                let l2 = dec_rep(p2 as nat).len() as int;
                assert(ka[3 + l1] == ':');
                assert(kb[3 + l2] == ':');
                assert forall|j: int| 0 <= j < l1 implies ka[3 + j] == dec_rep(p1 as nat)[j] by {}
                assert forall|j: int| 0 <= j < l2 implies kb[3 + j] == dec_rep(p2 as nat)[j] by {}
                if l1 < l2 {
                    assert(kb[3 + l1] == dec_rep(p2 as nat)[l1]);
                    assert((kb[3 + l1] as u32) >= 48);
                    assert((ka[3 + l1] as u32) == 58);
                    assert(false);
                }
                if l2 < l1 {
                    assert(ka[3 + l2] == dec_rep(p1 as nat)[l2]);
                    assert((ka[3 + l2] as u32) >= 48);
                    assert((kb[3 + l2] as u32) == 58);
                    assert(false);
                }
                assert(dec_rep(p1 as nat) =~= dec_rep(p2 as nat));
                lemma_dec_rep_injective(p1 as nat, p2 as nat);
                assert forall|j: int|
                    0 <= j < dec_rep(f1 as nat).len() implies ka[4 + l1 + j] == dec_rep(
                    f1 as nat,
                )[j] by {}
                assert forall|j: int|
                    0 <= j < dec_rep(f2 as nat).len() implies kb[4 + l2 + j] == dec_rep(
                    f2 as nat,
                )[j] by {}
                assert(ka.len() == 4 + l1 + dec_rep(f1 as nat).len());
                assert(kb.len() == 4 + l2 + dec_rep(f2 as nat).len());
                assert(dec_rep(f1 as nat) =~= dec_rep(f2 as nat));
                lemma_dec_rep_injective(f1 as nat, f2 as nat);
            },
            (SourceType::Direct { url: u1 }, SourceType::Direct { url: u2 }) => {
                assert(ka == "direct:"@ + u1@);
                assert(kb == "direct:"@ + u2@);
                assert(ka.len() == 7 + u1@.len());
                assert(kb.len() == 7 + u2@.len());
                assert forall|j: int| 0 <= j < u1@.len() implies ka[7 + j] == u1@[j] by {}
                assert forall|j: int| 0 <= j < u2@.len() implies kb[7 + j] == u2@[j] by {}
                assert(u1@.len() == u2@.len());
                assert(u1@ =~= u2@);
            },
            (SourceType::Curseforge { .. }, SourceType::Direct { .. }) => {
                assert(ka[0] == 'c');
                assert(kb[0] == 'd');
                assert(false);
            },
            (SourceType::Direct { .. }, SourceType::Curseforge { .. }) => {
                assert(ka[0] == 'd');
                assert(kb[0] == 'c');
                assert(false);
            },
        }
    }
}

} // verus!
