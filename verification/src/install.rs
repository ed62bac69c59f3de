//! The install orchestrator: a deterministic state machine that drives one
//! run forward. Each call to `advance` consumes the outcome of the previous
//! action and returns the next one; the unverified shell performs the
//! filesystem and network work and reports back. Progress events are
//! non-decreasing by construction, a hash mismatch aborts the run before any
//! file is placed, and a completed run leaves every manifest entry satisfied
//! in the ledger.

use vstd::prelude::*;
use vstd::string::StringExecFns;

use crate::config::{
    lemma_source_eq_sym, lemma_source_eq_trans, source_eq, spec_download_url, ModEntry,
    ModPackConfig, ResourceEntry,
};
use crate::download::DownloadProgress;
use crate::error::InstallError;
use crate::hashing::hash_matches;
use crate::ledger::{
    lemma_mods_change_preserves, lemma_resources_change_preserves, loader_satisfies, mods_satisfy,
    resource_key_eq, resources_satisfy, InstallerState, ModLoaderState, ModState, ResourceState,
};
use crate::text::{eq_ignore_case, push_char};

verus! {

/// Progress granularity: one whole step spans this many units.
pub const PROGRESS_SCALE: u64 = 10000;

/// The stage a run reports itself in.
#[derive(Clone, Copy, Debug, PartialEq, Eq, Structural)]
pub enum Phase {
    DownloadModLoader,
    DownloadMods,
    DownloadResources,
    AddProfile,
    LaunchModLoader,
}

/// Severity of a user-visible alert.
#[derive(Clone, Copy, Debug, PartialEq, Eq, Structural)]
pub enum AlertLevel {
    Info,
    Warning,
}

/// A progress fraction as a pair of integers: `units / total_units`.
#[derive(Clone, Copy, Debug, PartialEq, Eq, Structural)]
pub struct Progress {
    pub units: u64,
    pub total_units: u64,
}

/// One event of the one-way notification channel, in emission order.
#[derive(Clone, Debug)]
pub enum InstallerEvent {
    ChangePhase { phase: Phase },
    ChangeDetail { detail: String },
    UpdateProgress { progress: Progress },
    AddAlert { level: AlertLevel, translation_key: String },
}

/// What the shell is asked to do next.
#[derive(Clone, Debug)]
pub enum Action {
    Proceed,
    PrepareTempDir { temp_dir: String },
    FetchArtifact { url: String, temp_dir: String },
    PlaceFile { from: String, to: String },
    PersistLedger,
    AddLauncherProfile,
    LaunchModLoader,
    Finished,
}

/// What the shell reports back about the action it performed.
#[derive(Clone, Debug)]
pub enum Outcome {
    Start,
    Proceed,
    Prepared,
    PrepareFailed { message: String },
    Fetched { file_name: String, hash: String },
    FetchFailed { error: InstallError },
    Placed,
    PlaceFailed { message: String },
    Persisted,
    PersistFailed { message: String },
    ProfileHandled { ok: bool },
    LaunchHandled { ok: bool },
}

/// Where the machine stands. Entry indices run from `0` (the loader) through
/// the mods to the resources.
#[derive(Clone, Copy, Debug, PartialEq, Eq, Structural)]
pub enum StepState {
    Init,
    Preparing,
    Deciding { idx: u64 },
    Fetching { idx: u64 },
    Placing { idx: u64 },
    Recording { idx: u64 },
    AddingProfile,
    Launching,
    Done,
    Failed,
}

/// How many whole steps a run has: the loader, each mod, each resource.
pub open spec fn num_steps(c: ModPackConfig) -> int {
    1 + c.mods@.len() as int + c.resources@.len() as int
}

/// No two mod entries share a source, and no two resource entries share a
/// (source, target directory) key.
pub open spec fn unique_entry_keys(c: ModPackConfig) -> bool {
    &&& forall|i: int, j: int|
        0 <= i < j < c.mods@.len() ==> !source_eq(c.mods@[i].source, c.mods@[j].source)
    &&& forall|i: int, j: int|
        0 <= i < j < c.resources@.len() ==> !resource_key_eq(
            c.resources@[i].source,
            c.resources@[i].target_dir@,
            c.resources@[j].source,
            c.resources@[j].target_dir@,
        )
}

/// Whether the ledger already satisfies entry `k` of the manifest.
pub open spec fn entry_satisfied(c: ModPackConfig, l: InstallerState, k: int) -> bool {
    if k == 0 {
        loader_satisfies(l.mod_loader, c.mod_loader)
    } else if k <= c.mods@.len() {
        mods_satisfy(l.mods@, c.mods@[k - 1])
    } else {
        resources_satisfy(l.resources@, c.resources@[k - 1 - c.mods@.len()])
    }
}

/// The ledger satisfies every entry of the manifest.
pub open spec fn all_satisfied(c: ModPackConfig, l: InstallerState) -> bool {
    forall|k: int| 0 <= k < num_steps(c) ==> entry_satisfied(c, l, k)
}

/// The URL entry `k` downloads from.
pub open spec fn entry_url(c: ModPackConfig, k: int) -> Seq<char> {
    if k == 0 {
        c.mod_loader.url@
    } else if k <= c.mods@.len() {
        spec_download_url(c.mods@[k - 1].source)
    } else {
        spec_download_url(c.resources@[k - 1 - c.mods@.len()].source)
    }
}

/// The expected content hash of entry `k`.
pub open spec fn entry_hash(c: ModPackConfig, k: int) -> Seq<char> {
    if k == 0 {
        c.mod_loader.hash@
    } else if k <= c.mods@.len() {
        c.mods@[k - 1].hash@
    } else {
        c.resources@[k - 1 - c.mods@.len()].hash@
    }
}

/// The display name of entry `k`.
pub open spec fn entry_name(c: ModPackConfig, k: int) -> Seq<char> {
    if k == 0 {
        c.mod_loader.name@
    } else if k <= c.mods@.len() {
        c.mods@[k - 1].name@
    } else {
        c.resources@[k - 1 - c.mods@.len()].name@
    }
}

/// The directory entry `k` is placed in: the install directory for the
/// loader, its `mods` subdirectory for mods, the entry's target directory
/// for resources.
pub open spec fn entry_dest_dir(c: ModPackConfig, install_dir: Seq<char>, k: int) -> Seq<char> {
    if k == 0 {
        install_dir
    } else if k <= c.mods@.len() {
        install_dir + seq!['/'] + "mods"@
    } else {
        install_dir + seq!['/'] + c.resources@[k - 1 - c.mods@.len()].target_dir@
    }
}

/// Which outcomes answer which state.
pub open spec fn outcome_matches(s: StepState, o: Outcome) -> bool {
    match s {
        StepState::Init => o is Start,
        StepState::Preparing => o is Prepared || o is PrepareFailed,
        StepState::Deciding { .. } => o is Proceed,
        StepState::Fetching { .. } => o is Fetched || o is FetchFailed,
        StepState::Placing { .. } => o is Placed || o is PlaceFailed,
        StepState::Recording { .. } => o is Persisted || o is PersistFailed,
        StepState::AddingProfile => o is ProfileHandled,
        StepState::Launching => o is LaunchHandled,
        StepState::Done => false,
        StepState::Failed => false,
    }
}

/// How many entries the machine has fully dealt with in this state.
pub open spec fn step_index(c: ModPackConfig, s: StepState) -> int {
    match s {
        StepState::Init => 0,
        StepState::Preparing => 0,
        StepState::Deciding { idx } => idx as int,
        StepState::Fetching { idx } => idx as int,
        StepState::Placing { idx, .. } => idx as int,
        StepState::Recording { idx } => idx as int + 1,
        StepState::AddingProfile => num_steps(c),
        StepState::Launching => num_steps(c),
        StepState::Done => num_steps(c),
        StepState::Failed => 0,
    }
}

/// The progress units carried by event `i`, if it is a progress event.
pub open spec fn progress_units_at(events: Seq<InstallerEvent>, i: int) -> Option<u64> {
    match events[i] {
        InstallerEvent::UpdateProgress { progress } => Some(progress.units),
        _ => None,
    }
}

/// Progress events never decrease along the event sequence.
pub open spec fn progress_monotone(events: Seq<InstallerEvent>) -> bool {
    forall|i: int, j: int|
        0 <= i < j < events.len() && #[trigger] progress_units_at(events, i) is Some
            && #[trigger] progress_units_at(events, j) is Some ==> progress_units_at(
            events,
            i,
        )->Some_0 <= progress_units_at(events, j)->Some_0
}

/// Every emitted progress value is at most `last`, and every progress event
/// carries `scaled_total` as its denominator.
pub open spec fn progress_bounded(events: Seq<InstallerEvent>, last: u64, scaled_total: u64) -> bool {
    forall|i: int|
        0 <= i < events.len() ==> match #[trigger] events[i] {
            InstallerEvent::UpdateProgress { progress } => progress.units <= last
                && progress.total_units == scaled_total,
            _ => true,
        }
}

/// A phase-change event.
pub open spec fn phase_event(p: Phase) -> InstallerEvent {
    InstallerEvent::ChangePhase { phase: p }
}

/// A progress event.
pub open spec fn progress_event(units: u64, total_units: u64) -> InstallerEvent {
    InstallerEvent::UpdateProgress { progress: Progress { units, total_units } }
}

/// The event is a detail line with this text.
pub open spec fn is_detail_event(e: InstallerEvent, text: Seq<char>) -> bool {
    match e {
        InstallerEvent::ChangeDetail { detail } => detail@ == text,
        _ => false,
    }
}

/// The event is an alert of this level with this translation key.
pub open spec fn is_alert_event(e: InstallerEvent, level: AlertLevel, key: Seq<char>) -> bool {
    match e {
        InstallerEvent::AddAlert { level: l, translation_key } => l == level && translation_key@
            == key,
        _ => false,
    }
}

/// The phase-change events emitted on entering entry `idx`: the mods phase
/// at the first mod slot, the resources phase at the first resource slot
/// (both, in that order, when the mod list is empty).
pub open spec fn boundary_events(c: ModPackConfig, idx: u64) -> Seq<InstallerEvent> {
    (if idx == 1 {
        seq![phase_event(Phase::DownloadMods)]
    } else {
        Seq::<InstallerEvent>::empty()
    }) + (if idx as int == 1 + c.mods@.len() {
        seq![phase_event(Phase::DownloadResources)]
    } else {
        Seq::<InstallerEvent>::empty()
    })
}

/// The clamped byte-ratio of one transfer, in progress units.
pub open spec fn byte_ratio_units(received: u64, total: u64) -> int {
    if total == 0 {
        0
    } else {
        let w = received as int * PROGRESS_SCALE as int / total as int;
        if w >= PROGRESS_SCALE as int {
            PROGRESS_SCALE as int
        } else {
            w
        }
    }
}

/// The progress value a chunk report emits: completed whole steps plus the
/// clamped byte ratio, never below what was already emitted.
pub open spec fn chunk_units(idx: int, last: int, received: u64, total: u64) -> int {
    let candidate = idx * PROGRESS_SCALE as int + byte_ratio_units(received, total);
    if candidate > last {
        candidate
    } else {
        last
    }
}

/// The orchestrator of one run.
pub struct Installer {
    pub config: ModPackConfig,
    pub ledger: InstallerState,
    pub install_dir: String,
    pub temp_dir: String,
    pub state: StepState,
    pub pending_name: Option<String>,
    pub events: Vec<InstallerEvent>,
    pub total: u64,
    pub scaled_total: u64,
    pub last_units: u64,
}

impl Installer {
    /// The progress ceiling the current state allows.
    pub open spec fn units_cap(self) -> int {
        match self.state {
            StepState::Init => 0,
            StepState::Preparing => 0,
            StepState::Deciding { idx } => idx as int * PROGRESS_SCALE as int,
            StepState::Fetching { idx } => (idx as int + 1) * PROGRESS_SCALE as int,
            StepState::Placing { idx, .. } => (idx as int + 1) * PROGRESS_SCALE as int,
            StepState::Recording { idx } => (idx as int + 1) * PROGRESS_SCALE as int,
            _ => self.scaled_total as int,
        }
    }

    /// Well-formedness of the machine.
    pub open spec fn wf(self) -> bool {
        &&& self.total as int == num_steps(self.config)
    &&& self.total <= 1000000000
    &&& self.scaled_total as int == self.total as int * PROGRESS_SCALE as int
    &&& self.ledger.wf()
    &&& 0 <= step_index(self.config, self.state) <= num_steps(self.config)
    &&& (match self.state {
        StepState::Deciding { idx } => idx <= self.total,
        StepState::Fetching { idx } => idx < self.total,
        StepState::Placing { idx, .. } => idx < self.total,
        StepState::Recording { idx } => idx < self.total,
        _ => true,
    })
    &&& self.last_units as int <= self.units_cap()
    &&& progress_monotone(self.events@)
    &&& progress_bounded(self.events@, self.last_units, self.scaled_total)
    &&& (self.state is Done ==> self.last_units == self.scaled_total)
    &&& (self.state is AddingProfile || self.state is Launching ==> self.last_units
        == self.scaled_total)
    &&& (match self.state {
        StepState::Deciding { idx } => self.last_units as int == idx as int
            * PROGRESS_SCALE as int,
        StepState::Fetching { idx } => self.last_units as int >= idx as int
            * PROGRESS_SCALE as int,
        StepState::Placing { idx } => self.last_units as int >= idx as int
            * PROGRESS_SCALE as int,
        StepState::Recording { idx } => self.last_units as int >= idx as int
            * PROGRESS_SCALE as int,
        _ => true,
    })
    &&& (self.state is AddingProfile || self.state is Launching || self.state is Done
        ==> exists|i: int|
        0 <= i < self.events@.len() && progress_units_at(self.events@, i) == Some(
            self.scaled_total,
        ))
    &&& (self.state is Placing ==> self.pending_name is Some)
    &&& (unique_entry_keys(self.config) ==> forall|k: int|
        0 <= k < step_index(self.config, self.state) ==> entry_satisfied(
            self.config,
            self.ledger,
            k,
        ))
    }

    /// Whether the run has ended, successfully or not.
    pub open spec fn is_terminal(self) -> bool {
        self.state is Done || self.state is Failed
    }

    /// A machine at the start of a run.
    pub fn new(config: ModPackConfig, ledger: InstallerState, install_dir: String, temp_dir: String) -> (r:
        Installer)
        requires
            ledger.wf(),
            num_steps(config) <= 1000000000,
        ensures
            r.wf(),
            r.config == config,
            r.ledger == ledger,
            r.state is Init,
            r.events@.len() == 0,
            r.install_dir == install_dir,
            r.temp_dir == temp_dir,
    {
        let total: u64 = 1 + config.mods.len() as u64 + config.resources.len() as u64;
        Installer {
            config,
            ledger,
            install_dir,
            temp_dir,
            state: StepState::Init,
            pending_name: None,
            events: Vec::new(),
            total,
            scaled_total: total * PROGRESS_SCALE,
            last_units: 0,
        }
    }

    /// The number of whole steps of this run.
    pub fn total_download_steps(&self) -> (r: u64)
        requires
            self.wf(),
        ensures
            r as int == num_steps(self.config),
    {
        self.total
    }

    /// Whether `advance` accepts this outcome in the current state.
    pub fn expects(&self, outcome: &Outcome) -> (r: bool)
        ensures
            r == outcome_matches(self.state, *outcome),
    {
        match (&self.state, outcome) {
            (StepState::Init, Outcome::Start) => true,
            (StepState::Preparing, Outcome::Prepared) => true,
            (StepState::Preparing, Outcome::PrepareFailed { .. }) => true,
            (StepState::Deciding { .. }, Outcome::Proceed) => true,
            (StepState::Fetching { .. }, Outcome::Fetched { .. }) => true,
            (StepState::Fetching { .. }, Outcome::FetchFailed { .. }) => true,
            (StepState::Placing { .. }, Outcome::Placed) => true,
            (StepState::Placing { .. }, Outcome::PlaceFailed { .. }) => true,
            (StepState::Recording { .. }, Outcome::Persisted) => true,
            (StepState::Recording { .. }, Outcome::PersistFailed { .. }) => true,
            (StepState::AddingProfile, Outcome::ProfileHandled { .. }) => true,
            (StepState::Launching, Outcome::LaunchHandled { .. }) => true,
            _ => false,
        }
    }

    /// Appends a progress event; progress never goes backwards.
    fn push_progress(&mut self, units: u64)
        requires
            old(self).last_units <= units,
            units as int <= old(self).units_cap(),
            progress_monotone(old(self).events@),
            progress_bounded(old(self).events@, old(self).last_units, old(self).scaled_total),
        ensures
            final(self).events@ == old(self).events@.push(
                InstallerEvent::UpdateProgress {
                    progress: Progress {
                        units,
                        total_units: old(self).scaled_total,
                    },
                },
            ),
            final(self).last_units == units,
            progress_monotone(final(self).events@),
            progress_bounded(final(self).events@, final(self).last_units, final(self).scaled_total),
            final(self).config == old(self).config,
            final(self).ledger == old(self).ledger,
            final(self).state == old(self).state,
            final(self).install_dir == old(self).install_dir,
            final(self).temp_dir == old(self).temp_dir,
            final(self).total == old(self).total,
            final(self).scaled_total == old(self).scaled_total,
            final(self).pending_name == old(self).pending_name,
    {
        let ev = InstallerEvent::UpdateProgress {
            progress: Progress { units, total_units: self.scaled_total },
        };
        let ghost pre = self.events@;
        self.events.push(ev);
        self.last_units = units;
        proof {
            let post = self.events@;
            assert forall|i: int, j: int|
                0 <= i < j < post.len() && #[trigger] progress_units_at(post, i) is Some
                    && #[trigger] progress_units_at(post, j) is Some implies progress_units_at(
                post,
                i,
            )->Some_0 <= progress_units_at(post, j)->Some_0 by {
                if j < pre.len() {
                    assert(progress_units_at(pre, i) == progress_units_at(post, i));
                    assert(progress_units_at(pre, j) == progress_units_at(post, j));
                } else {
                    assert(progress_units_at(post, j) == Some(units));
                    assert(progress_units_at(pre, i) == progress_units_at(post, i));
                }
            }
        }
    }

    /// Appends a non-progress event.
    fn push_event(&mut self, ev: InstallerEvent)
        requires
            !(ev is UpdateProgress),
            progress_monotone(old(self).events@),
            progress_bounded(old(self).events@, old(self).last_units, old(self).scaled_total),
        ensures
            final(self).events@ == old(self).events@.push(ev),
            progress_monotone(final(self).events@),
            progress_bounded(final(self).events@, final(self).last_units, final(self).scaled_total),
            final(self).config == old(self).config,
            final(self).ledger == old(self).ledger,
            final(self).state == old(self).state,
            final(self).install_dir == old(self).install_dir,
            final(self).temp_dir == old(self).temp_dir,
            final(self).total == old(self).total,
            final(self).scaled_total == old(self).scaled_total,
            final(self).last_units == old(self).last_units,
            final(self).pending_name == old(self).pending_name,
    {
        let ghost pre = self.events@;
        self.events.push(ev);
        proof {
            let post = self.events@;
            assert forall|i: int, j: int|
                0 <= i < j < post.len() && #[trigger] progress_units_at(post, i) is Some
                    && #[trigger] progress_units_at(post, j) is Some implies progress_units_at(
                post,
                i,
            )->Some_0 <= progress_units_at(post, j)->Some_0 by {
                if j < pre.len() {
                    assert(progress_units_at(pre, i) == progress_units_at(post, i));
                    assert(progress_units_at(pre, j) == progress_units_at(post, j));
                } else {
                    assert(progress_units_at(post, j) is None);
                }
            }
        }
    }

    /// Decides entry `i`: whether the ledger satisfies it, its display name,
    /// and its download URL.
    fn decide_entry(&self, i: u64) -> (r: (bool, String, String))
        requires
            self.wf(),
            i < self.total,
        ensures
            r.0 == entry_satisfied(self.config, self.ledger, i as int),
            r.1@ == entry_name(self.config, i as int),
            r.2@ == entry_url(self.config, i as int),
    {
        let iu = i as usize;
        if iu == 0 {
            (
                self.ledger.is_loader_satisfied(&self.config.mod_loader),
                self.config.mod_loader.name.clone(),
                self.config.mod_loader.url.clone(),
            )
        } else if iu <= self.config.mods.len() {
            let e = &self.config.mods[iu - 1];
            (self.ledger.is_mod_satisfied(e), e.name.clone(), e.source.get_download_url())
        } else {
            let e = &self.config.resources[iu - 1 - self.config.mods.len()];
            (self.ledger.is_resource_satisfied(e), e.name.clone(), e.source.get_download_url())
        }
    }

    /// The expected content hash of entry `i`.
    fn entry_expected_hash(&self, i: u64) -> (r: String)
        requires
            self.wf(),
            i < self.total,
        ensures
            r@ == entry_hash(self.config, i as int),
    {
        let iu = i as usize;
        if iu == 0 {
            self.config.mod_loader.hash.clone()
        } else if iu <= self.config.mods.len() {
            self.config.mods[iu - 1].hash.clone()
        } else {
            self.config.resources[iu - 1 - self.config.mods.len()].hash.clone()
        }
    }

    /// The directory entry `i` is placed in.
    fn entry_dest(&self, i: u64) -> (r: String)
        requires
            self.wf(),
            i < self.total,
        ensures
            r@ == entry_dest_dir(self.config, self.install_dir@, i as int),
    {
        let iu = i as usize;
        if iu == 0 {
            self.install_dir.clone()
        } else if iu <= self.config.mods.len() {
            join_path(self.install_dir.as_str(), "mods")
        } else {
            let e = &self.config.resources[iu - 1 - self.config.mods.len()];
            join_path(self.install_dir.as_str(), e.target_dir.as_str())
        }
    }

    /// Records the just-placed artifact of entry `i` in the ledger.
    fn record_entry(&mut self, i: u64, file_name: String)
        requires
            old(self).ledger.wf(),
            old(self).total as int == num_steps(old(self).config),
            old(self).total <= 1000000000,
            i < old(self).total,
        ensures
            final(self).ledger.wf(),
            entry_satisfied(final(self).config, final(self).ledger, i as int),
            final(self).config == old(self).config,
            final(self).state == old(self).state,
            final(self).events == old(self).events,
            final(self).install_dir == old(self).install_dir,
            final(self).temp_dir == old(self).temp_dir,
            final(self).total == old(self).total,
            final(self).scaled_total == old(self).scaled_total,
            final(self).last_units == old(self).last_units,
            final(self).pending_name == old(self).pending_name,
            final(self).ledger.installer_version == old(self).ledger.installer_version,
            unique_entry_keys(old(self).config) ==> forall|k: int|
                0 <= k < i as int && entry_satisfied(old(self).config, old(self).ledger, k)
                    ==> entry_satisfied(final(self).config, final(self).ledger, k),
    {
        let iu = i as usize;
        let ghost pre = self.ledger;
        let ghost c = self.config;
        if iu == 0 {
            let rec = ModLoaderState {
                file_name,
                url: self.config.mod_loader.url.clone(),
                hash: self.config.mod_loader.hash.clone(),
            };
            self.ledger.set_mod_loader(rec);
            proof {
                assert(loader_satisfies(self.ledger.mod_loader, self.config.mod_loader));
            }
        } else if iu <= self.config.mods.len() {
            let rec = ModState {
                file_name,
                source: self.config.mods[iu - 1].source.duplicate(),
                hash: self.config.mods[iu - 1].hash.clone(),
            };
            let ghost m = rec;
            self.ledger.add_mod(rec);
            proof {
                let e = c.mods@[i as int - 1];
                if pre.has_mod(m.source) {
                    let idx = pre.mod_index_of(m.source);
                    assert(self.ledger.mods@[idx] == m);
                    assert(source_eq(m.source, e.source));
                    assert(mods_satisfy(self.ledger.mods@, e));
                } else {
                    let last = self.ledger.mods@.len() - 1;
                    assert(self.ledger.mods@[last] == m);
                    assert(mods_satisfy(self.ledger.mods@, e));
                }
                if unique_entry_keys(c) {
                    assert forall|k: int|
                        0 <= k < i as int && entry_satisfied(c, pre, k) implies entry_satisfied(
                        c,
                        self.ledger,
                        k,
                    ) by {
                        if k == 0 {
                        } else if k <= c.mods@.len() {
                            let ek = c.mods@[k - 1];
                            if source_eq(ek.source, m.source) {
                                lemma_source_eq_sym(m.source, e.source);
                                lemma_source_eq_trans(ek.source, e.source, m.source);
                                assert(source_eq(ek.source, e.source));
                                assert(false);
                            }
                            lemma_mods_change_preserves(pre, self.ledger.mods@, m, ek);
                        } else {
                        }
                    }
                }
            }
        } else {
            let midx = iu - 1 - self.config.mods.len();
            let rec = ResourceState {
                file_name,
                source: self.config.resources[midx].source.duplicate(),
                hash: self.config.resources[midx].hash.clone(),
                target_dir: self.config.resources[midx].target_dir.clone(),
                decompress: self.config.resources[midx].decompress,
            };
            let ghost m = rec;
            self.ledger.add_resource(rec);
            proof {
                let ghost ridx = i as int - 1 - c.mods@.len();
                let e = c.resources@[ridx];
                if pre.has_resource(m.source, m.target_dir@) {
                    let idx = pre.resource_index_of(m.source, m.target_dir@);
                    assert(self.ledger.resources@[idx] == m);
                    assert(resource_key_eq(m.source, m.target_dir@, e.source, e.target_dir@));
                    assert(resources_satisfy(self.ledger.resources@, e));
                } else {
                    let last = self.ledger.resources@.len() - 1;
                    assert(self.ledger.resources@[last] == m);
                    assert(resources_satisfy(self.ledger.resources@, e));
                }
                if unique_entry_keys(c) {
                    assert forall|k: int|
                        0 <= k < i as int && entry_satisfied(c, pre, k) implies entry_satisfied(
                        c,
                        self.ledger,
                        k,
                    ) by {
                        if k == 0 {
                        } else if k <= c.mods@.len() {
                        } else {
                            let ek = c.resources@[k - 1 - c.mods@.len()];
                            if resource_key_eq(ek.source, ek.target_dir@, m.source, m.target_dir@) {
                                lemma_source_eq_sym(m.source, e.source);
                                lemma_source_eq_trans(ek.source, e.source, m.source);
                                assert(resource_key_eq(
                                    ek.source,
                                    ek.target_dir@,
                                    e.source,
                                    e.target_dir@,
                                ));
                                assert(false);
                            }
                            lemma_resources_change_preserves(pre, self.ledger.resources@, m, ek);
                        }
                    }
                }
            }
        }
    }

    /// One step of the run: consumes the outcome of the previous action and
    /// returns the next one. A satisfied entry is skipped without touching
    /// the ledger; an unsatisfied or drifted one is fetched, verified against
    /// the manifest's expected hash, placed, recorded, and persisted. A hash
    /// mismatch fails the run with an integrity error before any placement.
    /// Post-install steps never fail the run. Progress events never decrease,
    /// and completion emits exactly the full fraction.
    #[verifier::rlimit(100)]
    pub fn advance(&mut self, outcome: Outcome) -> (r: Result<Action, InstallError>)
        requires
            old(self).wf(),
            !old(self).is_terminal(),
            outcome_matches(old(self).state, outcome),
        ensures
            final(self).wf(),
            final(self).config == old(self).config,
            final(self).install_dir == old(self).install_dir,
            final(self).temp_dir == old(self).temp_dir,
            final(self).total == old(self).total,
            final(self).scaled_total == old(self).scaled_total,
            old(self).events@.is_prefix_of(final(self).events@),
            old(self).state is Init ==> final(self).events@ == old(self).events@.push(
                progress_event(0, old(self).scaled_total),
            ),
            old(self).state is Preparing && outcome is Prepared ==> final(self).events@ == old(self).events@.push(phase_event(Phase::DownloadModLoader)),
            old(self).state is Preparing && outcome is PrepareFailed ==> final(self).events == old(self).events,
            (match old(self).state {
                StepState::Deciding { idx } => {
                    if idx == old(self).total {
                        final(self).events@ == old(self).events@ + boundary_events(
                            old(self).config,
                            idx,
                        ) + seq![
                            progress_event(old(self).scaled_total, old(self).scaled_total),
                            phase_event(Phase::AddProfile),
                        ]
                    } else if entry_satisfied(old(self).config, old(self).ledger, idx as int) {
                        final(self).events@ == old(self).events@ + boundary_events(
                            old(self).config,
                            idx,
                        ) + seq![
                            progress_event(
                                (((idx as int + 1) * PROGRESS_SCALE as int) as u64),
                                old(self).scaled_total,
                            ),
                        ]
                    } else {
                        final(self).events@.len() == old(self).events@.len() + boundary_events(
                            old(self).config,
                            idx,
                        ).len() + 1 && final(self).events@.drop_last() == old(self).events@
                            + boundary_events(old(self).config, idx) && is_detail_event(
                            final(self).events@.last(),
                            entry_name(old(self).config, idx as int),
                        )
                    }
                },
                _ => true,
            }),
            old(self).state is Fetching || old(self).state is Placing ==> final(self).events
                == old(self).events,
            (match (old(self).state, outcome) {
                (StepState::Recording { idx }, Outcome::Persisted) => final(self).events@ == old(self).events@.push(
                    progress_event(
                        (((idx as int + 1) * PROGRESS_SCALE as int) as u64),
                        old(self).scaled_total,
                    ),
                ),
                (StepState::Recording { .. }, _) => final(self).events == old(self).events,
                _ => true,
            }),
            (match (old(self).state, outcome) {
                (StepState::AddingProfile, Outcome::ProfileHandled { ok }) => {
                    let n0 = old(self).events@.len() as int;
                    let alerts: int = if ok {
                        0int
                    } else {
                        1int
                    };
                    let phases: int = if old(self).config.mod_loader.auto_open {
                        1int
                    } else {
                        0int
                    };
                    final(self).events@.len() == n0 + alerts + phases && final(self).events@.take(n0) == old(self).events@ && (!ok ==> is_alert_event(
                        final(self).events@[n0],
                        AlertLevel::Warning,
                        "alertOnFailedAddProfile"@,
                    )) && (old(self).config.mod_loader.auto_open ==> final(self).events@.last()
                        == phase_event(Phase::LaunchModLoader))
                },
                _ => true,
            }),
            (match (old(self).state, outcome) {
                (StepState::Launching, Outcome::LaunchHandled { ok }) => final(self).events@.drop_last() == old(self).events@ && final(self).events@.len() == old(self).events@.len() + 1 && is_alert_event(
                    final(self).events@.last(),
                    if ok {
                        AlertLevel::Info
                    } else {
                        AlertLevel::Warning
                    },
                    if ok {
                        "alertOnLaunchModLoader"@
                    } else {
                        "alertOnFailedLaunchModLoader"@
                    },
                ),
                _ => true,
            }),
            r is Err <==> final(self).state is Failed,
            r is Err ==> final(self).ledger == old(self).ledger,
            old(self).state is Init ==> final(self).state is Preparing && (match r {
                Ok(Action::PrepareTempDir { temp_dir }) => temp_dir@ == old(self).temp_dir@,
                _ => false,
            }) && final(self).ledger == old(self).ledger,
            old(self).state is Preparing && outcome is Prepared ==> final(self).state == (
            StepState::Deciding { idx: 0 }) && (r matches Ok(Action::Proceed)) && final(self).ledger
                == old(self).ledger,
            old(self).state is Preparing && outcome is PrepareFailed ==> (r matches Err(e) && e
                is Io),
            (match old(self).state {
                StepState::Deciding { idx } => idx == old(self).total,
                _ => false,
            }) ==> final(self).state is AddingProfile && (r matches Ok(
                Action::AddLauncherProfile,
            )) && final(self).ledger == old(self).ledger && final(self).last_units
                == old(self).scaled_total,
            (match old(self).state {
                StepState::Deciding { idx } => idx < old(self).total && entry_satisfied(
                    old(self).config,
                    old(self).ledger,
                    idx as int,
                ),
                _ => false,
            }) ==> (match old(self).state {
                StepState::Deciding { idx } => final(self).state == (StepState::Deciding {
                    idx: (idx + 1) as u64,
                }) && (r matches Ok(Action::Proceed)) && final(self).ledger == old(self).ledger,
                _ => true,
            }),
            (match old(self).state {
                StepState::Deciding { idx } => idx < old(self).total && !entry_satisfied(
                    old(self).config,
                    old(self).ledger,
                    idx as int,
                ),
                _ => false,
            }) ==> (match old(self).state {
                StepState::Deciding { idx } => final(self).state == (StepState::Fetching { idx })
                    && final(self).ledger == old(self).ledger && (match r {
                    Ok(Action::FetchArtifact { url, temp_dir }) => url@ == entry_url(
                        old(self).config,
                        idx as int,
                    ) && temp_dir@ == old(self).temp_dir@,
                    _ => false,
                }),
                _ => true,
            }),
            (match (old(self).state, outcome) {
                (StepState::Fetching { idx }, Outcome::Fetched { file_name, hash }) => {
                    if eq_ignore_case(entry_hash(old(self).config, idx as int), hash@) {
                        final(self).state == (StepState::Placing { idx }) && final(self).ledger
                            == old(self).ledger && (match r {
                            Ok(Action::PlaceFile { from, to }) => from@ == old(self).temp_dir@
                                + seq!['/'] + file_name@ && to@ == entry_dest_dir(
                                old(self).config,
                                old(self).install_dir@,
                                idx as int,
                            ) + seq!['/'] + file_name@,
                            _ => false,
                        }) && (match final(self).pending_name {
                            Some(n) => n@ == file_name@,
                            None => false,
                        })
                    } else {
                        final(self).state is Failed && (match r {
                            Err(e) => e is Integrity,
                            _ => false,
                        })
                    }
                },
                _ => true,
            }),
            (match (old(self).state, outcome) {
                (StepState::Fetching { .. }, Outcome::FetchFailed { error }) => match r {
                    Err(e) => e == error,
                    _ => false,
                },
                _ => true,
            }),
            (match (old(self).state, outcome) {
                (StepState::Placing { idx }, Outcome::Placed) => final(self).state == (
                StepState::Recording { idx }) && (r matches Ok(Action::PersistLedger))
                    && entry_satisfied(final(self).config, final(self).ledger, idx as int)
                    && final(self).ledger.installer_version == old(self).ledger.installer_version,
                _ => true,
            }),
            old(self).state is Placing && outcome is PlaceFailed ==> (r matches Err(e) && e
                is Io),
            (match (old(self).state, outcome) {
                (StepState::Recording { idx }, Outcome::Persisted) => final(self).state == (
                StepState::Deciding { idx: (idx + 1) as u64 }) && (r matches Ok(Action::Proceed))
                    && final(self).ledger == old(self).ledger && final(self).last_units as int == (
                idx + 1) as int * PROGRESS_SCALE as int,
                _ => true,
            }),
            old(self).state is Recording && outcome is PersistFailed ==> (r matches Err(e) && e
                is Io),
            (match (old(self).state, outcome) {
                (StepState::AddingProfile, Outcome::ProfileHandled { ok }) => final(self).ledger
                    == old(self).ledger && (if old(self).config.mod_loader.auto_open {
                    final(self).state is Launching && (r matches Ok(Action::LaunchModLoader))
                } else {
                    final(self).state is Done && (r matches Ok(Action::Finished))
                }),
                _ => true,
            }),
            old(self).state is Launching ==> final(self).state is Done && (r matches Ok(
                Action::Finished,
            )) && final(self).ledger == old(self).ledger,
            final(self).state is Done ==> (unique_entry_keys(final(self).config)
                ==> all_satisfied(final(self).config, final(self).ledger)),
    {
        let st = self.state;
        match st {
            StepState::Init => {
                self.push_progress(0);
                self.state = StepState::Preparing;
                Ok(Action::PrepareTempDir { temp_dir: self.temp_dir.clone() })
            },
            StepState::Preparing => {
                match outcome {
                    Outcome::Prepared => {
                        self.push_event(
                            InstallerEvent::ChangePhase { phase: Phase::DownloadModLoader },
                        );
                        self.state = StepState::Deciding { idx: 0 };
                        Ok(Action::Proceed)
                    },
                    Outcome::PrepareFailed { message } => {
                        self.state = StepState::Failed;
                        Err(InstallError::Io { message })
                    },
                    _ => {
                        proof {
                            assert(false);
                        }
                        Err(InstallError::Busy)
                    },
                }
            },
            StepState::Deciding { idx } => {
                if idx == 1 {
                    self.push_event(InstallerEvent::ChangePhase { phase: Phase::DownloadMods });
                }
                if idx as usize == 1 + self.config.mods.len() {
                    self.push_event(
                        InstallerEvent::ChangePhase { phase: Phase::DownloadResources },
                    );
                }
                if idx == self.total {
                    let full = self.scaled_total;
                    self.push_progress(full);
                    let ghost wix = self.events@.len() - 1;
                    proof {
                        assert(progress_units_at(self.events@, wix) == Some(self.scaled_total));
                    }
                    self.push_event(InstallerEvent::ChangePhase { phase: Phase::AddProfile });
                    proof {
                        assert(progress_units_at(self.events@, wix) == Some(self.scaled_total));
                    }
                    self.state = StepState::AddingProfile;
                    Ok(Action::AddLauncherProfile)
                } else {
                    let (satisfied, name, url) = self.decide_entry(idx);
                    if satisfied {
                        self.state = StepState::Deciding { idx: idx + 1 };
                        let units = (idx + 1) * PROGRESS_SCALE;
                        self.push_progress(units);
                        Ok(Action::Proceed)
                    } else {
                        self.push_event(InstallerEvent::ChangeDetail { detail: name });
                        self.state = StepState::Fetching { idx };
                        Ok(Action::FetchArtifact { url, temp_dir: self.temp_dir.clone() })
                    }
                }
            },
            StepState::Fetching { idx } => {
                match outcome {
                    Outcome::Fetched { file_name, hash } => {
                        let expected = self.entry_expected_hash(idx);
                        let dest_dir = self.entry_dest(idx);
                        let to = join_path(dest_dir.as_str(), file_name.as_str());
                        if hash_matches(expected.as_str(), hash.as_str()) {
                            let from = join_path(self.temp_dir.as_str(), file_name.as_str());
                            self.pending_name = Some(file_name);
                            self.state = StepState::Placing { idx };
                            Ok(Action::PlaceFile { from, to })
                        } else {
                            self.state = StepState::Failed;
                            Err(InstallError::Integrity { expected, actual: hash, path: to })
                        }
                    },
                    Outcome::FetchFailed { error } => {
                        self.state = StepState::Failed;
                        Err(error)
                    },
                    _ => {
                        proof {
                            assert(false);
                        }
                        Err(InstallError::Busy)
                    },
                }
            },
            StepState::Placing { idx } => {
                match outcome {
                    Outcome::Placed => {
                        let name = match self.pending_name.take() {
                            Some(n) => n,
                            None => {
                                proof {
                                    assert(false);
                                }
                                String::new()
                            },
                        };
                        self.record_entry(idx, name);
                        self.state = StepState::Recording { idx };
                        Ok(Action::PersistLedger)
                    },
                    Outcome::PlaceFailed { message } => {
                        self.state = StepState::Failed;
                        Err(InstallError::Io { message })
                    },
                    _ => {
                        proof {
                            assert(false);
                        }
                        Err(InstallError::Busy)
                    },
                }
            },
            StepState::Recording { idx } => {
                match outcome {
                    Outcome::Persisted => {
                        self.state = StepState::Deciding { idx: idx + 1 };
                        let units = (idx + 1) * PROGRESS_SCALE;
                        self.push_progress(units);
                        Ok(Action::Proceed)
                    },
                    Outcome::PersistFailed { message } => {
                        self.state = StepState::Failed;
                        Err(InstallError::Io { message })
                    },
                    _ => {
                        proof {
                            assert(false);
                        }
                        Err(InstallError::Busy)
                    },
                }
            },
            StepState::AddingProfile => {
                let ghost wix = choose|i: int|
                    0 <= i < self.events@.len() && progress_units_at(self.events@, i) == Some(
                        self.scaled_total,
                    );
                match outcome {
                    Outcome::ProfileHandled { ok } => {
                        if !ok {
                            self.push_event(
                                InstallerEvent::AddAlert {
                                    level: AlertLevel::Warning,
                                    translation_key: String::from_str("alertOnFailedAddProfile"),
                                },
                            );
                        }
                        proof {
                            assert(progress_units_at(self.events@, wix) == Some(
                                self.scaled_total,
                            ));
                        }
                        if self.config.mod_loader.auto_open {
                            self.push_event(
                                InstallerEvent::ChangePhase { phase: Phase::LaunchModLoader },
                            );
                            proof {
                                assert(progress_units_at(self.events@, wix) == Some(
                                    self.scaled_total,
                                ));
                            }
                            self.state = StepState::Launching;
                            Ok(Action::LaunchModLoader)
                        } else {
                            self.state = StepState::Done;
                            Ok(Action::Finished)
                        }
                    },
                    _ => {
                        proof {
                            assert(false);
                        }
                        Err(InstallError::Busy)
                    },
                }
            },
            StepState::Launching => {
                let ghost wix = choose|i: int|
                    0 <= i < self.events@.len() && progress_units_at(self.events@, i) == Some(
                        self.scaled_total,
                    );
                match outcome {
                    Outcome::LaunchHandled { ok } => {
                        if ok {
                            self.push_event(
                                InstallerEvent::AddAlert {
                                    level: AlertLevel::Info,
                                    translation_key: String::from_str("alertOnLaunchModLoader"),
                                },
                            );
                        } else {
                            self.push_event(
                                InstallerEvent::AddAlert {
                                    level: AlertLevel::Warning,
                                    translation_key: String::from_str(
                                        "alertOnFailedLaunchModLoader",
                                    ),
                                },
                            );
                        }
                        proof {
                            assert(progress_units_at(self.events@, wix) == Some(
                                self.scaled_total,
                            ));
                        }
                        self.state = StepState::Done;
                        Ok(Action::Finished)
                    },
                    _ => {
                        proof {
                            assert(false);
                        }
                        Err(InstallError::Busy)
                    },
                }
            },
            StepState::Done => {
                proof {
                    assert(false);
                }
                Err(InstallError::Busy)
            },
            StepState::Failed => {
                proof {
                    assert(false);
                }
                Err(InstallError::Busy)
            },
        }
    }

    /// Reports byte-level progress of the in-flight download. With a known
    /// total, the emitted fraction combines completed whole steps with the
    /// clamped byte ratio and never decreases; with no total, nothing is
    /// emitted.
    pub fn on_chunk(&mut self, p: DownloadProgress)
        requires
            old(self).wf(),
            old(self).state is Fetching,
        ensures
            final(self).wf(),
            final(self).config == old(self).config,
            final(self).ledger == old(self).ledger,
            final(self).state == old(self).state,
            final(self).install_dir == old(self).install_dir,
            final(self).temp_dir == old(self).temp_dir,
            final(self).total == old(self).total,
            final(self).scaled_total == old(self).scaled_total,
            old(self).events@.is_prefix_of(final(self).events@),
            final(self).pending_name == old(self).pending_name,
            p.total_bytes is None ==> final(self).events == old(self).events && final(self).last_units == old(self).last_units,
            (match (old(self).state, p.total_bytes) {
                (StepState::Fetching { idx }, Some(t)) => {
                    let u = chunk_units(
                        idx as int,
                        old(self).last_units as int,
                        p.received_bytes,
                        t,
                    );
                    final(self).events@ == old(self).events@.push(
                        progress_event(u as u64, old(self).scaled_total),
                    ) && final(self).last_units as int == u
                },
                _ => true,
            }),
    {
        let idx = match self.state {
            StepState::Fetching { idx } => idx,
            _ => {
                proof {
                    assert(false);
                }
                0
            },
        };
        match p.total_bytes {
            None => {},
            Some(t) => {
                let frac: u64 = if t == 0 {
                    0
                } else {
                    let scaled: u128 = (p.received_bytes as u128) * 10000;
                    let w: u128 = scaled / (t as u128);
                    if w >= 10000 {
                        PROGRESS_SCALE
                    } else {
                        w as u64
                    }
                };
                let candidate: u64 = idx * PROGRESS_SCALE + frac;
                let units = if candidate > self.last_units {
                    candidate
                } else {
                    self.last_units
                };
                self.push_progress(units);
            },
        }
    }
}

/// Joins a directory and a name with a forward slash.
pub fn join_path(base: &str, rel: &str) -> (r: String)
    ensures
        r@ == base@ + seq!['/'] + rel@,
{
    let mut s = String::from_str(base);
    push_char(&mut s, '/');
    s.append(rel);
    assert(s@ =~= base@ + seq!['/'] + rel@);
    s
}

/// How many of the first `k` entries the ledger does not satisfy.
pub open spec fn count_unsatisfied(c: ModPackConfig, l: InstallerState, k: int) -> int
    decreases k,
{
    if k <= 0 {
        0
    } else {
        count_unsatisfied(c, l, k - 1) + if entry_satisfied(c, l, k - 1) {
            0int
        } else {
            1int
        }
    }
}

/// How many of the first `k` entries the ledger satisfies.
pub open spec fn count_satisfied(c: ModPackConfig, l: InstallerState, k: int) -> int
    decreases k,
{
    if k <= 0 {
        0
    } else {
        count_satisfied(c, l, k - 1) + if entry_satisfied(c, l, k - 1) {
            1int
        } else {
            0int
        }
    }
}

/// The work a fresh run would do: the indices of exactly those entries the
/// ledger does not satisfy, in order.
pub fn downloads_needed(config: &ModPackConfig, ledger: &InstallerState) -> (r: Vec<u64>)
    requires
        ledger.wf(),
        num_steps(*config) <= 1000000000,
    ensures
        forall|x: int|
            0 <= x < r@.len() ==> 0 <= #[trigger] r@[x] < num_steps(*config) && !entry_satisfied(
                *config,
                *ledger,
                r@[x] as int,
            ),
        forall|k: int|
            0 <= k < num_steps(*config) && !entry_satisfied(*config, *ledger, k) ==> r@.contains(
                k as u64,
            ),
        r@.len() == count_unsatisfied(*config, *ledger, num_steps(*config)),
{
    let total: u64 = 1 + config.mods.len() as u64 + config.resources.len() as u64;
    let m = config.mods.len();
    let mut r: Vec<u64> = Vec::new();
    let mut k: u64 = 0;
    while k < total
        invariant
            ledger.wf(),
            total as int == num_steps(*config),
            total <= 1000000000,
            m == config.mods@.len(),
            k <= total,
            forall|x: int|
                0 <= x < r@.len() ==> 0 <= #[trigger] r@[x] < k as int && !entry_satisfied(
                    *config,
                    *ledger,
                    r@[x] as int,
                ),
            forall|j: int|
                0 <= j < k as int && !entry_satisfied(*config, *ledger, j) ==> r@.contains(
                    j as u64,
                ),
            r@.len() == count_unsatisfied(*config, *ledger, k as int),
        decreases total - k,
    {
        let ku = k as usize;
        let satisfied = if ku == 0 {
            ledger.is_loader_satisfied(&config.mod_loader)
        } else if ku <= m {
            ledger.is_mod_satisfied(&config.mods[ku - 1])
        } else {
            ledger.is_resource_satisfied(&config.resources[ku - 1 - m])
        };
        if !satisfied {
            let ghost pre = r@;
            r.push(k);
            proof {
                assert forall|j: int|
                    0 <= j < k as int + 1 && !entry_satisfied(*config, *ledger, j) implies r@
                    .contains(j as u64) by {
                    if j == k as int {
                        assert(r@[r@.len() - 1] == k);
                    } else {
                        let x = choose|x: int| 0 <= x < pre.len() && pre[x] == j as u64;
                        assert(r@[x] == j as u64);
                    }
                }
            }
        }
        k = k + 1;
    }
    r
}

/// Idempotence: against a ledger that already satisfies every manifest
/// entry, a fresh run has nothing to download, and each `advance` step of
/// such a run skips its entry and leaves the ledger exactly as it is.
pub proof fn lemma_idempotent_run(c: ModPackConfig, l: InstallerState)
    requires
        all_satisfied(c, l),
    ensures
        count_unsatisfied(c, l, num_steps(c)) == 0,
{
    lemma_count_unsatisfied_zero(c, l, num_steps(c));
}

/// A prefix of satisfied entries counts no unsatisfied ones.
proof fn lemma_count_unsatisfied_zero(c: ModPackConfig, l: InstallerState, k: int)
    requires
        forall|j: int| 0 <= j < k ==> entry_satisfied(c, l, j),
    ensures
        count_unsatisfied(c, l, k) == 0,
    decreases k,
{
    if k > 0 {
        lemma_count_unsatisfied_zero(c, l, k - 1);
    }
}

/// A completed run leaves a ledger that satisfies the whole manifest, so a
/// second run against it plans no downloads.
pub proof fn lemma_completed_run_is_idempotent(m: Installer)
    requires
        m.wf(),
        m.state is Done,
        unique_entry_keys(m.config),
    ensures
        all_satisfied(m.config, m.ledger),
        count_unsatisfied(m.config, m.ledger, num_steps(m.config)) == 0,
{
    lemma_idempotent_run(m.config, m.ledger);
}

/// Resumability: among the first `k` entries, the satisfied and the
/// unsatisfied ones together account for all of them, so a run against a
/// ledger with `N` of `M` entries recorded plans exactly the other `M - N`.
pub proof fn lemma_resumable(c: ModPackConfig, l: InstallerState, k: int)
    requires
        0 <= k,
    ensures
        count_unsatisfied(c, l, k) + count_satisfied(c, l, k) == k,
    decreases k,
{
    if k > 0 {
        lemma_resumable(c, l, k - 1);
    }
}

/// Progress monotonicity: a well-formed machine's emitted progress values
/// never decrease along the event sequence, and a machine that reached the
/// end of its run has last emitted exactly the whole fraction.
pub proof fn lemma_progress_monotone(m: Installer)
    requires
        m.wf(),
    ensures
        progress_monotone(m.events@),
        m.state is Done ==> m.last_units == m.scaled_total,
{
}

/// At the end of a run the event channel's final progress value is exactly
/// the whole fraction: some emitted progress event carries it, every
/// progress event stays within it, and every progress event from that one
/// on equals it — so the last progress event a consumer sees is the full
/// fraction.
pub proof fn lemma_final_progress_full(m: Installer)
    requires
        m.wf(),
        m.state is Done,
    ensures
        exists|i: int|
            0 <= i < m.events@.len() && progress_units_at(m.events@, i) == Some(m.scaled_total),
        forall|j: int|
            0 <= j < m.events@.len() && #[trigger] progress_units_at(m.events@, j) is Some
                ==> progress_units_at(m.events@, j)->Some_0 <= m.scaled_total,
        forall|i: int, j: int|
            0 <= i <= j < m.events@.len() && #[trigger] progress_units_at(m.events@, i) == Some(
                m.scaled_total,
            ) && #[trigger] progress_units_at(m.events@, j) is Some ==> progress_units_at(
                m.events@,
                j,
            ) == Some(m.scaled_total),
{
    assert forall|j: int|
        0 <= j < m.events@.len() && #[trigger] progress_units_at(m.events@, j) is Some
            implies progress_units_at(m.events@, j)->Some_0 <= m.scaled_total by {
        assert(match m.events@[j] {
            InstallerEvent::UpdateProgress { progress } => progress.units <= m.last_units
                && progress.total_units == m.scaled_total,
            _ => true,
        });
    }
    assert forall|i: int, j: int|
        0 <= i <= j < m.events@.len() && #[trigger] progress_units_at(m.events@, i) == Some(
            m.scaled_total,
        ) && #[trigger] progress_units_at(m.events@, j) is Some implies progress_units_at(
        m.events@,
        j,
    ) == Some(m.scaled_total) by {
        if i < j {
            assert(progress_units_at(m.events@, i)->Some_0 <= progress_units_at(
                m.events@,
                j,
            )->Some_0);
            assert(match m.events@[j] {
                InstallerEvent::UpdateProgress { progress } => progress.units <= m.last_units,
                _ => true,
            });
        }
    }
}

/// Drift detection: a recorded mod whose hash no longer matches the
/// manifest's leaves its entry unsatisfied — so the artifact is downloaded
/// again — and re-recording it replaces the record in place, keeping the
/// record count unchanged.
pub proof fn lemma_drift_redownload_and_replace(l: InstallerState, e: ModEntry, m: ModState)
    requires
        l.wf(),
        l.has_mod(e.source),
        l.mods@[l.mod_index_of(e.source)].hash@ != e.hash@,
        source_eq(m.source, e.source),
    ensures
        !mods_satisfy(l.mods@, e),
        l.has_mod(m.source),
        l.mods@.update(l.mod_index_of(m.source), m).len() == l.mods@.len(),
{
    let idx = l.mod_index_of(e.source);
    if mods_satisfy(l.mods@, e) {
        let k = choose|k: int|
            0 <= k < l.mods@.len() && source_eq(#[trigger] l.mods@[k].source, e.source)
                && l.mods@[k].hash@ == e.hash@;
        if k != idx {
            lemma_source_eq_trans(l.mods@[k].source, l.mods@[idx].source, e.source);
            lemma_source_eq_sym(l.mods@[k].source, l.mods@[idx].source);
            assert(false);
        }
        assert(false);
    }
    lemma_source_eq_sym(m.source, e.source);
    assert(source_eq(l.mods@[idx].source, e.source));
    if source_eq(l.mods@[idx].source, m.source) {
    } else {
        lemma_source_eq_sym(e.source, m.source);
        lemma_source_eq_trans(l.mods@[idx].source, m.source, e.source);
        assert(false);
    }
    assert(l.has_mod(m.source));
}

/// Drift detection for resources: a recorded resource whose hash no longer
/// matches the manifest's leaves its entry unsatisfied, and re-recording it
/// replaces the record under the same (source, target directory) key in
/// place.
pub proof fn lemma_resource_drift_redownload(l: InstallerState, e: ResourceEntry)
    requires
        l.wf(),
        l.has_resource(e.source, e.target_dir@),
        l.resources@[l.resource_index_of(e.source, e.target_dir@)].hash@ != e.hash@,
    ensures
        !resources_satisfy(l.resources@, e),
{
    let idx = l.resource_index_of(e.source, e.target_dir@);
    if resources_satisfy(l.resources@, e) {
        let k = choose|k: int|
            0 <= k < l.resources@.len() && resource_key_eq(
                #[trigger] l.resources@[k].source,
                l.resources@[k].target_dir@,
                e.source,
                e.target_dir@,
            ) && l.resources@[k].hash@ == e.hash@;
        if k != idx {
            lemma_source_eq_trans(l.resources@[k].source, l.resources@[idx].source, e.source);
            lemma_source_eq_sym(l.resources@[k].source, l.resources@[idx].source);
            if k < idx {
                assert(resource_key_eq(
                    l.resources@[k].source,
                    l.resources@[k].target_dir@,
                    l.resources@[idx].source,
                    l.resources@[idx].target_dir@,
                ));
            } else {
                assert(resource_key_eq(
                    l.resources@[idx].source,
                    l.resources@[idx].target_dir@,
                    l.resources@[k].source,
                    l.resources@[k].target_dir@,
                ));
            }
            assert(false);
        }
        assert(false);
    }
}

} // verus!
