//! The command surface the presentation layer talks to: mode selection,
//! title-screen status, and the one-run-at-a-time guard.

use vstd::prelude::*;
use vstd::string::StringExecFns;

use crate::error::InstallError;

verus! {

/// What a run can be asked to do.
#[derive(Clone, Copy, Debug)]
pub enum InstallerMode {
    Install,
}

/// What the title screen needs to know: whether the manifest file exists.
#[derive(Clone, Copy, Debug)]
pub struct TitleStatus {
    pub is_exists_config: bool,
}

/// The answer to a mode-selection request.
#[derive(Clone, Debug)]
pub struct ModeResult {
    pub is_accept: bool,
    pub error: Option<String>,
}

/// Per-process state shared across commands: the working directory, the log
/// directory, and the flag that keeps at most one run in flight.
#[derive(Clone, Debug)]
pub struct AppState {
    pub cwd: String,
    pub log_dir: String,
    pub is_running: bool,
}

/// Answers the title screen from the known existence of the manifest file.
pub fn initialize_title(config_exists: bool) -> (r: TitleStatus)
    ensures
        r.is_exists_config == config_exists,
{
    TitleStatus { is_exists_config: config_exists }
}

/// Accepts a mode exactly when its prerequisites hold: an install run needs
/// the manifest file to exist.
pub fn select_mode(mode: InstallerMode, config_exists: bool) -> (r: ModeResult)
    ensures
        r.is_accept == config_exists,
        r.is_accept <==> r.error is None,
        !config_exists ==> (match r.error {
            Some(m) => m@ == "Config file is missing."@,
            None => false,
        }),
{
    match mode {
        InstallerMode::Install => {
            if config_exists {
                ModeResult { is_accept: true, error: None }
            } else {
                ModeResult {
                    is_accept: false,
                    error: Some(String::from_str("Config file is missing.")),
                }
            }
        },
    }
}

impl AppState {
    /// Fresh state: no run in flight.
    pub fn new(cwd: String, log_dir: String) -> (r: AppState)
        ensures
            r.cwd == cwd,
            r.log_dir == log_dir,
            !r.is_running,
    {
        AppState { cwd, log_dir, is_running: false }
    }

    /// Claims the single run slot. A request while a run is active fails with
    /// the busy error and changes nothing.
    pub fn try_begin_run(&mut self) -> (r: Result<(), InstallError>)
        ensures
            old(self).is_running ==> r is Err && r->Err_0 is Busy && *final(self) == *old(self),
            !old(self).is_running ==> r is Ok && final(self).is_running && final(self).cwd == old(
                self,
            ).cwd && final(self).log_dir == old(self).log_dir,
    {
        if self.is_running {
            Err(InstallError::Busy)
        } else {
            self.is_running = true;
            Ok(())
        }
    }

    /// Releases the run slot.
    pub fn finish_run(&mut self)
        ensures
            !final(self).is_running,
            final(self).cwd == old(self).cwd,
            final(self).log_dir == old(self).log_dir,
    {
        self.is_running = false;
    }
}

} // verus!
