//! The supervisor: owner of one sidecar process's lifecycle.
//!
//! The supervisor never spawns or waits itself — those calls belong to the
//! unverified shell around this library. It decides: it hands out the fixed
//! command line, advances through `NotStarted -> Spawning -> Running ->
//! Exited`, creates exactly one relay per output stream when the spawn
//! succeeds and none when it fails, and records the exit code when the
//! process ends. At most one process is ever outstanding: a start can only
//! begin from `NotStarted`, and a failed spawn returns there.

use vstd::prelude::*;

use crate::log_sink::StreamTag;
use crate::relay::Relay;

verus! {

/// Why a spawn failed: the executable cannot be located, cannot be run, the
/// working directory is no directory, or the launch failed for some other
/// reason the host's error taxonomy does not name. Surfaced to the caller;
/// the host application is expected to keep running.
#[derive(Clone, Copy, Debug, PartialEq, Eq, Structural)]
pub enum SpawnError {
    ExecutableNotFound,
    NotExecutable,
    InvalidWorkingDir,
    LaunchFailed,
}

/// What the operating system answered when asked to spawn the process.
#[derive(Clone, Copy, Debug, PartialEq, Eq, Structural)]
pub enum SpawnOutcome {
    Spawned { process_id: u32 },
    Failed { error: SpawnError },
}

/// Where the supervised process stands in its lifetime.
#[derive(Clone, Copy, Debug, PartialEq, Eq, Structural)]
pub enum Lifecycle {
    NotStarted,
    Spawning,
    Running { process_id: u32 },
    Exited { exit_code: i32 },
}

/// The kind of host the sidecar runs on, as far as the executable path
/// depends on it.
#[derive(Clone, Copy, Debug, PartialEq, Eq, Structural)]
pub enum Platform {
    Windows,
    Posix,
}

/// Picks the interpreter for the host platform: one configuration lookup,
/// executed once at startup, instead of conditional branches scattered
/// through the supervisor.
pub fn resolve_executable(platform: Platform, windows_exe: String, posix_exe: String) -> (p:
    String)
    ensures
        platform == Platform::Windows ==> p == windows_exe,
        platform == Platform::Posix ==> p == posix_exe,
{
    match platform {
        Platform::Windows => windows_exe,
        Platform::Posix => posix_exe,
    }
}

/// The fixed command line of the sidecar: executable path, argument list
/// and working directory, decided once at startup.
pub struct SidecarConfig {
    pub executable: String,
    pub args: Vec<String>,
    pub working_dir: String,
}

/// The two relays created for a freshly spawned process, one per output
/// stream.
pub struct RelayPair {
    pub stdout: Relay,
    pub stderr: Relay,
}

/// Supervises one sidecar process from host startup to its exit.
pub struct Supervisor {
    pub config: SidecarConfig,
    pub lifecycle: Lifecycle,
}

impl Supervisor {
    /// A supervisor that has not yet started its process.
    pub fn new(config: SidecarConfig) -> (s: Supervisor)
        ensures
            s.lifecycle == Lifecycle::NotStarted,
            !s.process_outstanding(),
            s.config == config,
    {
        Supervisor { config, lifecycle: Lifecycle::NotStarted }
    }

    /// Commits to one spawn attempt. Only a supervisor with no process
    /// outstanding may start one: this is what keeps a second sidecar from
    /// ever being spawned beside a live first.
    pub fn begin_start(&mut self)
        requires
            old(self).lifecycle == Lifecycle::NotStarted,
        ensures
            final(self).lifecycle == Lifecycle::Spawning,
            final(self).config == old(self).config,
    {
        self.lifecycle = Lifecycle::Spawning;
    }

    /// Takes in what the spawn attempt produced. A live process hands back
    /// exactly two fresh relays, one per output stream, and the supervisor
    /// runs; a failed spawn hands back the error, creates no relay, and
    /// leaves no process outstanding.
    pub fn finish_start(&mut self, outcome: SpawnOutcome) -> (r: Result<RelayPair, SpawnError>)
        requires
            old(self).lifecycle == Lifecycle::Spawning,
        ensures
            final(self).config == old(self).config,
            (match outcome {
                SpawnOutcome::Spawned { process_id } => {
                    &&& final(self).lifecycle == (Lifecycle::Running { process_id })
                    &&& r matches Ok(rp)
                    &&& r matches Ok(rp) ==> {
                        &&& rp.stdout.tag() == StreamTag::Stdout
                        &&& rp.stdout.pending() == Seq::<u8>::empty()
                        &&& !rp.stdout.is_done()
                        &&& rp.stderr.tag() == StreamTag::Stderr
                        &&& rp.stderr.pending() == Seq::<u8>::empty()
                        &&& !rp.stderr.is_done()
                    }
                },
                SpawnOutcome::Failed { error } => {
                    &&& final(self).lifecycle == Lifecycle::NotStarted
                    &&& !final(self).process_outstanding()
                    &&& r matches Err(e) && e == error
                },
            }),
    {
        match outcome {
            SpawnOutcome::Spawned { process_id } => {
                self.lifecycle = Lifecycle::Running { process_id };
                Ok(RelayPair {
                    stdout: Relay::new(StreamTag::Stdout),
                    stderr: Relay::new(StreamTag::Stderr),
                })
            },
            SpawnOutcome::Failed { error } => {
                self.lifecycle = Lifecycle::NotStarted;
                Err(error)
            },
        }
    }

    /// Records that the process ended with the given exit code. The source
    /// of the code is the shell's wait on the process; the supervisor only
    /// keeps it.
    pub fn record_exit(&mut self, exit_code: i32)
        requires
            old(self).lifecycle matches Lifecycle::Running { .. },
        ensures
            final(self).lifecycle == (Lifecycle::Exited { exit_code }),
            final(self).config == old(self).config,
    {
        self.lifecycle = Lifecycle::Exited { exit_code };
    }

    /// True while a spawn attempt or a live process is outstanding — the
    /// window in which no second start may begin.
    pub open spec fn process_outstanding(&self) -> bool {
        self.lifecycle matches Lifecycle::Spawning || self.lifecycle matches Lifecycle::Running {
            ..
        }
    }
}

} // verus!
