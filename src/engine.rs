use vstd::prelude::*;

use crate::pointer::{entry_path, entry_path_spec};
use crate::version::{
    VersionId, version_of, normalize_spec, bare_spec, normalize_version, extract_version_number,
};

verus! {

/// Why switching the active version did not happen.
pub enum UseError {
    /// The requested version has no entry; it has to be installed first.
    NotInstalled { version: String },
    /// The existing pointer entry could not be replaced; it is left as it was.
    RemovalFailed { cause: String },
    /// The new link could not be created; the pointer is left as it was.
    LinkCreationFailed { cause: String },
    /// The entry vanished before the link was made, so no link was made:
    /// a link creation failure of its own kind.
    TargetMissing { target: String },
    /// A leftover entry at the temporary name could not be cleared, so no
    /// link was made: a link creation failure of its own kind.
    TempBlocked { temp: String },
}

impl UseError {
    pub open spec fn is_link_creation_spec(&self) -> bool {
        self is LinkCreationFailed || self is TargetMissing || self is TempBlocked
    }

    /// Whether this is a failure to create the new link.
    pub fn is_link_creation(&self) -> (r: bool)
        ensures
            r == self.is_link_creation_spec(),
    {
        match self {
            UseError::LinkCreationFailed { .. } => true,
            UseError::TargetMissing { .. } => true,
            UseError::TempBlocked { .. } => true,
            _ => false,
        }
    }
}

/// A switch that took place: the version now active, and the one it displaced.
pub struct Switched {
    pub now: VersionId,
    pub previous: Option<VersionId>,
}

/// What the caller reports back after doing what was asked.
pub enum UseEvent {
    /// Whether the requested entry exists, and what the pointer designates.
    Inspected { entry_exists: bool, previous: Option<VersionId> },
    /// Whether nothing is left at the temporary name.
    TempCleared(bool),
    TargetChecked(bool),
    Linked(Result<(), String>),
    Replaced(Result<(), String>),
}

/// What the caller is asked to do next.
pub enum UseAction {
    /// Remove whatever is at the temporary name, if anything.
    ClearTemp { temp: String },
    CheckTarget,
    /// Create a link at `link` that points at `target`.
    CreateLink { link: String, target: String },
    /// Rename `from` over `to` in one step.
    ReplacePointer { from: String, to: String },
    Finished(Result<Switched, UseError>),
    /// Remove the link left at the temporary name, then report `error`.
    Abandon { temp: String, error: UseError },
}

#[derive(Clone, Copy, Debug, PartialEq, Eq, Structural)]
pub enum UseStage {
    Inspecting,
    Clearing,
    Checking,
    Linking,
    Replacing,
    Done,
}

/// One run of switching the active version. The new link is made under a
/// temporary name and then renamed over the pointer, so at every instant
/// the pointer is the old link or the new one.
pub struct UseSession {
    /// Path of the requested entry, which the pointer is to designate.
    pub target: String,
    /// Path of the pointer entry.
    pub pointer: String,
    /// Temporary name of the new link, beside the pointer.
    pub temp: String,
    /// The requested version without its prefix, for messages.
    pub version_num: String,
    pub version: VersionId,
    pub previous: Option<VersionId>,
    pub stage: UseStage,
}

/// Path of the pointer entry inside the bin directory.
pub open spec fn pointer_path_spec(bin_dir: Seq<char>) -> Seq<char> {
    bin_dir + "/go"@
}

/// Temporary name of a new link inside the bin directory.
pub open spec fn temp_path_spec(bin_dir: Seq<char>) -> Seq<char> {
    bin_dir + "/.go-next"@
}

pub open spec fn accepts_spec(stage: UseStage, event: UseEvent) -> bool {
    match event {
        UseEvent::Inspected { .. } => stage == UseStage::Inspecting,
        UseEvent::TempCleared(_) => stage == UseStage::Clearing,
        UseEvent::TargetChecked(_) => stage == UseStage::Checking,
        UseEvent::Linked(_) => stage == UseStage::Linking,
        UseEvent::Replaced(_) => stage == UseStage::Replacing,
    }
}

/// The next stage and action for an event that the stage accepts.
pub open spec fn use_next(s: UseSession, event: UseEvent) -> (UseStage, UseAction) {
    match event {
        UseEvent::Inspected { entry_exists, .. } => if !entry_exists {
            (
                UseStage::Done,
                UseAction::Finished(Err(UseError::NotInstalled { version: s.version_num })),
            )
        } else {
            (UseStage::Clearing, UseAction::ClearTemp { temp: s.temp })
        },
        UseEvent::TempCleared(false) => (
            UseStage::Done,
            UseAction::Finished(Err(UseError::TempBlocked { temp: s.temp })),
        ),
        UseEvent::TempCleared(true) => (UseStage::Checking, UseAction::CheckTarget),
        UseEvent::TargetChecked(false) => (
            UseStage::Done,
            UseAction::Finished(Err(UseError::TargetMissing { target: s.target })),
        ),
        UseEvent::TargetChecked(true) => (
            UseStage::Linking,
            UseAction::CreateLink { link: s.temp, target: s.target },
        ),
        UseEvent::Linked(Err(cause)) => (
            UseStage::Done,
            UseAction::Finished(Err(UseError::LinkCreationFailed { cause })),
        ),
        UseEvent::Linked(Ok(())) => (
            UseStage::Replacing,
            UseAction::ReplacePointer { from: s.temp, to: s.pointer },
        ),
        UseEvent::Replaced(Err(cause)) => (
            UseStage::Done,
            UseAction::Abandon { temp: s.temp, error: UseError::RemovalFailed { cause } },
        ),
        UseEvent::Replaced(Ok(())) => (
            UseStage::Done,
            UseAction::Finished(Ok(Switched { now: s.version, previous: s.previous })),
        ),
    }
}

impl UseSession {
    /// Starts switching to `version` (with or without the prefix), whose
    /// entry lies in `bin_dir`. The caller first inspects the bin directory.
    pub fn new(bin_dir: &str, version: &str) -> (r: UseSession)
        ensures
            r.target@ == entry_path_spec(bin_dir@, version@),
            r.pointer@ == pointer_path_spec(bin_dir@),
            r.temp@ == temp_path_spec(bin_dir@),
            r.version_num@ == bare_spec(normalize_spec(version@)),
            r.version == version_of(version@),
            r.previous is None,
            r.stage == UseStage::Inspecting,
    {
        let canonical = normalize_version(version);
        let version_num = extract_version_number(canonical.as_str());
        proof {
            reveal_strlit("/go");
            reveal_strlit("/.go-next");
        }
        UseSession {
            target: entry_path(bin_dir, version),
            pointer: bin_dir.to_owned().concat("/go"),
            temp: bin_dir.to_owned().concat("/.go-next"),
            version_num,
            version: VersionId::parse(version),
            previous: None,
            stage: UseStage::Inspecting,
        }
    }

    /// Whether the session, at its stage, takes this event.
    pub fn accepts(&self, event: &UseEvent) -> (r: bool)
        ensures
            r == accepts_spec(self.stage, *event),
    {
        match event {
            UseEvent::Inspected { .. } => self.stage == UseStage::Inspecting,
            UseEvent::TempCleared(_) => self.stage == UseStage::Clearing,
            UseEvent::TargetChecked(_) => self.stage == UseStage::Checking,
            UseEvent::Linked(_) => self.stage == UseStage::Linking,
            UseEvent::Replaced(_) => self.stage == UseStage::Replacing,
        }
    }

    /// Takes the caller's report and says what to do next. A missing entry
    /// refuses the switch. Otherwise the temporary name is cleared, the
    /// entry is checked once more so that the pointer never dangles, the
    /// new link is made under the temporary name and renamed over the
    /// pointer; where that rename fails the temporary link is removed.
    pub fn step(&mut self, event: UseEvent) -> (a: UseAction)
        requires
            accepts_spec(old(self).stage, event),
        ensures
            final(self).target == old(self).target,
            final(self).pointer == old(self).pointer,
            final(self).temp == old(self).temp,
            final(self).version_num == old(self).version_num,
            final(self).version == old(self).version,
            final(self).previous == (match event {
                UseEvent::Inspected { previous, .. } => previous,
                _ => old(self).previous,
            }),
            (final(self).stage, a) == use_next(*final(self), event),
    {
        match event {
            UseEvent::Inspected { entry_exists, previous } => {
                self.previous = previous;
                if !entry_exists {
                    self.stage = UseStage::Done;
                    UseAction::Finished(
                        Err(UseError::NotInstalled { version: self.version_num.clone() }),
                    )
                } else {
                    self.stage = UseStage::Clearing;
                    UseAction::ClearTemp { temp: self.temp.clone() }
                }
            },
            UseEvent::TempCleared(cleared) => {
                if cleared {
                    self.stage = UseStage::Checking;
                    UseAction::CheckTarget
                } else {
                    self.stage = UseStage::Done;
                    UseAction::Finished(Err(UseError::TempBlocked { temp: self.temp.clone() }))
                }
            },
            UseEvent::TargetChecked(present) => {
                if present {
                    self.stage = UseStage::Linking;
                    UseAction::CreateLink { link: self.temp.clone(), target: self.target.clone() }
                } else {
                    self.stage = UseStage::Done;
                    UseAction::Finished(Err(UseError::TargetMissing { target: self.target.clone() }))
                }
            },
            UseEvent::Linked(Err(cause)) => {
                self.stage = UseStage::Done;
                UseAction::Finished(Err(UseError::LinkCreationFailed { cause }))
            },
            UseEvent::Linked(Ok(())) => {
                self.stage = UseStage::Replacing;
                UseAction::ReplacePointer { from: self.temp.clone(), to: self.pointer.clone() }
            },
            UseEvent::Replaced(Err(cause)) => {
                self.stage = UseStage::Done;
                UseAction::Abandon { temp: self.temp.clone(), error: UseError::RemovalFailed { cause } }
            },
            UseEvent::Replaced(Ok(())) => {
                self.stage = UseStage::Done;
                UseAction::Finished(Ok(Switched { now: self.version, previous: self.previous }))
            },
        }
    }
}

/// Once the entry is found gone right before the link is made, the switch
/// ends in a link creation failure, and no link is made.
pub proof fn lemma_vanished_entry_fails_link_creation(s: UseSession)
    ensures
        use_next(s, UseEvent::TargetChecked(false)).1 matches UseAction::Finished(Err(e))
            && e.is_link_creation_spec(),
        use_next(s, UseEvent::TargetChecked(false)).0 == UseStage::Done,
{
}

/// The pointer is touched by one action alone, a rename over it, asked
/// for only once the new link stands: a failure before that leaves the
/// pointer as it was. No action removes the pointer.
pub proof fn lemma_pointer_kept_until_link_stands(s: UseSession, event: UseEvent)
    ensures
        use_next(s, event).1 is ReplacePointer ==> event matches UseEvent::Linked(Ok(_)),
        use_next(s, event).1 matches UseAction::ReplacePointer { from, to } ==> from == s.temp
            && to == s.pointer,
        event matches UseEvent::Linked(Err(_)) ==> use_next(s, event).1 matches UseAction::Finished(
            Err(e),
        ) && e.is_link_creation_spec(),
{
}

/// How an outside process ended.
pub enum ProcessResult {
    Exited { success: bool, code: Option<i32> },
    SpawnFailed { cause: String },
}

/// A process that did not succeed: its exit code, or why it did not start.
pub enum SubprocessFailure {
    ExitCode { code: Option<i32> },
    SpawnFailed { cause: String },
}

/// How an install ended.
pub enum InstallOutcome {
    AlreadyInstalled,
    InstallerInvocationFailed(SubprocessFailure),
    /// The installer reported success but left no entry behind.
    EntryMissing { entry: String },
    DownloadFailed(SubprocessFailure),
    Success,
}

pub enum InstallEvent {
    Inspected { entry_exists: bool },
    InstallerRan(ProcessResult),
    EntryChecked(bool),
    DownloaderRan(ProcessResult),
}

pub enum InstallAction {
    /// Run the installer on this package.
    RunInstaller { package: String },
    CheckEntry,
    /// Run the entry with the download subcommand.
    RunDownloader { entry: String },
    Finished(InstallOutcome),
}

#[derive(Clone, Copy, Debug, PartialEq, Eq, Structural)]
pub enum InstallStage {
    Inspecting,
    Installing,
    Checking,
    Downloading,
    Done,
}

/// One run of installing a version.
pub struct InstallSession {
    /// Path of the entry that the installer is to place.
    pub entry: String,
    /// What the installer is asked to install.
    pub package: String,
    pub version_num: String,
    pub stage: InstallStage,
}

/// The installer package for a version: `golang.org/dl/<canonical>@latest`.
pub open spec fn package_spec(version: Seq<char>) -> Seq<char> {
    "golang.org/dl/"@ + normalize_spec(version) + "@latest"@
}

pub open spec fn install_accepts_spec(stage: InstallStage, event: InstallEvent) -> bool {
    match event {
        InstallEvent::Inspected { .. } => stage == InstallStage::Inspecting,
        InstallEvent::InstallerRan(_) => stage == InstallStage::Installing,
        InstallEvent::EntryChecked(_) => stage == InstallStage::Checking,
        InstallEvent::DownloaderRan(_) => stage == InstallStage::Downloading,
    }
}

/// A process result that is no success, as a failure; `None` on success.
pub open spec fn failure_of(r: ProcessResult) -> Option<SubprocessFailure> {
    match r {
        ProcessResult::Exited { success: true, .. } => None,
        ProcessResult::Exited { success: false, code } => Some(
            SubprocessFailure::ExitCode { code },
        ),
        ProcessResult::SpawnFailed { cause } => Some(SubprocessFailure::SpawnFailed { cause }),
    }
}

/// The next stage and action for an event that the stage accepts.
pub open spec fn install_next(s: InstallSession, event: InstallEvent) -> (InstallStage, InstallAction) {
    match event {
        InstallEvent::Inspected { entry_exists } => if entry_exists {
            (InstallStage::Done, InstallAction::Finished(InstallOutcome::AlreadyInstalled))
        } else {
            (InstallStage::Installing, InstallAction::RunInstaller { package: s.package })
        },
        InstallEvent::InstallerRan(r) => match failure_of(r) {
            Some(f) => (
                InstallStage::Done,
                InstallAction::Finished(InstallOutcome::InstallerInvocationFailed(f)),
            ),
            None => (InstallStage::Checking, InstallAction::CheckEntry),
        },
        InstallEvent::EntryChecked(false) => (
            InstallStage::Done,
            InstallAction::Finished(InstallOutcome::EntryMissing { entry: s.entry }),
        ),
        InstallEvent::EntryChecked(true) => (
            InstallStage::Downloading,
            InstallAction::RunDownloader { entry: s.entry },
        ),
        InstallEvent::DownloaderRan(r) => match failure_of(r) {
            Some(f) => (
                InstallStage::Done,
                InstallAction::Finished(InstallOutcome::DownloadFailed(f)),
            ),
            None => (InstallStage::Done, InstallAction::Finished(InstallOutcome::Success)),
        },
    }
}

fn failure(r: ProcessResult) -> (f: Option<SubprocessFailure>)
    ensures
        f == failure_of(r),
{
    match r {
        ProcessResult::Exited { success, code } => if success {
            None
        } else {
            Some(SubprocessFailure::ExitCode { code })
        },
        ProcessResult::SpawnFailed { cause } => Some(SubprocessFailure::SpawnFailed { cause }),
    }
}

impl InstallSession {
    /// Starts installing `version` (with or without the prefix), whose
    /// entry is to appear in `bin_dir`. The caller first inspects the bin
    /// directory.
    pub fn new(bin_dir: &str, version: &str) -> (r: InstallSession)
        ensures
            r.entry@ == entry_path_spec(bin_dir@, version@),
            r.package@ == package_spec(version@),
            r.version_num@ == bare_spec(normalize_spec(version@)),
            r.stage == InstallStage::Inspecting,
    {
        let canonical = normalize_version(version);
        let version_num = extract_version_number(canonical.as_str());
        proof {
            reveal_strlit("golang.org/dl/");
            reveal_strlit("@latest");
        }
        let package = String::from_str("golang.org/dl/").concat(canonical.as_str()).concat(
            "@latest",
        );
        InstallSession {
            entry: entry_path(bin_dir, version),
            package,
            version_num,
            stage: InstallStage::Inspecting,
        }
    }

    /// Whether the session, at its stage, takes this event.
    pub fn accepts(&self, event: &InstallEvent) -> (r: bool)
        ensures
            r == install_accepts_spec(self.stage, *event),
    {
        match event {
            InstallEvent::Inspected { .. } => self.stage == InstallStage::Inspecting,
            InstallEvent::InstallerRan(_) => self.stage == InstallStage::Installing,
            InstallEvent::EntryChecked(_) => self.stage == InstallStage::Checking,
            InstallEvent::DownloaderRan(_) => self.stage == InstallStage::Downloading,
        }
    }

    /// Takes the caller's report and says what to do next. An existing
    /// entry needs no install; after the installer the entry is checked
    /// rather than its exit status trusted; then the download runs.
    pub fn step(&mut self, event: InstallEvent) -> (a: InstallAction)
        requires
            install_accepts_spec(old(self).stage, event),
        ensures
            final(self).entry == old(self).entry,
            final(self).package == old(self).package,
            final(self).version_num == old(self).version_num,
            (final(self).stage, a) == install_next(*old(self), event),
    {
        match event {
            InstallEvent::Inspected { entry_exists } => {
                if entry_exists {
                    self.stage = InstallStage::Done;
                    InstallAction::Finished(InstallOutcome::AlreadyInstalled)
                } else {
                    self.stage = InstallStage::Installing;
                    InstallAction::RunInstaller { package: self.package.clone() }
                }
            },
            InstallEvent::InstallerRan(r) => match failure(r) {
                Some(f) => {
                    self.stage = InstallStage::Done;
                    InstallAction::Finished(InstallOutcome::InstallerInvocationFailed(f))
                },
                None => {
                    self.stage = InstallStage::Checking;
                    InstallAction::CheckEntry
                },
            },
            InstallEvent::EntryChecked(present) => {
                if present {
                    self.stage = InstallStage::Downloading;
                    InstallAction::RunDownloader { entry: self.entry.clone() }
                } else {
                    self.stage = InstallStage::Done;
                    InstallAction::Finished(InstallOutcome::EntryMissing { entry: self.entry.clone() })
                }
            },
            InstallEvent::DownloaderRan(r) => match failure(r) {
                Some(f) => {
                    self.stage = InstallStage::Done;
                    InstallAction::Finished(InstallOutcome::DownloadFailed(f))
                },
                None => {
                    self.stage = InstallStage::Done;
                    InstallAction::Finished(InstallOutcome::Success)
                },
            },
        }
    }
}

} // verus!
