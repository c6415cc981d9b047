use gvm::engine::{
    InstallAction, InstallEvent, InstallOutcome, InstallSession, InstallStage, ProcessResult,
    SubprocessFailure, UseAction, UseError, UseEvent, UseSession, UseStage,
};
use gvm::version::VersionId;

const BIN: &str = "/home/u/go/bin";

fn inspected(entry_exists: bool) -> UseEvent {
    UseEvent::Inspected { entry_exists, previous: None }
}

/// Drives a session up to the point where the new link is to be made.
fn up_to_link(s: &mut UseSession) {
    s.step(inspected(true));
    s.step(UseEvent::TempCleared(true));
    s.step(UseEvent::TargetChecked(true));
}

#[test]
fn use_refuses_missing_version() {
    let mut s = UseSession::new(BIN, "1.22.0");
    match s.step(inspected(false)) {
        UseAction::Finished(Err(UseError::NotInstalled { version })) => assert_eq!(version, "1.22.0"),
        _ => panic!("expected a refusal"),
    }
    assert_eq!(s.stage, UseStage::Done);
}

#[test]
fn use_links_aside_then_renames() {
    let mut s = UseSession::new(BIN, "go1.21.5");
    assert_eq!(s.pointer, "/home/u/go/bin/go");
    assert_eq!(s.temp, "/home/u/go/bin/.go-next");
    let previous = Some(VersionId { major: 1, minor: 20, patch: 0 });
    match s.step(UseEvent::Inspected { entry_exists: true, previous }) {
        UseAction::ClearTemp { temp } => assert_eq!(temp, "/home/u/go/bin/.go-next"),
        _ => panic!("expected clearing"),
    }
    assert!(matches!(s.step(UseEvent::TempCleared(true)), UseAction::CheckTarget));
    match s.step(UseEvent::TargetChecked(true)) {
        UseAction::CreateLink { link, target } => {
            assert_eq!(link, "/home/u/go/bin/.go-next");
            assert_eq!(target, "/home/u/go/bin/go1.21.5");
        }
        _ => panic!("expected a link"),
    }
    match s.step(UseEvent::Linked(Ok(()))) {
        UseAction::ReplacePointer { from, to } => {
            assert_eq!(from, "/home/u/go/bin/.go-next");
            assert_eq!(to, "/home/u/go/bin/go");
        }
        _ => panic!("expected a rename"),
    }
    match s.step(UseEvent::Replaced(Ok(()))) {
        UseAction::Finished(Ok(sw)) => {
            assert_eq!(sw.now, VersionId { major: 1, minor: 21, patch: 5 });
            assert_eq!(sw.previous, previous);
        }
        _ => panic!("expected success"),
    }
}

#[test]
fn use_reports_blocked_temp() {
    let mut s = UseSession::new(BIN, "1.21.5");
    s.step(inspected(true));
    match s.step(UseEvent::TempCleared(false)) {
        UseAction::Finished(Err(e)) => {
            assert!(e.is_link_creation());
            assert!(matches!(e, UseError::TempBlocked { .. }));
        }
        _ => panic!("expected a failure"),
    }
}

#[test]
fn use_reports_replace_failure_and_cleans_up() {
    let mut s = UseSession::new(BIN, "1.21.5");
    up_to_link(&mut s);
    s.step(UseEvent::Linked(Ok(())));
    match s.step(UseEvent::Replaced(Err("is a directory".to_string()))) {
        UseAction::Abandon { temp, error: UseError::RemovalFailed { cause } } => {
            assert_eq!(temp, "/home/u/go/bin/.go-next");
            assert_eq!(cause, "is a directory");
        }
        _ => panic!("expected a replace failure"),
    }
}

#[test]
fn use_reports_link_failure() {
    let mut s = UseSession::new(BIN, "1.21.5");
    up_to_link(&mut s);
    match s.step(UseEvent::Linked(Err("read-only".to_string()))) {
        UseAction::Finished(Err(e)) => {
            assert!(e.is_link_creation());
            assert!(matches!(e, UseError::LinkCreationFailed { .. }));
        }
        _ => panic!("expected a link failure"),
    }
    assert_eq!(s.stage, UseStage::Done);
}

#[test]
fn use_on_vanished_entry_fails_link_creation() {
    let mut s = UseSession::new(BIN, "1.21.5");
    s.step(inspected(true));
    s.step(UseEvent::TempCleared(true));
    match s.step(UseEvent::TargetChecked(false)) {
        UseAction::Finished(Err(e)) => {
            assert!(e.is_link_creation());
            match e {
                UseError::TargetMissing { target } => assert_eq!(target, "/home/u/go/bin/go1.21.5"),
                _ => panic!("expected a missing target"),
            }
        }
        _ => panic!("expected a failure"),
    }
    assert_eq!(s.stage, UseStage::Done);
}

#[test]
fn use_same_version_again_succeeds() {
    for _ in 0..2 {
        let mut s = UseSession::new(BIN, "1.21.5");
        let prev = Some(VersionId::parse("1.21.5"));
        s.step(UseEvent::Inspected { entry_exists: true, previous: prev });
        s.step(UseEvent::TempCleared(true));
        s.step(UseEvent::TargetChecked(true));
        s.step(UseEvent::Linked(Ok(())));
        match s.step(UseEvent::Replaced(Ok(()))) {
            UseAction::Finished(Ok(sw)) => assert_eq!(Some(sw.now), prev),
            _ => panic!("expected success"),
        }
    }
}

#[test]
fn use_accepts_only_expected_events() {
    let s = UseSession::new(BIN, "1.21.5");
    assert!(s.accepts(&inspected(true)));
    assert!(!s.accepts(&UseEvent::Linked(Ok(()))));
    assert!(!s.accepts(&UseEvent::Replaced(Ok(()))));
}

#[test]
fn install_names_package() {
    let s = InstallSession::new(BIN, "1.22.11");
    assert_eq!(s.package, "golang.org/dl/go1.22.11@latest");
    assert_eq!(s.entry, "/home/u/go/bin/go1.22.11");
    assert_eq!(s.version_num, "1.22.11");
}

#[test]
fn install_skips_installed() {
    let mut s = InstallSession::new(BIN, "1.22.11");
    assert!(matches!(
        s.step(InstallEvent::Inspected { entry_exists: true }),
        InstallAction::Finished(InstallOutcome::AlreadyInstalled)
    ));
    assert_eq!(s.stage, InstallStage::Done);
}

#[test]
fn install_full_run_succeeds() {
    let mut s = InstallSession::new(BIN, "go1.22.11");
    match s.step(InstallEvent::Inspected { entry_exists: false }) {
        InstallAction::RunInstaller { package } => assert_eq!(package, "golang.org/dl/go1.22.11@latest"),
        _ => panic!("expected the installer"),
    }
    let ok = ProcessResult::Exited { success: true, code: Some(0) };
    assert!(matches!(s.step(InstallEvent::InstallerRan(ok)), InstallAction::CheckEntry));
    match s.step(InstallEvent::EntryChecked(true)) {
        InstallAction::RunDownloader { entry } => assert_eq!(entry, "/home/u/go/bin/go1.22.11"),
        _ => panic!("expected the download"),
    }
    let ok = ProcessResult::Exited { success: true, code: Some(0) };
    assert!(matches!(
        s.step(InstallEvent::DownloaderRan(ok)),
        InstallAction::Finished(InstallOutcome::Success)
    ));
}

#[test]
fn install_reports_installer_exit_code() {
    let mut s = InstallSession::new(BIN, "1.22.11");
    s.step(InstallEvent::Inspected { entry_exists: false });
    let failed = ProcessResult::Exited { success: false, code: Some(2) };
    assert!(matches!(
        s.step(InstallEvent::InstallerRan(failed)),
        InstallAction::Finished(InstallOutcome::InstallerInvocationFailed(SubprocessFailure::ExitCode { code: Some(2) }))
    ));
}

#[test]
fn install_reports_spawn_failure() {
    let mut s = InstallSession::new(BIN, "1.22.11");
    s.step(InstallEvent::Inspected { entry_exists: false });
    let failed = ProcessResult::SpawnFailed { cause: "not found".to_string() };
    match s.step(InstallEvent::InstallerRan(failed)) {
        InstallAction::Finished(InstallOutcome::InstallerInvocationFailed(SubprocessFailure::SpawnFailed { cause })) => {
            assert_eq!(cause, "not found")
        }
        _ => panic!("expected a spawn failure"),
    }
}

#[test]
fn install_rechecks_entry() {
    let mut s = InstallSession::new(BIN, "1.22.11");
    s.step(InstallEvent::Inspected { entry_exists: false });
    s.step(InstallEvent::InstallerRan(ProcessResult::Exited { success: true, code: Some(0) }));
    match s.step(InstallEvent::EntryChecked(false)) {
        InstallAction::Finished(InstallOutcome::EntryMissing { entry }) => {
            assert_eq!(entry, "/home/u/go/bin/go1.22.11")
        }
        _ => panic!("expected a missing entry"),
    }
}

#[test]
fn install_reports_download_failure() {
    let mut s = InstallSession::new(BIN, "1.22.11");
    s.step(InstallEvent::Inspected { entry_exists: false });
    s.step(InstallEvent::InstallerRan(ProcessResult::Exited { success: true, code: Some(0) }));
    s.step(InstallEvent::EntryChecked(true));
    let failed = ProcessResult::Exited { success: false, code: None };
    assert!(matches!(
        s.step(InstallEvent::DownloaderRan(failed)),
        InstallAction::Finished(InstallOutcome::DownloadFailed(SubprocessFailure::ExitCode { code: None }))
    ));
}
