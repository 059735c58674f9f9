use vault::errors::StorageError;
use vault::storage::{
    same_digest, save_begin, save_step, vault_file_name, vault_name_of, MemoryStorage, SaveAction,
    SaveEvent, SavePhase, StoragePort,
};

fn run(events: Vec<SaveEvent>) -> (Vec<&'static str>, Option<Result<(), StorageError>>) {
    let mut phase = save_begin();
    let mut actions = Vec::new();
    for event in events {
        actions.push(name(&phase));
        phase = save_step(phase, event);
    }
    actions.push(name(&phase));
    (actions, phase.outcome())
}

fn name(phase: &SavePhase) -> &'static str {
    match phase.action() {
        SaveAction::EnsureDir => "dir",
        SaveAction::CheckTarget => "check",
        SaveAction::CopyToBackup => "copy",
        SaveAction::ReadBoth => "read",
        SaveAction::WriteAndSync => "write",
        SaveAction::RestoreBackup => "restore",
        SaveAction::RemoveTarget => "remove",
        SaveAction::Finish => "finish",
    }
}

#[test]
fn save_over_an_existing_file_backs_up_verifies_and_writes() {
    let (actions, outcome) = run(vec![
        SaveEvent::Completed,
        SaveEvent::Exists(true),
        SaveEvent::Completed,
        SaveEvent::Contents(vec![1, 2, 3], vec![1, 2, 3]),
        SaveEvent::Completed,
    ]);
    assert_eq!(actions, vec!["dir", "check", "copy", "read", "write", "finish"]);
    assert_eq!(outcome, Some(Ok(())));
}

#[test]
fn save_of_a_new_file_writes_without_backup() {
    let (actions, outcome) =
        run(vec![SaveEvent::Completed, SaveEvent::Exists(false), SaveEvent::Completed]);
    assert_eq!(actions, vec!["dir", "check", "write", "finish"]);
    assert_eq!(outcome, Some(Ok(())));
}

#[test]
fn failed_write_after_verified_backup_restores_it() {
    let (actions, outcome) = run(vec![
        SaveEvent::Completed,
        SaveEvent::Exists(true),
        SaveEvent::Completed,
        SaveEvent::Contents(vec![9; 40], vec![9; 40]),
        SaveEvent::Failed("disk full".to_string()),
        SaveEvent::Completed,
    ]);
    assert_eq!(actions, vec!["dir", "check", "copy", "read", "write", "restore", "finish"]);
    assert_eq!(outcome, Some(Err(StorageError::IntegrityError)));
}

#[test]
fn failed_first_write_removes_the_new_file() {
    let (actions, outcome) = run(vec![
        SaveEvent::Completed,
        SaveEvent::Exists(false),
        SaveEvent::Failed("disk full".to_string()),
        SaveEvent::Completed,
    ]);
    assert_eq!(actions, vec!["dir", "check", "write", "remove", "finish"]);
    assert_eq!(outcome, Some(Err(StorageError::IntegrityError)));
}

#[test]
fn failed_restore_reports_the_io_error() {
    let (_, outcome) = run(vec![
        SaveEvent::Completed,
        SaveEvent::Exists(true),
        SaveEvent::Completed,
        SaveEvent::Contents(vec![9], vec![9]),
        SaveEvent::Failed("disk full".to_string()),
        SaveEvent::Failed("gone".to_string()),
    ]);
    assert_eq!(outcome, Some(Err(StorageError::Io("gone".to_string()))));
}

#[test]
fn mismatching_backup_stops_before_writing() {
    let (actions, outcome) = run(vec![
        SaveEvent::Completed,
        SaveEvent::Exists(true),
        SaveEvent::Completed,
        SaveEvent::Contents(vec![1, 2, 3], vec![1, 2, 4]),
    ]);
    assert_eq!(actions, vec!["dir", "check", "copy", "read", "finish"]);
    assert_eq!(outcome, Some(Err(StorageError::IntegrityError)));
}

#[test]
fn failed_copy_stops_with_io_error() {
    let (actions, outcome) = run(vec![
        SaveEvent::Completed,
        SaveEvent::Exists(true),
        SaveEvent::Failed("denied".to_string()),
    ]);
    assert_eq!(actions, vec!["dir", "check", "copy", "finish"]);
    assert_eq!(outcome, Some(Err(StorageError::Io("denied".to_string()))));
}

#[test]
fn unexpected_outcome_is_an_integrity_error() {
    let (_, outcome) = run(vec![SaveEvent::Exists(true)]);
    assert_eq!(outcome, Some(Err(StorageError::IntegrityError)));
}

#[test]
fn unfinished_save_has_no_outcome() {
    assert_eq!(save_begin().outcome(), None);
}

#[test]
fn digests_tell_contents_apart() {
    assert!(same_digest(b"abc", b"abc"));
    assert!(!same_digest(b"abc", b"abd"));
    assert!(same_digest(b"", b""));
}

#[test]
fn vault_file_names() {
    assert_eq!(vault_file_name("personal"), "personal.vault");
    assert_eq!(vault_name_of("personal.vault"), Some("personal".to_string()));
    assert_eq!(vault_name_of("a.b.vault"), Some("a.b".to_string()));
    assert_eq!(vault_name_of("ünï.vault"), Some("ünï".to_string()));
    assert_eq!(vault_name_of(".vault"), None);
    assert_eq!(vault_name_of("personal.bkp"), None);
    assert_eq!(vault_name_of("vault"), None);
    assert_eq!(vault_name_of("personal.vaults"), None);
}

#[test]
fn memory_store_keeps_files_by_name() {
    let mut s = MemoryStorage::new();
    assert!(!s.vault_exists());
    assert!(s.load().is_err());
    s.set_path("one".to_string());
    s.save(&[1, 2]).unwrap();
    assert!(s.vault_exists());
    assert_eq!(s.load(), Ok(vec![1, 2]));
    s.save(&[3]).unwrap();
    assert_eq!(s.load(), Ok(vec![3]));
    s.set_path("two".to_string());
    assert!(!s.vault_exists());
    s.save(&[]).unwrap();
    assert_eq!(s.list_vaults(), Ok(vec!["one".to_string(), "two".to_string()]));
}
