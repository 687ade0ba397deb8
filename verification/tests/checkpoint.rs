use std::collections::BTreeMap;

use codehelm::checkpoint::{
    begin_restore, judged, list_checkpoints, restore_checkpoint, Checkpoint, CheckpointDirectory,
    CheckpointListing, Entry, Manifest, RestoreStep,
};
use codehelm::permissions::{Decision, PermissionPolicy};
use codehelm::AgentError;

fn error(message: &str) -> AgentError {
    AgentError::Tool { tool: "checkpoint".to_owned(), message: message.to_owned() }
}

fn listed(ids: &[&str]) -> Result<Vec<String>, AgentError> {
    list_checkpoints(CheckpointListing::Directories(
        ids.iter()
            .map(|id| CheckpointDirectory { name: Some(id.to_string()), manifest: true })
            .collect(),
    ))
}

fn entry(path: &str, existed: bool) -> Entry {
    Entry { path: path.to_owned(), existed }
}

#[test]
fn durable_checkpoint_restores_after_owner_is_dropped() {
    let mut files = BTreeMap::from([("file.txt".to_owned(), "before".to_owned())]);
    let mut backups = BTreeMap::new();
    let mut saved = BTreeMap::new();
    let id = {
        let mut checkpoint = Checkpoint::new(1_700_000_000_000, 42);
        let path = checkpoint.capture(Some("file.txt")).unwrap().unwrap();
        backups.insert(path.clone(), files["file.txt"].clone());
        checkpoint.record(path, true);
        let id = checkpoint.id().to_owned();
        let entries = checkpoint.manifest().entries.iter();
        let copies: Vec<Entry> = entries.map(|kept| entry(&kept.path, kept.existed)).collect();
        saved.insert(id.clone(), copies);
        files.insert("file.txt".to_owned(), "after".to_owned());
        id
    };
    let ids: Vec<&str> = saved.keys().map(String::as_str).collect();
    assert_eq!(listed(&ids).unwrap(), vec![id.clone()]);

    restore_checkpoint(&id).unwrap();
    let manifest = Manifest { id: id.clone(), entries: saved.remove(&id).unwrap() };
    let mut restore = begin_restore(&id, manifest).unwrap();
    let count = loop {
        match restore.step(&PermissionPolicy::default()) {
            RestoreStep::File { path, existed } => {
                assert!(existed);
                files.insert(path.clone(), backups[&path].clone());
                restore.restored(Ok(())).unwrap();
            }
            RestoreStep::Finish { count } => break count,
            RestoreStep::Failed { error } => panic!("{error:?}"),
        }
    };
    assert_eq!(count, 1);
    assert_eq!(files["file.txt"], "before");
    let ids: Vec<&str> = saved.keys().map(String::as_str).collect();
    assert!(listed(&ids).unwrap().is_empty());
}

#[test]
fn checkpoint_ids_cannot_traverse() {
    assert!(restore_checkpoint("../escape").is_err());
}

#[test]
fn ids_are_made_of_time_and_process() {
    let checkpoint = Checkpoint::new(12, 34);
    assert_eq!(checkpoint.id(), "12-34");
    assert_eq!(restore_checkpoint("12-34"), Ok(()));
    assert_eq!(restore_checkpoint("a_B-9"), Ok(()));
    assert_eq!(restore_checkpoint(""), Err(error("invalid checkpoint id")));
    assert_eq!(restore_checkpoint("a/b"), Err(error("invalid checkpoint id")));
}

#[test]
fn only_the_first_capture_of_a_file_counts() {
    let mut checkpoint = Checkpoint::new(1, 2);
    assert_eq!(checkpoint.capture(Some("a\\b")), Ok(Some("a/b".to_owned())));
    checkpoint.record("a/b".to_owned(), false);
    assert_eq!(checkpoint.capture(Some("a/b")), Ok(None));
    assert_eq!(checkpoint.capture(Some("c")), Ok(Some("c".to_owned())));
    assert_eq!(checkpoint.capture(None), Err(error("checkpoint paths must be UTF-8")));
    assert_eq!(checkpoint.manifest().entries, vec![entry("a/b", false)]);
}

#[test]
fn checkpoints_are_listed_latest_first() {
    assert_eq!(listed(&["1-2", "3-1", "2-9"]).unwrap(), ["3-1", "2-9", "1-2"]);
    assert_eq!(list_checkpoints(CheckpointListing::Missing), Ok(vec![]));
    assert_eq!(
        list_checkpoints(CheckpointListing::Failed("denied".to_owned())),
        Err(error("denied"))
    );
    let partial = CheckpointListing::Directories(vec![
        CheckpointDirectory { name: Some("x".to_owned()), manifest: false },
        CheckpointDirectory { name: None, manifest: true },
    ]);
    assert_eq!(list_checkpoints(partial), Ok(vec![]));
}

#[test]
fn manifests_must_be_of_their_directory() {
    let manifest = Manifest { id: "other".to_owned(), entries: vec![] };
    assert_eq!(
        begin_restore("id", manifest).err(),
        Some(error("checkpoint id does not match manifest"))
    );
}

#[test]
fn denied_files_are_left_alone() {
    let manifest =
        Manifest { id: "i".to_owned(), entries: vec![entry("a", false), entry(".env", true)] };
    let mut restore = begin_restore("i", manifest).unwrap();
    let policy = PermissionPolicy::default();
    assert_eq!(
        restore.step(&policy),
        RestoreStep::File { path: "a".to_owned(), existed: false }
    );
    restore.restored(Ok(())).unwrap();
    assert_eq!(
        restore.step(&policy),
        RestoreStep::Failed { error: error("restore denied: .env") }
    );
    assert_eq!(restore.restored(Err("full".to_owned())), Err(error("full")));
    assert_eq!(
        judged(&entry("p", true), Ok(Decision::Ask)),
        RestoreStep::File { path: "p".to_owned(), existed: true }
    );
}

#[test]
fn own_checkpoints_can_be_restored() {
    let mut checkpoint = Checkpoint::new(1, 2);
    checkpoint.record("a".to_owned(), true);
    let mut restore = checkpoint.restore().unwrap();
    restore.restored(Ok(())).unwrap();
    assert_eq!(restore.step(&PermissionPolicy::default()), RestoreStep::Finish { count: 1 });
}

#[test]
fn restoring_undoes_what_was_captured_and_nothing_else() {
    let before = BTreeMap::from([("kept", "1"), ("other", "2")]);
    let entries = vec![entry("kept", true), entry("made", false)];
    let mut files = BTreeMap::from([("kept", "9"), ("made", "8"), ("other", "7")]);
    let manifest = Manifest { id: "i".to_owned(), entries };
    let mut restore = begin_restore("i", manifest).unwrap();
    while let RestoreStep::File { path, existed } = restore.step(&PermissionPolicy::default()) {
        if existed {
            files.insert("kept", before[path.as_str()]);
        } else {
            files.remove(path.as_str());
        }
        restore.restored(Ok(())).unwrap();
    }
    assert_eq!(files, BTreeMap::from([("kept", "1"), ("other", "7")]));
}

#[test]
fn later_captures_do_not_change_what_is_restored() {
    let mut files = BTreeMap::from([
        ("a".to_owned(), "1".to_owned()),
        ("b".to_owned(), "2".to_owned()),
        ("other".to_owned(), "3".to_owned()),
    ]);
    let mut backups = BTreeMap::new();
    let mut checkpoint = Checkpoint::new(1, 2);
    for (path, content) in [("a", "4"), ("new", "5"), ("a", "6"), ("b", "7"), ("new", "8")] {
        if let Some(kept) = checkpoint.capture(Some(path)).unwrap() {
            if let Some(content) = files.get(path) {
                backups.insert(kept.clone(), content.clone());
            }
            checkpoint.record(kept, files.contains_key(path));
        }
        files.insert(path.to_owned(), content.to_owned());
    }
    files.insert("other".to_owned(), "9".to_owned());
    let mut restore = checkpoint.restore().unwrap();
    let count = loop {
        match restore.step(&PermissionPolicy::default()) {
            RestoreStep::File { path, existed } => {
                if existed {
                    files.insert(path.clone(), backups[&path].clone());
                } else {
                    files.remove(&path);
                }
                restore.restored(Ok(())).unwrap();
            }
            RestoreStep::Finish { count } => break count,
            RestoreStep::Failed { error } => panic!("{error:?}"),
        }
    };
    assert_eq!(count, 3);
    assert_eq!(
        files,
        BTreeMap::from([
            ("a".to_owned(), "1".to_owned()),
            ("b".to_owned(), "2".to_owned()),
            ("other".to_owned(), "9".to_owned()),
        ])
    );
}
