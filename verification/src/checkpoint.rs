//! Checkpoints: what files were before a run changed them.
use vstd::prelude::*;

use crate::error;
use crate::error::{tool_error, AgentError, ErrorV};
use crate::permissions;
use crate::permissions::{Decision, PermissionError, PermissionErrorV, PermissionPolicy};
use crate::text;
use crate::text::{
    cat2, cat3, decimal, forward_slashes_of, from_chars, plain_id, same_text, sort, to_chars,
};

verus! {

/// A file of a checkpoint: where it is, and whether it was there.
#[derive(Debug, Clone, PartialEq, Eq)]
pub struct Entry {
    pub path: String,
    pub existed: bool,
}

/// A file of a checkpoint, in the model.
#[verifier::ext_equal]
pub struct EntryV {
    pub path: Seq<char>,
    pub existed: bool,
}

impl View for Entry {
    type V = EntryV;

    open spec fn view(&self) -> EntryV {
        EntryV { path: self.path@, existed: self.existed }
    }
}

/// What the files of a checkpoint say.
pub open spec fn entry_views(entries: Seq<Entry>) -> Seq<EntryV> {
    entries.map_values(|entry: Entry| entry@)
}

/// What is written down of a checkpoint.
#[derive(Debug, PartialEq, Eq)]
pub struct Manifest {
    pub id: String,
    pub entries: Vec<Entry>,
}

/// The error of a checkpoint.
pub open spec fn checkpoint_failure(message: Seq<char>) -> ErrorV {
    ErrorV::Tool { tool: "checkpoint"@, message }
}

/// The error of a checkpoint.
pub fn checkpoint_error(message: String) -> (error: AgentError)
    ensures
        error@ == checkpoint_failure(message@),
{
    tool_error("checkpoint", message)
}

/// A checkpoint that is being taken.
pub struct Checkpoint {
    manifest: Manifest,
}

/// A checkpoint, in the model.
#[verifier::ext_equal]
pub struct CheckpointV {
    pub id: Seq<char>,
    pub entries: Seq<EntryV>,
}

impl View for Checkpoint {
    type V = CheckpointV;

    closed spec fn view(&self) -> CheckpointV {
        CheckpointV { id: self.manifest.id@, entries: entry_views(self.manifest.entries@) }
    }
}

/// Whether a file is part of a checkpoint.
pub open spec fn is_captured(entries: Seq<EntryV>, path: Seq<char>) -> bool {
    exists|i: int| 0 <= i < entries.len() && (#[trigger] entries[i]).path == path
}

/// Whether each file is part of a checkpoint once.
pub open spec fn captured_once(entries: Seq<EntryV>) -> bool {
    forall|i: int, j: int|
        0 <= i < j < entries.len() ==> (#[trigger] entries[i]).path != (#[trigger] entries[j]).path
}

/// The name of a checkpoint, made of numbers.
pub open spec fn made_id(millis: u128, process: u32) -> Seq<char> {
    text::decimal_text(millis as nat) + "-"@ + text::decimal_text(process as nat)
}

/// A checkpoint that was taken can be restored by its name.
pub proof fn law_made_ids_are_valid(millis: u128, process: u32)
    ensures
        text::is_plain_id(made_id(millis, process)),
{
    text::lemma_decimal_is_plain(millis as nat);
    text::lemma_decimal_is_plain(process as nat);
    text::lemma_dashed_is_plain(
        text::decimal_text(millis as nat),
        text::decimal_text(process as nat),
    );
}

impl Checkpoint {
    /// A checkpoint of nothing, named after the time and the process that takes it.
    pub fn new(millis: u128, process: u32) -> (checkpoint: Self)
        ensures
            checkpoint@ == (CheckpointV {
                id: made_id(millis, process),
                entries: seq![],
            }),
            captured_once(checkpoint@.entries),
    {
        let id = cat3(decimal(millis).as_str(), "-", decimal(process as u128).as_str());
        let checkpoint = Checkpoint { manifest: Manifest { id, entries: Vec::new() } };
        assert(checkpoint@.entries == Seq::<EntryV>::empty());
        checkpoint
    }

    /// The name of the checkpoint.
    pub fn id(&self) -> (id: &str)
        ensures
            id@ == self@.id,
    {
        self.manifest.id.as_str()
    }

    /// What is written down of the checkpoint.
    pub fn manifest(&self) -> (manifest: &Manifest)
        ensures
            manifest.id@ == self@.id,
            entry_views(manifest.entries@) == self@.entries,
    {
        &self.manifest
    }

    /// Under which path a file is to be captured; none where it was captured before. A path that is
    /// no text cannot be captured.
    pub fn capture(&self, relative: Option<&str>) -> (path: Result<Option<String>, AgentError>)
        ensures
            match relative {
                None => path matches Err(error) && error@ == checkpoint_failure(
                    "checkpoint paths must be UTF-8"@,
                ),
                Some(r) => path matches Ok(p) && match p {
                    Some(p) => p@ == text::forward_slashes(r@) && !is_captured(self@.entries, p@),
                    None => is_captured(self@.entries, text::forward_slashes(r@)),
                },
            },
    {
        let path = match relative {
            Some(r) => from_chars(forward_slashes_of(to_chars(r).as_slice()).as_slice()),
            None => {
                return Err(checkpoint_error("checkpoint paths must be UTF-8".to_owned()));
            },
        };
        for i in 0..self.manifest.entries.len()
            invariant
                relative matches Some(r) && path@ == text::forward_slashes(r@),
                forall|j: int| 0 <= j < i ==> (#[trigger] self@.entries[j]).path != path@,
        {
            assert(self@.entries[i as int].path == self.manifest.entries@[i as int].path@);
            if same_text(self.manifest.entries[i].path.as_str(), path.as_str()) {
                return Ok(None);
            }
        }
        Ok(Some(path))
    }

    /// Records a file, once what it was is kept.
    pub fn record(&mut self, path: String, existed: bool)
        requires
            captured_once(old(self)@.entries),
            !is_captured(old(self)@.entries, path@),
        ensures
            final(self)@ == (CheckpointV {
                entries: old(self)@.entries.push(EntryV { path: path@, existed }),
                ..old(self)@
            }),
            captured_once(final(self)@.entries),
    {
        let ghost before = self@.entries;
        self.manifest.entries.push(Entry { path, existed });
        assert(self@.entries == before.push(EntryV { path: path@, existed }));
    }

    /// Starts to put the files back as they were.
    pub fn restore(self) -> (restore: Result<Restore, AgentError>)
        ensures
            restore_result(restore) == restore_start(self@.id, self@),
    {
        let id = self.manifest.id.clone();
        begin_restore(id.as_str(), self.manifest)
    }
}

/// Capturing a file again changes nothing: what is kept of it is what it was at first.
pub proof fn law_first_capture_counts(entries: Seq<EntryV>, path: Seq<char>, existed: bool)
    requires
        captured_once(entries),
        !is_captured(entries, path),
    ensures
        captured_once(entries.push(EntryV { path, existed })),
        is_captured(entries.push(EntryV { path, existed }), path),
{
    let grown = entries.push(EntryV { path, existed });
    assert(grown[entries.len() as int].path == path);
}

/// A directory in the place where checkpoints are kept.
#[derive(Debug, Clone, PartialEq, Eq)]
pub struct CheckpointDirectory {
    /// Its name, where that is a text.
    pub name: Option<String>,
    /// Whether it has a manifest.
    pub manifest: bool,
}

/// The names of the directories that are checkpoints.
pub open spec fn checkpoint_names(directories: Seq<CheckpointDirectory>) -> Seq<Seq<char>>
    decreases directories.len(),
{
    if directories.len() == 0 {
        seq![]
    } else {
        let front = checkpoint_names(directories.drop_last());
        let last = directories.last();
        match last.name {
            Some(name) => if last.manifest {
                front.push(name@)
            } else {
                front
            },
            None => front,
        }
    }
}

/// What looking for checkpoints gave.
pub enum CheckpointListing {
    Missing,
    Failed(String),
    Directories(Vec<CheckpointDirectory>),
}

/// The checkpoints that exist, the last name first.
pub open spec fn listed_checkpoints(listing: CheckpointListing) -> Result<Seq<Seq<char>>, ErrorV> {
    match listing {
        CheckpointListing::Missing => Ok(seq![]),
        CheckpointListing::Failed(source) => Err(checkpoint_failure(source@)),
        CheckpointListing::Directories(directories) => Ok(
            text::sorted_texts(checkpoint_names(directories@)).reverse(),
        ),
    }
}

/// The checkpoints that exist, the last name first.
pub fn list_checkpoints(listing: CheckpointListing) -> (ids: Result<Vec<String>, AgentError>)
    ensures
        match ids {
            Ok(list) => listed_checkpoints(listing) == Ok::<Seq<Seq<char>>, ErrorV>(
                text::views(list@),
            ),
            Err(error) => listed_checkpoints(listing) == Err::<Seq<Seq<char>>, ErrorV>(error@),
        },
{
    let directories = match listing {
        CheckpointListing::Missing => {
            let none: Vec<String> = Vec::new();
            assert(text::views(none@) == Seq::<Seq<char>>::empty());
            return Ok(none);
        },
        CheckpointListing::Failed(source) => {
            return Err(checkpoint_error(source));
        },
        CheckpointListing::Directories(directories) => directories,
    };
    let mut names: Vec<String> = Vec::new();
    assert(directories@.take(0) == Seq::<CheckpointDirectory>::empty());
    for i in 0..directories.len()
        invariant
            text::views(names@) == checkpoint_names(directories@.take(i as int)),
    {
        let ghost before = names@;
        proof {
            assert(directories@.take(i + 1).drop_last() == directories@.take(i as int));
            assert(directories@.take(i + 1).last() == directories@[i as int]);
        }
        if let Some(name) = &directories[i].name {
            if directories[i].manifest {
                names.push(name.clone());
                assert(text::views(names@) == text::views(before).push(name@));
            }
        }
    }
    assert(directories@.take(directories.len() as int) == directories@);
    let sorted = sort(names);
    let ghost order = text::views(sorted@);
    let mut ids: Vec<String> = Vec::new();
    let mut i = sorted.len();
    while i > 0
        invariant
            i <= sorted.len(),
            order == text::views(sorted@),
            text::views(ids@) == order.reverse().take(order.len() - i),
        decreases i,
    {
        i -= 1;
        let ghost before = ids@;
        let id = sorted[i].clone();
        ids.push(id);
        proof {
            let at = order.len() - i - 1;
            assert(text::views(ids@) == text::views(before).push(id@));
            assert(order.reverse()[at] == order[i as int]);
            assert(order.reverse().take(at + 1) == order.reverse().take(at).push(
                order.reverse()[at],
            ));
        }
    }
    assert(order.reverse().take(order.len() as int) == order.reverse());
    Ok(ids)
}

/// Files that are being put back.
pub struct Restore {
    entries: Vec<Entry>,
    next: usize,
}

/// Files that are being put back, in the model.
#[verifier::ext_equal]
pub struct RestoreV {
    pub entries: Seq<EntryV>,
    pub next: nat,
}

impl View for Restore {
    type V = RestoreV;

    closed spec fn view(&self) -> RestoreV {
        RestoreV { entries: entry_views(self.entries@), next: self.next as nat }
    }
}

/// What starting to put files back gives.
pub open spec fn restore_result(result: Result<Restore, AgentError>) -> Result<RestoreV, ErrorV> {
    match result {
        Ok(restore) => Ok(restore@),
        Err(error) => Err(error@),
    }
}

/// What starting to put back the files of a manifest gives: it must be of the checkpoint.
pub open spec fn restore_start(id: Seq<char>, manifest: CheckpointV) -> Result<RestoreV, ErrorV> {
    if manifest.id != id {
        Err(checkpoint_failure("checkpoint id does not match manifest"@))
    } else {
        Ok(RestoreV { entries: manifest.entries, next: 0 })
    }
}

/// Whether a text may name a checkpoint.
pub fn restore_checkpoint(id: &str) -> (result: Result<(), AgentError>)
    ensures
        error::unit_result(result) == if text::is_plain_id(id@) {
            Ok::<(), ErrorV>(())
        } else {
            Err(checkpoint_failure("invalid checkpoint id"@))
        },
{
    if plain_id(id) {
        Ok(())
    } else {
        Err(checkpoint_error("invalid checkpoint id".to_owned()))
    }
}

/// Starts to put back the files of a manifest, read for a checkpoint.
pub fn begin_restore(id: &str, manifest: Manifest) -> (restore: Result<Restore, AgentError>)
    ensures
        restore_result(restore) == restore_start(
            id@,
            CheckpointV { id: manifest.id@, entries: entry_views(manifest.entries@) },
        ),
{
    if !same_text(manifest.id.as_str(), id) {
        return Err(checkpoint_error("checkpoint id does not match manifest".to_owned()));
    }
    Ok(Restore { entries: manifest.entries, next: 0 })
}

/// What to do to put files back.
#[derive(Debug, PartialEq, Eq)]
pub enum RestoreStep {
    /// Resolve the path inside the root, then write back what was kept of it or remove it.
    File { path: String, existed: bool },
    /// Remove the checkpoint: so many files are back.
    Finish { count: usize },
    /// Nothing: it failed.
    Failed { error: AgentError },
}

/// What to do to put files back, in the model.
#[verifier::ext_equal]
pub enum RestoreStepV {
    File { path: Seq<char>, existed: bool },
    Finish { count: nat },
    Failed { error: ErrorV },
}

impl View for RestoreStep {
    type V = RestoreStepV;

    open spec fn view(&self) -> RestoreStepV {
        match *self {
            RestoreStep::File { path, existed } => RestoreStepV::File { path: path@, existed },
            RestoreStep::Finish { count } => RestoreStepV::Finish { count: count as nat },
            RestoreStep::Failed { error } => RestoreStepV::Failed { error: error@ },
        }
    }
}

/// What to do about a file, given the decision on writing it.
pub open spec fn file_verdict(entry: EntryV, decision: Result<Decision, PermissionErrorV>) -> RestoreStepV {
    match decision {
        Err(error) => RestoreStepV::Failed {
            error: checkpoint_failure(permissions::permission_text(error)),
        },
        Ok(Decision::Deny) => RestoreStepV::Failed {
            error: checkpoint_failure("restore denied: "@ + entry.path),
        },
        Ok(_) => RestoreStepV::File { path: entry.path, existed: entry.existed },
    }
}

/// What to do about a file, given the decision on writing it.
pub fn judged(entry: &Entry, decision: Result<Decision, PermissionError>) -> (step: RestoreStep)
    ensures
        step@ == file_verdict(entry@, permissions::decision_result(decision)),
{
    match decision {
        Err(error) => RestoreStep::Failed { error: checkpoint_error(error.describe()) },
        Ok(Decision::Deny) => RestoreStep::Failed {
            error: checkpoint_error(cat2("restore denied: ", entry.path.as_str())),
        },
        Ok(_) => RestoreStep::File { path: entry.path.clone(), existed: entry.existed },
    }
}

impl Restore {
    /// What to do next.
    pub fn step(&self, policy: &PermissionPolicy) -> (step: RestoreStep)
        ensures
            if self@.next >= self@.entries.len() {
                step@ == (RestoreStepV::Finish { count: self@.entries.len() })
            } else {
                exists|decision: Result<Decision, PermissionErrorV>|
                    {
                        &&& permissions::writes_as(
                            text::views(policy.deny_write@),
                            text::views(policy.ask_write@),
                            self@.entries[self@.next as int].path,
                            decision,
                        )
                        &&& step@ == #[trigger] file_verdict(
                            self@.entries[self@.next as int],
                            decision,
                        )
                    }
            },
    {
        if self.next >= self.entries.len() {
            return RestoreStep::Finish { count: self.entries.len() };
        }
        let entry = &self.entries[self.next];
        assert(self@.entries[self@.next as int] == entry@);
        let decision = policy.write_decision(entry.path.as_str());
        let ghost given = permissions::decision_result(decision);
        let step = judged(entry, decision);
        assert(step@ == file_verdict(self@.entries[self@.next as int], given));
        step
    }

    /// Takes note of how putting back the file went that was asked for last: with the next one, or
    /// not at all.
    pub fn restored(&mut self, result: Result<(), String>) -> (outcome: Result<(), AgentError>)
        requires
            old(self)@.next < old(self)@.entries.len(),
        ensures
            match result {
                Ok(()) => {
                    &&& outcome is Ok
                    &&& final(self)@ == (RestoreV { next: old(self)@.next + 1, ..old(self)@ })
                },
                Err(source) => {
                    &&& outcome matches Err(error) && error@ == checkpoint_failure(source@)
                    &&& final(self)@ == old(self)@
                },
            },
    {
        match result {
            Ok(()) => {
                assert(self.next < self.entries.len());
                self.next = self.next + 1;
                Ok(())
            },
            Err(source) => Err(checkpoint_error(source)),
        }
    }
}

/// A file is put back exactly where the policy decides on writing it and does not deny it, as its
/// entry says.
pub proof fn law_denied_files_are_not_restored(
    entry: EntryV,
    decision: Result<Decision, PermissionErrorV>,
)
    ensures
        file_verdict(entry, decision) is File <==> decision is Ok && decision->Ok_0
            != Decision::Deny,
        file_verdict(entry, decision) is File ==> file_verdict(entry, decision) == (
        RestoreStepV::File { path: entry.path, existed: entry.existed }),
{
}

/// The files once one of them is put back as its step says: from what was kept of it where it
/// existed, else by removing it.
pub open spec fn put_back(
    files: Map<Seq<char>, Seq<u8>>,
    kept: Map<Seq<char>, Seq<u8>>,
    entry: EntryV,
) -> Map<Seq<char>, Seq<u8>> {
    if entry.existed {
        files.insert(entry.path, kept[entry.path])
    } else {
        files.remove(entry.path)
    }
}

/// The files once the first `n` entries are put back.
pub open spec fn all_put_back(
    files: Map<Seq<char>, Seq<u8>>,
    kept: Map<Seq<char>, Seq<u8>>,
    entries: Seq<EntryV>,
    n: nat,
) -> Map<Seq<char>, Seq<u8>>
    decreases n,
{
    if n == 0 {
        files
    } else {
        put_back(
            all_put_back(files, kept, entries, (n - 1) as nat),
            kept,
            entries[n - 1],
        )
    }
}

/// Whether a file is the same here and there: it is in neither, or in both with one content.
pub open spec fn same_file(
    left: Map<Seq<char>, Seq<u8>>,
    right: Map<Seq<char>, Seq<u8>>,
    path: Seq<char>,
) -> bool {
    &&& left.dom().contains(path) == right.dom().contains(path)
    &&& left.dom().contains(path) ==> left[path] == right[path]
}

/// Whether entries and what was kept tell how files were.
pub open spec fn tells_of(
    entries: Seq<EntryV>,
    kept: Map<Seq<char>, Seq<u8>>,
    files: Map<Seq<char>, Seq<u8>>,
) -> bool {
    forall|i: int|
        0 <= i < entries.len() ==> {
            let entry = #[trigger] entries[i];
            &&& entry.existed == files.dom().contains(entry.path)
            &&& entry.existed ==> kept[entry.path] == files[entry.path]
        }
}

proof fn lemma_put_back(
    before: Map<Seq<char>, Seq<u8>>,
    now: Map<Seq<char>, Seq<u8>>,
    kept: Map<Seq<char>, Seq<u8>>,
    entries: Seq<EntryV>,
    n: nat,
    path: Seq<char>,
)
    requires
        tells_of(entries, kept, before),
        n <= entries.len(),
    ensures
        same_file(
            all_put_back(now, kept, entries, n),
            if is_captured(entries.take(n as int), path) {
                before
            } else {
                now
            },
            path,
        ),
    decreases n,
{
    if n > 0 {
        let m = (n - 1) as nat;
        lemma_put_back(before, now, kept, entries, m, path);
        let entry = entries[n - 1];
        assert(entries.take(n as int) == entries.take(m as int).push(entry));
        if entry.path == path {
            assert(entries.take(n as int)[n - 1].path == path);
        } else if is_captured(entries.take(m as int), path) {
            let i = choose|i: int|
                0 <= i < m && (#[trigger] entries.take(m as int)[i]).path == path;
            assert(entries.take(n as int)[i].path == path);
        } else if is_captured(entries.take(n as int), path) {
            let i = choose|i: int|
                0 <= i < n && (#[trigger] entries.take(n as int)[i]).path == path;
            assert(entries.take(m as int)[i].path == path);
        }
    }
}

/// Restoring a checkpoint undoes what was done to the files that were captured, and nothing else:
/// each of them is what it was when it was captured, and every other file is what it is now.
pub proof fn law_restoring_brings_back(
    before: Map<Seq<char>, Seq<u8>>,
    now: Map<Seq<char>, Seq<u8>>,
    kept: Map<Seq<char>, Seq<u8>>,
    entries: Seq<EntryV>,
    path: Seq<char>,
)
    requires
        tells_of(entries, kept, before),
    ensures
        is_captured(entries, path) ==> same_file(
            all_put_back(now, kept, entries, entries.len()),
            before,
            path,
        ),
        !is_captured(entries, path) ==> same_file(
            all_put_back(now, kept, entries, entries.len()),
            now,
            path,
        ),
{
    lemma_put_back(before, now, kept, entries, entries.len(), path);
    assert(entries.take(entries.len() as int) == entries);
}

/// What happens between the start of a checkpoint and its restoring.
#[verifier::ext_equal]
pub enum Happening {
    /// A file is captured.
    Capture { path: Seq<char> },
    /// A file gets a content, or goes away.
    Edit { path: Seq<char>, content: Option<Seq<u8>> },
}

/// A checkpoint among the files that it is taken of.
#[verifier::ext_equal]
pub struct Undertaking {
    pub files: Map<Seq<char>, Seq<u8>>,
    pub entries: Seq<EntryV>,
    /// What was kept of the files that existed when they were captured.
    pub kept: Map<Seq<char>, Seq<u8>>,
    /// What each captured file was when it was captured first.
    pub first: Map<Seq<char>, Option<Seq<u8>>>,
}

/// What a file holds, where it exists.
pub open spec fn content(files: Map<Seq<char>, Seq<u8>>, path: Seq<char>) -> Option<Seq<u8>> {
    if files.dom().contains(path) {
        Some(files[path])
    } else {
        None
    }
}

/// A checkpoint after something happened. A file that was captured before is not captured again.
pub open spec fn happened(before: Undertaking, what: Happening) -> Undertaking {
    match what {
        Happening::Capture { path } => if is_captured(before.entries, path) {
            before
        } else {
            let existed = before.files.dom().contains(path);
            Undertaking {
                entries: before.entries.push(EntryV { path, existed }),
                kept: if existed {
                    before.kept.insert(path, before.files[path])
                } else {
                    before.kept
                },
                first: before.first.insert(path, content(before.files, path)),
                ..before
            }
        },
        Happening::Edit { path, content } => Undertaking {
            files: match content {
                Some(bytes) => before.files.insert(path, bytes),
                None => before.files.remove(path),
            },
            ..before
        },
    }
}

/// A checkpoint of nothing among files, after a row of happenings.
pub open spec fn undertaken(files: Map<Seq<char>, Seq<u8>>, row: Seq<Happening>) -> Undertaking
    decreases row.len(),
{
    if row.len() == 0 {
        Undertaking { files, entries: seq![], kept: Map::empty(), first: Map::empty() }
    } else {
        happened(undertaken(files, row.drop_last()), row.last())
    }
}

/// Whether a checkpoint tells of its files what they were when they were captured first.
pub open spec fn remembers(state: Undertaking) -> bool {
    &&& captured_once(state.entries)
    &&& forall|path: Seq<char>|
        #[trigger] state.first.dom().contains(path) == is_captured(state.entries, path)
    &&& forall|i: int|
        0 <= i < state.entries.len() ==> {
            let entry = #[trigger] state.entries[i];
            let first = state.first[entry.path];
            &&& state.first.dom().contains(entry.path)
            &&& entry.existed == first is Some
            &&& entry.existed ==> state.kept[entry.path] == first->0
        }
}

proof fn lemma_undertaken_remembers(files: Map<Seq<char>, Seq<u8>>, row: Seq<Happening>)
    ensures
        remembers(undertaken(files, row)),
    decreases row.len(),
{
    if row.len() > 0 {
        lemma_undertaken_remembers(files, row.drop_last());
        let before = undertaken(files, row.drop_last());
        let after = undertaken(files, row);
        if let Happening::Capture { path } = row.last() {
            if !is_captured(before.entries, path) {
                let n = before.entries.len() as int;
                assert(after.entries[n].path == path);
                assert forall|p: Seq<char>| #[trigger] after.first.dom().contains(p)
                    == is_captured(after.entries, p) by {
                    assert(before.first.dom().contains(p) == is_captured(before.entries, p));
                    if is_captured(before.entries, p) {
                        let i = choose|i: int|
                            0 <= i < n && (#[trigger] before.entries[i]).path == p;
                        assert(after.entries[i].path == p);
                    }
                    if is_captured(after.entries, p) {
                        let i = choose|i: int|
                            0 <= i < n + 1 && (#[trigger] after.entries[i]).path == p;
                        if i < n {
                            assert(before.entries[i].path == p);
                        }
                    }
                }
                assert forall|i: int| 0 <= i < after.entries.len() implies ({
                    let entry = #[trigger] after.entries[i];
                    let first = after.first[entry.path];
                    &&& after.first.dom().contains(entry.path)
                    &&& entry.existed == first is Some
                    &&& entry.existed ==> after.kept[entry.path] == first->0
                }) by {
                    if i < n {
                        assert(after.entries[i] == before.entries[i]);
                        assert(before.entries[i].path != path);
                    }
                }
            }
        }
    }
}

/// A checkpoint brings back what its files were when they were captured first, whatever was
/// captured, edited, made or removed in whatever order, and leaves every other file as it is. Its
/// files are as many as the different paths that were captured.
pub proof fn law_first_captures_are_restored(
    files: Map<Seq<char>, Seq<u8>>,
    row: Seq<Happening>,
    id: Seq<char>,
    path: Seq<char>,
)
    ensures
        ({
            let state = undertaken(files, row);
            let start = restore_start(id, CheckpointV { id, entries: state.entries });
            &&& start == Ok::<RestoreV, ErrorV>(RestoreV { entries: state.entries, next: 0 })
            &&& captured_once(state.entries)
            &&& is_captured(state.entries, path) == state.first.dom().contains(path)
            &&& content(
                all_put_back(state.files, state.kept, state.entries, state.entries.len()),
                path,
            ) == if state.first.dom().contains(path) {
                state.first[path]
            } else {
                content(state.files, path)
            }
        }),
{
    let state = undertaken(files, row);
    lemma_undertaken_remembers(files, row);
    let before = Map::new(
        |p: Seq<char>| state.first.dom().contains(p) && state.first[p] is Some,
        |p: Seq<char>| state.first[p]->0,
    );
    assert(tells_of(state.entries, state.kept, before));
    law_restoring_brings_back(before, state.files, state.kept, state.entries, path);
    assert(state.first.dom().contains(path) == is_captured(state.entries, path));
}

/// Two checkpoints have the same name only where they were taken at the same time by the same
/// process.
pub proof fn law_made_ids_differ(millis: u128, process: u32, other_millis: u128, other: u32)
    requires
        made_id(millis, process) == made_id(other_millis, other),
    ensures
        millis == other_millis,
        process == other,
{
    text::lemma_decimal_has_no_dash(millis as nat);
    text::lemma_decimal_has_no_dash(other_millis as nat);
    text::law_dashes_tell_parts_apart(
        text::decimal_text(millis as nat),
        text::decimal_text(process as nat),
        text::decimal_text(other_millis as nat),
        text::decimal_text(other as nat),
    );
    text::law_decimals_differ(millis as nat, other_millis as nat);
    text::law_decimals_differ(process as nat, other as nat);
}

/// The directories that are checkpoints are those that have a manifest and a name, each under that
/// name and in the order in which they were found.
pub proof fn law_directories_with_manifests_are_checkpoints(
    directories: Seq<CheckpointDirectory>,
    directory: CheckpointDirectory,
)
    ensures
        checkpoint_names(Seq::<CheckpointDirectory>::empty()) == Seq::<Seq<char>>::empty(),
        directory.manifest && directory.name is Some ==> checkpoint_names(
            directories.push(directory),
        ) == checkpoint_names(directories).push(directory.name->0@),
        !directory.manifest || directory.name is None ==> checkpoint_names(
            directories.push(directory),
        ) == checkpoint_names(directories),
{
    assert(directories.push(directory).drop_last() == directories);
}

/// All checkpoints are listed, each once for its directory, the latest name first; where there is no
/// place for them there are none, and one that cannot be looked into is an error.
pub proof fn law_checkpoints_are_listed_latest_first(listing: CheckpointListing)
    ensures
        match listing {
            CheckpointListing::Missing => listed_checkpoints(listing) matches Ok(ids) && ids.len()
                == 0,
            CheckpointListing::Failed(source) => listed_checkpoints(listing) == Err::<
                Seq<Seq<char>>,
                ErrorV,
            >(ErrorV::Tool { tool: "checkpoint"@, message: source@ }),
            CheckpointListing::Directories(directories) => listed_checkpoints(
                listing,
            ) matches Ok(ids) && {
                &&& ids.to_multiset() == checkpoint_names(directories@).to_multiset()
                &&& forall|i: int, j: int|
                    0 <= i < j < ids.len() ==> !text::text_lt(#[trigger] ids[i], #[trigger] ids[j])
            },
        },
{
    if let CheckpointListing::Directories(directories) = listing {
        let names = checkpoint_names(directories@);
        let sorted = text::sorted_texts(names);
        text::law_sorting_sorts(names);
        lemma_reverse_multiset(sorted);
        let ids = sorted.reverse();
        assert forall|i: int, j: int| 0 <= i < j < ids.len() implies !text::text_lt(
            #[trigger] ids[i],
            #[trigger] ids[j],
        ) by {
            assert(ids[i] == sorted[sorted.len() - 1 - i]);
            assert(ids[j] == sorted[sorted.len() - 1 - j]);
        }
    }
}

proof fn lemma_reverse_multiset(texts: Seq<Seq<char>>)
    ensures
        texts.reverse().to_multiset() == texts.to_multiset(),
    decreases texts.len(),
{
    broadcast use vstd::seq_lib::group_to_multiset_ensures;

    if texts.len() > 0 {
        let front = texts.drop_last();
        lemma_reverse_multiset(front);
        assert(texts == front.push(texts.last()));
        assert(texts.reverse() == seq![texts.last()] + front.reverse());
        assert((seq![texts.last()] + front.reverse()).to_multiset() == seq![
            texts.last(),
        ].to_multiset().add(front.reverse().to_multiset())) by {
            vstd::seq_lib::lemma_multiset_commutative(seq![texts.last()], front.reverse());
        }
        assert(seq![texts.last()] == Seq::<Seq<char>>::empty().push(texts.last()));
    } else {
        assert(texts.reverse() == texts);
    }
}

/// A manifest is restored only for the checkpoint that it names, and then all its entries are to be
/// put back, from the first one on.
pub proof fn law_manifests_are_restored_whole(id: Seq<char>, manifest: CheckpointV)
    ensures
        restore_start(id, manifest) is Ok <==> manifest.id == id,
        restore_start(id, manifest) matches Ok(restore) ==> restore.entries == manifest.entries
            && restore.next == 0,
        restore_start(id, manifest) matches Err(error) ==> error == (ErrorV::Tool {
            tool: "checkpoint"@,
            message: "checkpoint id does not match manifest"@,
        }),
{
}

/// A file that may not be written back is named in the error, and so is why nothing can be decided.
pub proof fn law_refused_files_are_named(
    entry: EntryV,
    decision: Result<Decision, PermissionErrorV>,
)
    ensures
        decision == Ok::<Decision, PermissionErrorV>(Decision::Deny) ==> file_verdict(
            entry,
            decision,
        ) == (RestoreStepV::Failed {
            error: ErrorV::Tool {
                tool: "checkpoint"@,
                message: "restore denied: "@ + entry.path,
            },
        }),
        decision matches Err(error) ==> file_verdict(entry, decision) == (RestoreStepV::Failed {
            error: ErrorV::Tool {
                tool: "checkpoint"@,
                message: permissions::permission_text(error),
            },
        }),
{
}

} // verus!
