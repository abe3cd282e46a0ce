//! The reconciler as a machine: it looks at one node of the local tree
//! after the other, asks for one thing at a time, and decides from the
//! answer what to ask for next.
//!
//! The machine performs nothing itself. It names the next step as a
//! [`Call`]: reading a modification time, a call to the remote store, a
//! write to the durable state store. Whoever drives it performs the step and
//! hands the outcome back as a [`Reply`]. Its state is the state store as
//! it will be once the writes have been made, the nodes that are still to be
//! looked at, and the stage that the run has reached.

use vstd::prelude::*;
use crate::api::drive::FileView;
use crate::error::ErrorView;
use crate::store::{
    lemma_filter_valid, lemma_touched_valid, lemma_upserted_valid, live, lookup, stale, touched,
    unmarked, upserted, valid, Record,
};
use crate::text::contains_text;
use crate::tree::Node;

verus! {

/// A write to the durable state store.
pub enum Change {
    /// No record is marked as seen any longer.
    Reset,
    /// The record of a path is written, or written anew.
    Upsert(Record),
    /// The record of a path is marked as seen and gets a new time.
    Touch { path: Seq<char>, modification_time: u64 },
    /// The records that are not marked as seen are removed.
    Sweep,
}

/// What the machine asks for next.
pub enum Call {
    /// The modification time of the file or directory at `path`.
    ReadModificationTime { path: Seq<char> },
    /// The folders named `name` below the remote folder `parent`.
    FindFolder { name: Seq<char>, parent: Seq<char> },
    /// A new remote folder `name` below `parent`.
    CreateFolder { name: Seq<char>, parent: Seq<char> },
    /// The file at `path` as a new remote file below `parent`.
    UploadFile { path: Seq<char>, parent: Seq<char> },
    /// The file at `path` as the new content of the remote file `id`.
    UpdateFile { path: Seq<char>, id: Seq<char> },
    /// The removal of the remote entity `id`, which stood for `path`.
    DeleteFile { id: Seq<char>, path: Seq<char> },
    /// A write to the durable state store.
    Store(Change),
    /// Nothing: the run is complete.
    Finish,
    /// Nothing: the run has failed.
    Fail(ErrorView),
}

impl Call {
    /// Whether the call changes the remote store.
    pub open spec fn changes_remote(self) -> bool {
        self is CreateFolder || self is UploadFile || self is UpdateFile || self is DeleteFile
    }

    /// Whether the call goes to the remote store.
    pub open spec fn is_remote(self) -> bool {
        self.changes_remote() || self is FindFolder
    }
}

/// The outcome of a call.
pub enum Reply {
    ModificationTime(Result<u64, ErrorView>),
    Folders(Result<Seq<FileView>, ErrorView>),
    Created(Result<Seq<char>, ErrorView>),
    Uploaded(Result<Seq<char>, ErrorView>),
    Updated(Result<(), ErrorView>),
    Deleted(Result<(), ErrorView>),
    Stored(Result<(), ErrorView>),
}

/// A node that is still to be looked at.
pub struct Job {
    pub node: Node,
    /// The remote folder that the node belongs under.
    pub parent: Seq<char>,
    /// The path and the name of the local directory that holds the node;
    /// none for a root of the tree.
    pub above: Option<(Seq<char>, Seq<char>)>,
}

/// How far the run has got. Every stage but the last two waits for the
/// reply to one call.
pub enum Stage {
    /// A write that follows a node, or the start of the run, is under way.
    Storing(Change),
    /// The modification time of the next node is being read.
    Reading,
    /// The remote folders with the name of the next node are being listed.
    Listing { time: u64 },
    /// The remote folder of the next node is being created.
    Creating { time: u64 },
    /// The remote folder of the directory above the next node is being
    /// created again under `parent`.
    Repairing { time: u64, parent: Seq<char> },
    /// The remote folder of the next node is being created once more.
    Retrying { time: u64 },
    /// The remote file `id` of the next node is being updated.
    Updating { time: u64, id: Seq<char> },
    /// The next node is being uploaded.
    Uploading { time: u64 },
    /// The remote entity of the stale record at `index` is being deleted.
    Deleting { index: nat },
    /// The stale records are being removed from the durable store.
    Sweeping,
    /// The run is complete.
    Finished,
    /// The run has failed.
    Failed(ErrorView),
}

/// The state of a run.
pub struct State {
    /// The records of the state store.
    pub records: Seq<Record>,
    /// The nodes still to be looked at; the last one is the next.
    pub pending: Seq<Job>,
    pub stage: Stage,
    /// The records found stale when the traversal was over.
    pub doomed: Seq<Record>,
}

/// The identifier that stands for the top of the remote store.
pub open spec fn top_folder() -> Seq<char> {
    "root"@
}

/// What a refusal of the remote store says when a parent is missing.
pub open spec fn missing_text() -> Seq<char> {
    "File not found"@
}

/// The error of a reply that does not answer the call that was made.
pub open spec fn unexpected() -> ErrorView {
    ErrorView::Other("the reply does not answer the call"@)
}

/// The error of a remote store that names a new entity with the empty text.
pub open spec fn unnamed() -> ErrorView {
    ErrorView::Other("the remote store gave an empty identifier"@)
}

/// Whether the remote store refused a call because the parent folder is
/// missing.
pub open spec fn is_missing_parent(error: ErrorView) -> bool {
    match error {
        ErrorView::GoogleError(reported) => reported.code == 404 && contains_text(
            reported.message,
            missing_text(),
        ),
        _ => false,
    }
}

/// The identifier of the last listed folder whose name holds `name`; the
/// empty text where there is none.
pub open spec fn adopted(files: Seq<FileView>, name: Seq<char>) -> Seq<char>
    decreases files.len(),
{
    if files.len() == 0 {
        Seq::empty()
    } else if contains_text(files.last().name, name) {
        files.last().id
    } else {
        adopted(files.drop_last(), name)
    }
}

/// The nodes directly below `node` as jobs under the remote folder `id`,
/// the first of them last.
pub open spec fn jobs_below(node: Node, id: Seq<char>) -> Seq<Job> {
    match node {
        Node::Directory { name, path, children } => Seq::new(
            children.len(),
            |k: int| Job { node: children[children.len() - 1 - k], parent: id, above: Some((path, name)) },
        ),
        Node::File { .. } => Seq::empty(),
    }
}

/// The roots of a forest as jobs under the remote folder `root`, the first
/// of them last.
pub open spec fn root_jobs(forest: Seq<Node>, root: Seq<char>) -> Seq<Job> {
    Seq::new(
        forest.len(),
        |k: int| Job { node: forest[forest.len() - 1 - k], parent: root, above: None },
    )
}

/// The state in which a run over `forest` starts: no record is marked, all
/// roots are still to be looked at, and the clearing of the marks is being
/// written.
pub open spec fn start(forest: Seq<Node>, root: Seq<char>, records: Seq<Record>) -> State {
    State {
        records: unmarked(records),
        pending: root_jobs(forest, root),
        stage: Stage::Storing(Change::Reset),
        doomed: Seq::empty(),
    }
}

/// The records once a write has been made to them.
pub open spec fn applied(records: Seq<Record>, change: Change) -> Seq<Record> {
    match change {
        Change::Reset => unmarked(records),
        Change::Upsert(record) => upserted(
            records,
            record.path,
            record.remote_id,
            record.modification_time,
        ),
        Change::Touch { path, modification_time } => touched(records, path, modification_time),
        Change::Sweep => live(records),
    }
}

/// The state with the run failed.
pub open spec fn failed(state: State, error: ErrorView) -> State {
    State { stage: Stage::Failed(error), ..state }
}

/// The state once a write has been made: the next node is read, or, with no
/// node left, the remote entities of the stale records are deleted one by
/// one; with no stale record either the run is complete.
pub open spec fn advanced(state: State) -> State {
    if state.pending.len() > 0 {
        State { stage: Stage::Reading, ..state }
    } else if stale(state.records).len() > 0 {
        State { stage: Stage::Deleting { index: 0 }, doomed: stale(state.records), ..state }
    } else {
        State { stage: Stage::Finished, ..state }
    }
}

/// The state once the next node is done with: it is known under the remote
/// identifier `id`, the store holds `records`, what lies directly below it
/// is to be looked at next, and `change` is being written.
pub open spec fn completed(state: State, records: Seq<Record>, id: Seq<char>, change: Change) -> State {
    State {
        records,
        pending: state.pending.drop_last() + jobs_below(state.pending.last().node, id),
        stage: Stage::Storing(change),
        ..state
    }
}

/// The state once the next node has been synced under `id`: a failure where
/// the identifier is empty, else the node is done with and its record is
/// written.
pub open spec fn recorded(state: State, id: Seq<char>, time: u64) -> State {
    let path = state.pending.last().node.path();
    if id.len() == 0 {
        failed(state, unnamed())
    } else {
        completed(
            state,
            upserted(state.records, path, id, time),
            id,
            Change::Upsert(Record { path, remote_id: id, modification_time: time, included: true }),
        )
    }
}

/// The state once the modification time of the next node is known. A node
/// with a record is seen again; a file is updated first where its time is
/// later than the recorded one. A directory without a record is looked for
/// in the remote store, a file without one is uploaded.
pub open spec fn timed(state: State, time: u64) -> State {
    let node = state.pending.last().node;
    match lookup(state.records, node.path()) {
        Some(record) => if node is File && time > record.modification_time {
            State { stage: Stage::Updating { time, id: record.remote_id }, ..state }
        } else {
            completed(
                state,
                touched(state.records, node.path(), time),
                record.remote_id,
                Change::Touch { path: node.path(), modification_time: time },
            )
        },
        None => if node is File {
            State { stage: Stage::Uploading { time }, ..state }
        } else {
            State { stage: Stage::Listing { time }, ..state }
        },
    }
}

/// The state once the creation of a folder has been refused. Where the
/// remote store misses the parent, a root is created once more under the
/// top of the store, and any other directory after the folder of the
/// directory above it has been created again under the identifier on
/// record; every other refusal ends the run.
pub open spec fn refused(state: State, time: u64, error: ErrorView) -> State {
    if is_missing_parent(error) {
        match state.pending.last().above {
            None => State { stage: Stage::Retrying { time }, ..state },
            Some(above) => match lookup(state.records, above.0) {
                Some(record) => State {
                    stage: Stage::Repairing { time, parent: record.remote_id },
                    ..state
                },
                None => failed(state, error),
            },
        }
    } else {
        failed(state, error)
    }
}

/// The state once all remote entities of stale records have been deleted:
/// the records leave the store, and their removal is being written.
pub open spec fn swept(state: State) -> State {
    State { records: live(state.records), stage: Stage::Sweeping, ..state }
}

/// The state that follows `state` on `reply`. A reply that reports an
/// error ends the run with that error, but for the one refusal that is
/// repaired; a reply that does not answer the call ends it too. A run that
/// is complete or has failed stays as it is.
pub open spec fn step(state: State, reply: Reply) -> State {
    match (state.stage, reply) {
        (Stage::Finished, _) => state,
        (Stage::Failed(_), _) => state,
        (Stage::Storing(_), Reply::Stored(Ok(_))) => advanced(state),
        (Stage::Storing(_), Reply::Stored(Err(error))) => failed(state, error),
        (Stage::Reading, Reply::ModificationTime(Ok(time))) => timed(state, time),
        (Stage::Reading, Reply::ModificationTime(Err(error))) => failed(state, error),
        (Stage::Listing { time }, Reply::Folders(Ok(files))) => {
            let id = adopted(files, state.pending.last().node->Directory_name);
            if id.len() > 0 {
                recorded(state, id, time)
            } else {
                State { stage: Stage::Creating { time }, ..state }
            }
        },
        (Stage::Listing { .. }, Reply::Folders(Err(error))) => failed(state, error),
        (Stage::Creating { time }, Reply::Created(Ok(id))) => recorded(state, id, time),
        (Stage::Creating { time }, Reply::Created(Err(error))) => refused(state, time, error),
        (Stage::Repairing { time, .. }, Reply::Created(Ok(_))) => State {
            stage: Stage::Retrying { time },
            ..state
        },
        (Stage::Repairing { .. }, Reply::Created(Err(error))) => failed(state, error),
        (Stage::Retrying { time }, Reply::Created(Ok(id))) => recorded(state, id, time),
        (Stage::Retrying { .. }, Reply::Created(Err(error))) => failed(state, error),
        (Stage::Updating { time, id }, Reply::Updated(Ok(_))) => recorded(state, id, time),
        (Stage::Updating { .. }, Reply::Updated(Err(error))) => failed(state, error),
        (Stage::Uploading { time }, Reply::Uploaded(Ok(id))) => recorded(state, id, time),
        (Stage::Uploading { .. }, Reply::Uploaded(Err(error))) => failed(state, error),
        (Stage::Deleting { index }, Reply::Deleted(Ok(_))) => if index + 1 < state.doomed.len() {
            State { stage: Stage::Deleting { index: index + 1 }, ..state }
        } else {
            swept(state)
        },
        (Stage::Deleting { .. }, Reply::Deleted(Err(error))) => failed(state, error),
        (Stage::Sweeping, Reply::Stored(Ok(_))) => State { stage: Stage::Finished, ..state },
        (Stage::Sweeping, Reply::Stored(Err(error))) => failed(state, error),
        _ => failed(state, unexpected()),
    }
}

/// The call that a state waits for.
pub open spec fn call_of(state: State) -> Call {
    let job = state.pending.last();
    match state.stage {
        Stage::Storing(change) => Call::Store(change),
        Stage::Reading => Call::ReadModificationTime { path: job.node.path() },
        Stage::Listing { .. } => Call::FindFolder {
            name: job.node->Directory_name,
            parent: job.parent,
        },
        Stage::Creating { .. } => Call::CreateFolder {
            name: job.node->Directory_name,
            parent: job.parent,
        },
        Stage::Repairing { parent, .. } => Call::CreateFolder { name: job.above->Some_0.1, parent },
        Stage::Retrying { .. } => Call::CreateFolder {
            name: job.node->Directory_name,
            parent: if job.above is None {
                top_folder()
            } else {
                job.parent
            },
        },
        Stage::Updating { id, .. } => Call::UpdateFile { path: job.node.path(), id },
        Stage::Uploading { .. } => Call::UploadFile { path: job.node.path(), parent: job.parent },
        Stage::Deleting { index } => Call::DeleteFile {
            id: state.doomed[index as int].remote_id,
            path: state.doomed[index as int].path,
        },
        Stage::Sweeping => Call::Store(Change::Sweep),
        Stage::Finished => Call::Finish,
        Stage::Failed(error) => Call::Fail(error),
    }
}

/// What holds of every state of a run: the records are those of a store,
/// and the stage fits the node that is next.
pub open spec fn well_formed(state: State) -> bool {
    &&& valid(state.records)
    &&& match state.stage {
        Stage::Reading => state.pending.len() > 0,
        Stage::Listing { .. } | Stage::Creating { .. } | Stage::Retrying { .. } => {
            state.pending.len() > 0 && state.pending.last().node is Directory
        },
        Stage::Repairing { .. } => {
            &&& state.pending.len() > 0
            &&& state.pending.last().node is Directory
            &&& state.pending.last().above is Some
        },
        Stage::Updating { id, .. } => {
            &&& state.pending.len() > 0
            &&& state.pending.last().node is File
            &&& id.len() > 0
        },
        Stage::Uploading { .. } => state.pending.len() > 0 && state.pending.last().node is File,
        Stage::Deleting { index } => index < state.doomed.len(),
        _ => true,
    }
}

/// The record that a valid store holds of a path has an identifier.
pub proof fn lemma_lookup_named(records: Seq<Record>, path: Seq<char>)
    requires
        valid(records),
        lookup(records, path) is Some,
    ensures
        lookup(records, path)->Some_0.remote_id.len() > 0,
        lookup(records, path)->Some_0.path == path,
{
}

/// Every step of a run leads from a well-formed state to a well-formed
/// state.
pub proof fn lemma_step_well_formed(state: State, reply: Reply)
    requires
        well_formed(state),
    ensures
        well_formed(step(state, reply)),
{
    let next = step(state, reply);
    let path = state.pending.last().node.path();
    match (state.stage, reply) {
        (Stage::Reading, Reply::ModificationTime(Ok(time))) => {
            if lookup(state.records, path) is Some {
                lemma_lookup_named(state.records, path);
                lemma_touched_valid(state.records, path, time);
            }
        },
        (Stage::Listing { time }, Reply::Folders(Ok(files))) => {
            let id = adopted(files, state.pending.last().node->Directory_name);
            if id.len() > 0 {
                lemma_upserted_valid(state.records, path, id, time);
            }
        },
        (Stage::Creating { time }, Reply::Created(Ok(id))) => {
            if id.len() > 0 {
                lemma_upserted_valid(state.records, path, id, time);
            }
        },
        (Stage::Retrying { time }, Reply::Created(Ok(id))) => {
            if id.len() > 0 {
                lemma_upserted_valid(state.records, path, id, time);
            }
        },
        (Stage::Updating { time, id }, Reply::Updated(Ok(_))) => {
            lemma_upserted_valid(state.records, path, id, time);
        },
        (Stage::Uploading { time }, Reply::Uploaded(Ok(id))) => {
            if id.len() > 0 {
                lemma_upserted_valid(state.records, path, id, time);
            }
        },
        (Stage::Deleting { index }, Reply::Deleted(Ok(_))) => {
            lemma_filter_valid(state.records, |record: Record| record.included);
        },
        _ => {},
    }
}

} // verus!
