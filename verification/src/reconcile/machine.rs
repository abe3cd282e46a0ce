//! The reconciler that runs: the state of a run held in memory, and the
//! step that takes it from one call to the next.

use vstd::prelude::*;
use crate::api::drive::{File, FileView};
use crate::error::Error;
use crate::reconcile::model::{
    adopted, advanced, call_of, completed, failed, is_missing_parent, jobs_below,
    lemma_lookup_named, lemma_step_well_formed, recorded, refused, root_jobs, start, step, swept,
    timed, unexpected, unnamed, well_formed, Call, Change, Job, Reply, Stage, State,
};
use crate::store::{records_of, stale, Record, StateStore, SyncRecord};
use crate::text::contains;
use crate::tree::{lemma_node_directory, nodes_of, Child, Directory, Node};

verus! {

/// A write to the durable state store.
#[derive(Debug, Clone, PartialEq, Eq)]
pub enum Write {
    /// Mark no record as seen.
    Reset,
    /// Write the record of its path, in place of the one that is there.
    Upsert(SyncRecord),
    /// Mark the record of `path` as seen and give it the time.
    Touch { path: String, modification_time: u64 },
    /// Remove the records that are not marked as seen.
    Sweep,
}

impl View for Write {
    type V = Change;

    open spec fn view(&self) -> Change {
        match self {
            Write::Reset => Change::Reset,
            Write::Upsert(record) => Change::Upsert(record@),
            Write::Touch { path, modification_time } => Change::Touch {
                path: path@,
                modification_time: *modification_time,
            },
            Write::Sweep => Change::Sweep,
        }
    }
}

impl Write {
    /// A copy of the write.
    pub fn duplicate(&self) -> (copy: Write)
        ensures
            copy@ == self@,
    {
        match self {
            Write::Reset => Write::Reset,
            Write::Upsert(record) => Write::Upsert(record.duplicate()),
            Write::Touch { path, modification_time } => Write::Touch {
                path: path.clone(),
                modification_time: *modification_time,
            },
            Write::Sweep => Write::Sweep,
        }
    }
}

/// What the reconciler asks for next.
#[derive(Debug, Clone, PartialEq, Eq)]
pub enum Action {
    /// Read the modification time of the file or directory at `path`.
    ReadModificationTime { path: String },
    /// List the folders named `name` below the remote folder `parent`.
    FindFolder { name: String, parent: String },
    /// Create the remote folder `name` below `parent`.
    CreateFolder { name: String, parent: String },
    /// Upload the file at `path` as a new remote file below `parent`.
    UploadFile { path: String, parent: String },
    /// Upload the file at `path` as the new content of the remote file `id`.
    UpdateFile { path: String, id: String },
    /// Delete the remote entity `id`, which stood for `path`.
    DeleteFile { id: String, path: String },
    /// Make a write to the durable state store.
    Store(Write),
    /// Stop: the run is complete.
    Finish,
    /// Stop: the run has failed.
    Fail(Error),
}

impl View for Action {
    type V = Call;

    open spec fn view(&self) -> Call {
        match self {
            Action::ReadModificationTime { path } => Call::ReadModificationTime { path: path@ },
            Action::FindFolder { name, parent } => Call::FindFolder { name: name@, parent: parent@ },
            Action::CreateFolder { name, parent } => Call::CreateFolder {
                name: name@,
                parent: parent@,
            },
            Action::UploadFile { path, parent } => Call::UploadFile { path: path@, parent: parent@ },
            Action::UpdateFile { path, id } => Call::UpdateFile { path: path@, id: id@ },
            Action::DeleteFile { id, path } => Call::DeleteFile { id: id@, path: path@ },
            Action::Store(write) => Call::Store(write@),
            Action::Finish => Call::Finish,
            Action::Fail(error) => Call::Fail(error@),
        }
    }
}

/// The outcome of an action, as whoever performed it reports it.
#[derive(Debug, PartialEq, Eq)]
pub enum Event {
    /// The modification time in seconds since the epoch.
    ModificationTime(Result<u64, Error>),
    /// The folders that the remote store listed.
    Folders(Result<Vec<File>, Error>),
    /// The identifier of the folder that was created.
    Created(Result<String, Error>),
    /// The identifier of the file that was uploaded.
    Uploaded(Result<String, Error>),
    /// The remote file was updated.
    Updated(Result<(), Error>),
    /// The remote entity was deleted.
    Deleted(Result<(), Error>),
    /// The write to the durable state store was made.
    Stored(Result<(), Error>),
}

/// The values of a sequence of listed files.
pub open spec fn files_of(files: Seq<File>) -> Seq<FileView> {
    Seq::new(files.len(), |i: int| files[i]@)
}

impl View for Event {
    type V = Reply;

    open spec fn view(&self) -> Reply {
        match self {
            Event::ModificationTime(Ok(time)) => Reply::ModificationTime(Ok(*time)),
            Event::ModificationTime(Err(error)) => Reply::ModificationTime(Err(error@)),
            Event::Folders(Ok(files)) => Reply::Folders(Ok(files_of(files@))),
            Event::Folders(Err(error)) => Reply::Folders(Err(error@)),
            Event::Created(Ok(id)) => Reply::Created(Ok(id@)),
            Event::Created(Err(error)) => Reply::Created(Err(error@)),
            Event::Uploaded(Ok(id)) => Reply::Uploaded(Ok(id@)),
            Event::Uploaded(Err(error)) => Reply::Uploaded(Err(error@)),
            Event::Updated(Ok(_)) => Reply::Updated(Ok(())),
            Event::Updated(Err(error)) => Reply::Updated(Err(error@)),
            Event::Deleted(Ok(_)) => Reply::Deleted(Ok(())),
            Event::Deleted(Err(error)) => Reply::Deleted(Err(error@)),
            Event::Stored(Ok(_)) => Reply::Stored(Ok(())),
            Event::Stored(Err(error)) => Reply::Stored(Err(error@)),
        }
    }
}

/// The local directory that holds a node.
#[derive(Debug)]
pub struct Above {
    pub path: String,
    pub name: String,
}

/// A node that is still to be looked at.
#[derive(Debug)]
pub struct Task {
    pub node: Child,
    pub parent: String,
    pub above: Option<Above>,
}

impl View for Task {
    type V = Job;

    open spec fn view(&self) -> Job {
        Job {
            node: self.node@,
            parent: self.parent@,
            above: match self.above {
                Some(above) => Some((above.path@, above.name@)),
                None => None,
            },
        }
    }
}

/// The values of a sequence of tasks.
pub open spec fn jobs_of(tasks: Seq<Task>) -> Seq<Job> {
    Seq::new(tasks.len(), |i: int| tasks[i]@)
}

/// How far the run has got.
#[derive(Debug)]
pub enum Phase {
    Storing(Write),
    Reading,
    Listing { time: u64 },
    Creating { time: u64 },
    Repairing { time: u64, parent: String },
    Retrying { time: u64 },
    Updating { time: u64, id: String },
    Uploading { time: u64 },
    Deleting { index: usize },
    Sweeping,
    Finished,
    Failed(Error),
}

impl View for Phase {
    type V = Stage;

    open spec fn view(&self) -> Stage {
        match self {
            Phase::Storing(write) => Stage::Storing(write@),
            Phase::Reading => Stage::Reading,
            Phase::Listing { time } => Stage::Listing { time: *time },
            Phase::Creating { time } => Stage::Creating { time: *time },
            Phase::Repairing { time, parent } => Stage::Repairing { time: *time, parent: parent@ },
            Phase::Retrying { time } => Stage::Retrying { time: *time },
            Phase::Updating { time, id } => Stage::Updating { time: *time, id: id@ },
            Phase::Uploading { time } => Stage::Uploading { time: *time },
            Phase::Deleting { index } => Stage::Deleting { index: *index as nat },
            Phase::Sweeping => Stage::Sweeping,
            Phase::Finished => Stage::Finished,
            Phase::Failed(error) => Stage::Failed(error@),
        }
    }
}

impl Phase {
    /// A copy of the phase.
    fn duplicate(&self) -> (copy: Phase)
        ensures
            copy@ == self@,
    {
        match self {
            Phase::Storing(write) => Phase::Storing(write.duplicate()),
            Phase::Reading => Phase::Reading,
            Phase::Listing { time } => Phase::Listing { time: *time },
            Phase::Creating { time } => Phase::Creating { time: *time },
            Phase::Repairing { time, parent } => Phase::Repairing {
                time: *time,
                parent: parent.clone(),
            },
            Phase::Retrying { time } => Phase::Retrying { time: *time },
            Phase::Updating { time, id } => Phase::Updating { time: *time, id: id.clone() },
            Phase::Uploading { time } => Phase::Uploading { time: *time },
            Phase::Deleting { index } => Phase::Deleting { index: *index },
            Phase::Sweeping => Phase::Sweeping,
            Phase::Finished => Phase::Finished,
            Phase::Failed(error) => Phase::Failed(error.duplicate()),
        }
    }
}

/// The error of a reply that does not answer the call that was made.
fn unexpected_error() -> (error: Error)
    ensures
        error@ == unexpected(),
{
    Error::Other(String::from_str("the reply does not answer the call"))
}

/// The error of a remote store that names a new entity with the empty text.
fn unnamed_error() -> (error: Error)
    ensures
        error@ == unnamed(),
{
    Error::Other(String::from_str("the remote store gave an empty identifier"))
}

/// Whether a file with the modification time `modification_time` has
/// changed since it was recorded with `stored_modification_time`: it has
/// when the time is later.
pub fn file_changed(modification_time: u64, stored_modification_time: u64) -> (changed: bool)
    ensures
        changed == (modification_time > stored_modification_time),
{
    modification_time > stored_modification_time
}

/// Whether the remote store refused a call because the parent folder is
/// missing.
pub fn missing_parent(error: &Error) -> (missing: bool)
    ensures
        missing == is_missing_parent(error@),
{
    match error {
        Error::GoogleError(reported) => reported.code == 404 && contains(
            reported.message.as_str(),
            "File not found",
        ),
        _ => false,
    }
}

/// The identifier of the last listed folder whose name holds `name`; the
/// empty text where there is none.
pub fn adopt(files: &Vec<File>, name: &str) -> (id: String)
    ensures
        id@ == adopted(files_of(files@), name@),
{
    let mut id = String::new();
    let mut index: usize = 0;
    let ghost all = files_of(files@);
    assert(all.take(0) =~= Seq::<FileView>::empty());
    while index < files.len()
        invariant
            index <= files@.len(),
            all == files_of(files@),
            id@ == adopted(all.take(index as int), name@),
        decreases files@.len() - index,
    {
        proof {
            assert(all.take(index + 1).drop_last() =~= all.take(index as int));
            assert(all.take(index + 1).last() == files@[index as int]@);
        }
        if contains(files[index].name.as_str(), name) {
            id = files[index].id.clone();
        }
        index += 1;
    }
    assert(all.take(index as int) =~= all);
    id
}

/// A run of the reconciler.
#[derive(Debug)]
pub struct Reconciler {
    store: StateStore,
    pending: Vec<Task>,
    phase: Phase,
    doomed: Vec<SyncRecord>,
}

impl View for Reconciler {
    type V = State;

    closed spec fn view(&self) -> State {
        State {
            records: self.store@,
            pending: jobs_of(self.pending@),
            stage: self.phase@,
            doomed: records_of(self.doomed@),
        }
    }
}

impl Reconciler {
    /// Whether the run is in a state that a run can reach.
    pub open spec fn wf(&self) -> bool {
        well_formed(self@)
    }

    /// The state store as it is now.
    pub fn store(&self) -> (store: &StateStore)
        ensures
            store@ == self@.records,
    {
        &self.store
    }

    /// The state store as the run leaves it.
    pub fn into_store(self) -> (store: StateStore)
        requires
            self.wf(),
        ensures
            store@ == self@.records,
            store.wf(),
    {
        self.store
    }

    /// Whether the run is complete.
    pub fn is_finished(&self) -> (done: bool)
        ensures
            done == (self@.stage is Finished),
    {
        match &self.phase {
            Phase::Finished => true,
            _ => false,
        }
    }

    /// The top of the stack of tasks.
    fn top(&self) -> (task: &Task)
        requires
            self@.pending.len() > 0,
        ensures
            task@ == self@.pending.last(),
    {
        &self.pending[self.pending.len() - 1]
    }

    /// Ends the run with `error`.
    fn fail(&mut self, error: Error) -> (action: Action)
        ensures
            final(self)@ == failed(old(self)@, error@),
            action@ == call_of(final(self)@),
    {
        self.phase = Phase::Failed(error.duplicate());
        Action::Fail(error)
    }

    /// Goes on to the next node, or to the stale records.
    fn advance(&mut self) -> (action: Action)
        ensures
            final(self)@ == advanced(old(self)@),
            action@ == call_of(final(self)@),
    {
        if self.pending.len() > 0 {
            self.phase = Phase::Reading;
            let path = self.top().node.path().clone();
            Action::ReadModificationTime { path }
        } else {
            let doomed = self.store.stale();
            if doomed.len() > 0 {
                let id = doomed[0].remote_id.clone();
                let path = doomed[0].path.clone();
                self.doomed = doomed;
                self.phase = Phase::Deleting { index: 0 };
                Action::DeleteFile { id, path }
            } else {
                self.phase = Phase::Finished;
                Action::Finish
            }
        }
    }

    /// Takes the next node off the stack, puts what lies directly below it
    /// there, and has `write` made.
    fn complete(&mut self, id: String, write: Write) -> (action: Action)
        requires
            old(self)@.pending.len() > 0,
        ensures
            final(self)@ == completed(old(self)@, old(self)@.records, id@, write@),
            action@ == call_of(final(self)@),
    {
        let ghost base = jobs_of(self.pending@).drop_last();
        let ghost node = self.pending@.last().node;
        let task = self.pending.pop().unwrap();
        assert(jobs_of(self.pending@) =~= base);
        match task.node {
            Child::Directory(directory) => {
                let Directory { name, path, children } = directory;
                let mut children = children;
                let ghost all = children@;
                let ghost below = jobs_below(node@, id@);
                proof {
                    lemma_node_directory(node);
                    assert(below.len() == all.len());
                    assert(below.take(0) =~= Seq::<Job>::empty());
                    assert(base + below.take(0) =~= base);
                }
                while children.len() > 0
                    invariant
                        children@.len() <= all.len(),
                        children@ == all.take(children@.len() as int),
                        below == jobs_below(node@, id@),
                        below.len() == all.len(),
                        node@ == (Node::Directory {
                            name: name@,
                            path: path@,
                            children: nodes_of(all),
                        }),
                        jobs_of(self.pending@) == base + below.take(all.len() - children@.len()),
                        self.store == old(self).store,
                        self.doomed == old(self).doomed,
                    decreases children@.len(),
                {
                    let ghost done = all.len() - children@.len();
                    let ghost before = jobs_of(self.pending@);
                    let child = children.pop().unwrap();
                    let next = Task {
                        node: child,
                        parent: id.clone(),
                        above: Some(Above { path: path.clone(), name: name.clone() }),
                    };
                    proof {
                        assert(child == all[all.len() - 1 - done]);
                        assert(next@ == below[done]);
                        assert(below.take(done + 1) =~= below.take(done).push(below[done]));
                    }
                    self.pending.push(next);
                    assert(jobs_of(self.pending@) =~= before.push(below[done]));
                    assert(base + below.take(done + 1) =~= (base + below.take(done)).push(
                        below[done],
                    ));
                }
                assert(below.take(all.len() as int) =~= below);
            },
            Child::File(_) => {
                assert(base + jobs_below(node@, id@) =~= base);
            },
        }
        self.phase = Phase::Storing(write.duplicate());
        Action::Store(write)
    }

    /// Records the next node under `id`, unless the identifier is empty.
    fn record(&mut self, id: String, time: u64) -> (action: Action)
        requires
            old(self).wf(),
            old(self)@.pending.len() > 0,
        ensures
            final(self)@ == recorded(old(self)@, id@, time),
            action@ == call_of(final(self)@),
    {
        if id.as_str().is_empty() {
            self.fail(unnamed_error())
        } else {
            let path = self.top().node.path().clone();
            self.store.upsert(path.as_str(), id.as_str(), time);
            let record = SyncRecord {
                path,
                remote_id: id.clone(),
                modification_time: time,
                included: true,
            };
            self.complete(id, Write::Upsert(record))
        }
    }

    /// Decides what the modification time of the next node asks for.
    fn time(&mut self, time: u64) -> (action: Action)
        requires
            old(self).wf(),
            old(self)@.pending.len() > 0,
        ensures
            final(self)@ == timed(old(self)@, time),
            action@ == call_of(final(self)@),
    {
        let top = self.top();
        let path = top.node.path().clone();
        let is_file = match &top.node {
            Child::File(_) => true,
            Child::Directory(_) => false,
        };
        match self.store.get(path.as_str()) {
            Some(record) => {
                proof {
                    lemma_lookup_named(self@.records, path@);
                }
                if is_file && file_changed(time, record.modification_time) {
                    let id = record.remote_id;
                    self.phase = Phase::Updating { time, id: id.clone() };
                    Action::UpdateFile { path, id }
                } else {
                    self.store.touch(path.as_str(), time);
                    let write = Write::Touch { path, modification_time: time };
                    self.complete(record.remote_id, write)
                }
            },
            None => {
                let parent = top.parent.clone();
                match &top.node {
                    Child::File(_) => {
                        self.phase = Phase::Uploading { time };
                        Action::UploadFile { path, parent }
                    },
                    Child::Directory(directory) => {
                        let name = directory.name.clone();
                        self.phase = Phase::Listing { time };
                        Action::FindFolder { name, parent }
                    },
                }
            },
        }
    }

    /// The name of the directory that is next.
    fn name(&self) -> (name: String)
        requires
            self@.pending.len() > 0,
            self@.pending.last().node is Directory,
        ensures
            name@ == self@.pending.last().node->Directory_name,
    {
        match &self.top().node {
            Child::Directory(directory) => directory.name.clone(),
            Child::File(_) => vstd::pervasive::unreached(),
        }
    }

    /// Creates the folder of the next node once more.
    fn retry(&mut self, time: u64) -> (action: Action)
        requires
            old(self)@.pending.len() > 0,
            old(self)@.pending.last().node is Directory,
        ensures
            final(self)@ == (State { stage: Stage::Retrying { time }, ..old(self)@ }),
            action@ == call_of(final(self)@),
    {
        let name = self.name();
        let parent = match &self.top().above {
            None => String::from_str("root"),
            Some(_) => self.top().parent.clone(),
        };
        self.phase = Phase::Retrying { time };
        Action::CreateFolder { name, parent }
    }

    /// Decides what a refused creation asks for.
    fn refuse(&mut self, time: u64, error: Error) -> (action: Action)
        requires
            old(self).wf(),
            old(self)@.pending.len() > 0,
            old(self)@.pending.last().node is Directory,
        ensures
            final(self)@ == refused(old(self)@, time, error@),
            action@ == call_of(final(self)@),
    {
        if missing_parent(&error) {
            let found = match &self.top().above {
                None => None,
                Some(above) => Some((self.store.get(above.path.as_str()), above.name.clone())),
            };
            match found {
                None => self.retry(time),
                Some((Some(record), name)) => {
                    let parent = record.remote_id;
                    self.phase = Phase::Repairing { time, parent: parent.clone() };
                    Action::CreateFolder { name, parent }
                },
                Some((None, _)) => self.fail(error),
            }
        } else {
            self.fail(error)
        }
    }

    /// Goes on to the next stale record, or removes them all from the store.
    fn deleted(&mut self, index: usize) -> (action: Action)
        requires
            old(self).wf(),
            index < old(self)@.doomed.len(),
        ensures
            final(self)@ == (if index + 1 < old(self)@.doomed.len() {
                State { stage: Stage::Deleting { index: (index + 1) as nat }, ..old(self)@ }
            } else {
                swept(old(self)@)
            }),
            action@ == call_of(final(self)@),
    {
        let count = self.doomed.len();
        if index + 1 < count {
            let id = self.doomed[index + 1].remote_id.clone();
            let path = self.doomed[index + 1].path.clone();
            self.phase = Phase::Deleting { index: index + 1 };
            Action::DeleteFile { id, path }
        } else {
            let _ = self.store.sweep();
            self.phase = Phase::Sweeping;
            Action::Store(Write::Sweep)
        }
    }

    /// Decides what the listed folders ask for.
    fn listed(&mut self, time: u64, files: Vec<File>) -> (action: Action)
        requires
            old(self).wf(),
            old(self)@.pending.len() > 0,
            old(self)@.pending.last().node is Directory,
        ensures
            final(self)@ == ({
                let id = adopted(files_of(files@), old(self)@.pending.last().node->Directory_name);
                if id.len() > 0 {
                    recorded(old(self)@, id, time)
                } else {
                    State { stage: Stage::Creating { time }, ..old(self)@ }
                }
            }),
            action@ == call_of(final(self)@),
    {
        let name = self.name();
        let id = adopt(&files, name.as_str());
        if id.as_str().is_empty() {
            let parent = self.top().parent.clone();
            self.phase = Phase::Creating { time };
            Action::CreateFolder { name, parent }
        } else {
            self.record(id, time)
        }
    }

    /// A run over `forest` below the remote folder `root`, with the records
    /// of `store`, and the first action to take.
    pub fn new(forest: Vec<Child>, root: &str, store: StateStore) -> (out: (Reconciler, Action))
        requires
            store.wf(),
        ensures
            out.0@ == start(nodes_of(forest@), root@, store@),
            out.0.wf(),
            out.1@ == call_of(out.0@),
    {
        let mut store = store;
        store.reset_include_flags();
        let mut forest = forest;
        let ghost all = forest@;
        let ghost jobs = root_jobs(nodes_of(all), root@);
        let mut pending: Vec<Task> = Vec::new();
        assert(jobs_of(pending@) =~= jobs.take(0));
        while forest.len() > 0
            invariant
                forest@.len() <= all.len(),
                forest@ == all.take(forest@.len() as int),
                jobs == root_jobs(nodes_of(all), root@),
                jobs_of(pending@) == jobs.take(all.len() - forest@.len()),
            decreases forest@.len(),
        {
            let ghost done = all.len() - forest@.len();
            let ghost before = jobs_of(pending@);
            let node = forest.pop().unwrap();
            let next = Task { node, parent: String::from_str(root), above: None };
            proof {
                assert(node == all[all.len() - 1 - done]);
                assert(next@ == jobs[done]);
                assert(jobs.take(done + 1) =~= jobs.take(done).push(jobs[done]));
            }
            pending.push(next);
            assert(jobs_of(pending@) =~= before.push(jobs[done]));
        }
        assert(jobs.take(all.len() as int) =~= jobs);
        let machine = Reconciler {
            store,
            pending,
            phase: Phase::Storing(Write::Reset),
            doomed: Vec::new(),
        };
        assert(machine@.doomed =~= Seq::<Record>::empty());
        (machine, Action::Store(Write::Reset))
    }

    /// Takes the outcome of the action that was asked for last, and says
    /// what to do next.
    pub fn step(&mut self, event: Event) -> (action: Action)
        requires
            old(self).wf(),
        ensures
            final(self)@ == step(old(self)@, event@),
            final(self).wf(),
            action@ == call_of(final(self)@),
    {
        proof {
            lemma_step_well_formed(self@, event@);
        }
        let phase = self.phase.duplicate();
        match (phase, event) {
            (Phase::Finished, _) => Action::Finish,
            (Phase::Failed(error), _) => Action::Fail(error),
            (Phase::Storing(_), Event::Stored(Ok(_))) => self.advance(),
            (Phase::Storing(_), Event::Stored(Err(error))) => self.fail(error),
            (Phase::Reading, Event::ModificationTime(Ok(time))) => self.time(time),
            (Phase::Reading, Event::ModificationTime(Err(error))) => self.fail(error),
            (Phase::Listing { time }, Event::Folders(Ok(files))) => self.listed(time, files),
            (Phase::Listing { .. }, Event::Folders(Err(error))) => self.fail(error),
            (Phase::Creating { time }, Event::Created(Ok(id))) => self.record(id, time),
            (Phase::Creating { time }, Event::Created(Err(error))) => self.refuse(time, error),
            (Phase::Repairing { time, .. }, Event::Created(Ok(_))) => self.retry(time),
            (Phase::Repairing { .. }, Event::Created(Err(error))) => self.fail(error),
            (Phase::Retrying { time }, Event::Created(Ok(id))) => self.record(id, time),
            (Phase::Retrying { .. }, Event::Created(Err(error))) => self.fail(error),
            (Phase::Updating { time, id }, Event::Updated(Ok(_))) => self.record(id, time),
            (Phase::Updating { .. }, Event::Updated(Err(error))) => self.fail(error),
            (Phase::Uploading { time }, Event::Uploaded(Ok(id))) => self.record(id, time),
            (Phase::Uploading { .. }, Event::Uploaded(Err(error))) => self.fail(error),
            (Phase::Deleting { index }, Event::Deleted(Ok(_))) => self.deleted(index),
            (Phase::Deleting { .. }, Event::Deleted(Err(error))) => self.fail(error),
            (Phase::Sweeping, Event::Stored(Ok(_))) => {
                self.phase = Phase::Finished;
                Action::Finish
            },
            (Phase::Sweeping, Event::Stored(Err(error))) => self.fail(error),
            _ => self.fail(unexpected_error()),
        }
    }
}

} // verus!
