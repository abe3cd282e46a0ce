//! What holds of whole runs of the reconciler, whatever the outcomes of its
//! calls are.

use vstd::prelude::*;
use crate::reconcile::model::{
    applied,    call_of, completed, jobs_below, lemma_lookup_named, lemma_step_well_formed, recorded,
    root_jobs, start, step, well_formed, Call, Change, Job, Reply, Stage, State,
};
use crate::store::{
    has_record, lemma_live_included, lemma_stale_empty, live, lookup, stale, touched, unmarked,
    upserted, valid, Record,
};
use crate::tree::{paths_in, paths_of, Node};

verus! {

/// The state that a run reaches from `state` on the given replies, in
/// their order.
pub open spec fn run(state: State, replies: Seq<Reply>) -> State
    decreases replies.len(),
{
    if replies.len() == 0 {
        state
    } else {
        run(step(state, replies[0]), replies.drop_first())
    }
}

/// The calls that a run makes from `state` on the given replies: the call
/// that `state` waits for, then the call after each reply.
pub open spec fn calls(state: State, replies: Seq<Reply>) -> Seq<Call>
    decreases replies.len(),
{
    if replies.len() == 0 {
        seq![call_of(state)]
    } else {
        seq![call_of(state)] + calls(step(state, replies[0]), replies.drop_first())
    }
}

/// The nodes of the given jobs.
pub open spec fn job_nodes(jobs: Seq<Job>) -> Seq<Node> {
    Seq::new(jobs.len(), |i: int| jobs[i].node)
}

/// The paths of all nodes that are still to be looked at, at any depth.
pub open spec fn job_paths(jobs: Seq<Job>) -> Set<Seq<char>> {
    paths_in(job_nodes(jobs))
}

/// Whether the store holds a record of `path` that is marked as seen and
/// names a remote entity.
pub open spec fn synced(records: Seq<Record>, path: Seq<char>) -> bool {
    exists|i: int|
        0 <= i < records.len() && (#[trigger] records[i]).path == path && records[i].included
            && records[i].remote_id.len() > 0
}

/// A path is among the paths of a forest exactly when it is among the paths
/// of one of its nodes.
pub proof fn lemma_paths_in_member(nodes: Seq<Node>, path: Seq<char>)
    ensures
        paths_in(nodes).contains(path) <==> exists|i: int|
            0 <= i < nodes.len() && paths_of(#[trigger] nodes[i]).contains(path),
    decreases nodes.len(),
{
    if nodes.len() > 0 {
        let front = nodes.drop_last();
        lemma_paths_in_member(front, path);
        if paths_in(nodes).contains(path) {
            if paths_of(nodes.last()).contains(path) {
                assert(paths_of(nodes[nodes.len() - 1]).contains(path));
            } else {
                let i = choose|i: int|
                    0 <= i < front.len() && paths_of(#[trigger] front[i]).contains(path);
                assert(nodes[i] == front[i]);
            }
        }
        if exists|i: int| 0 <= i < nodes.len() && paths_of(#[trigger] nodes[i]).contains(path) {
            let i = choose|i: int|
                0 <= i < nodes.len() && paths_of(#[trigger] nodes[i]).contains(path);
            if i < front.len() {
                assert(front[i] == nodes[i]);
            }
        }
    }
}

/// The paths that are to be looked at once a node is done with are those
/// that were to be looked at before, but for the path of that node itself.
pub proof fn lemma_job_paths_completed(pending: Seq<Job>, id: Seq<char>, path: Seq<char>)
    requires
        pending.len() > 0,
    ensures
        job_paths(pending).contains(path) <==> path == pending.last().node.path() || job_paths(
            pending.drop_last() + jobs_below(pending.last().node, id),
        ).contains(path),
        job_paths(pending.drop_last() + jobs_below(pending.last().node, id)).contains(path)
            ==> job_paths(pending).contains(path),
{
    let top = pending.last().node;
    let below = jobs_below(top, id);
    let after = pending.drop_last() + below;
    let old_nodes = job_nodes(pending);
    let new_nodes = job_nodes(after);
    lemma_paths_in_member(old_nodes, path);
    lemma_paths_in_member(new_nodes, path);
    if job_paths(pending).contains(path) && path != top.path() {
        let i = choose|i: int|
            0 <= i < old_nodes.len() && paths_of(#[trigger] old_nodes[i]).contains(path);
        if i < pending.len() - 1 {
            assert(new_nodes[i] == old_nodes[i]);
        } else {
            let children = top->Directory_children;
            lemma_paths_in_member(children, path);
            let j = choose|j: int|
                0 <= j < children.len() && paths_of(#[trigger] children[j]).contains(path);
            let k = pending.len() - 1 + (children.len() - 1 - j);
            assert(after[k] == below[children.len() - 1 - j]);
            assert(new_nodes[k] == children[j]);
        }
    }
    if job_paths(after).contains(path) {
        let k = choose|k: int|
            0 <= k < new_nodes.len() && paths_of(#[trigger] new_nodes[k]).contains(path);
        if k < pending.len() - 1 {
            assert(old_nodes[k] == new_nodes[k]);
        } else {
            let children = top->Directory_children;
            let j = children.len() - 1 - (k - (pending.len() - 1));
            assert(after[k] == below[k - (pending.len() - 1)]);
            assert(new_nodes[k] == children[j]);
            lemma_paths_in_member(children, path);
            assert(paths_of(top).contains(path));
            assert(paths_of(old_nodes[pending.len() - 1]).contains(path));
        }
    }
    if path == top.path() {
        assert(paths_of(old_nodes[pending.len() - 1]).contains(path));
    }
}

/// The paths that the roots of a forest ask to look at are the paths of
/// the forest.
pub proof fn lemma_job_paths_start(forest: Seq<Node>, root: Seq<char>)
    ensures
        job_paths(root_jobs(forest, root)) == paths_in(forest),
{
    let jobs = root_jobs(forest, root);
    let nodes = job_nodes(jobs);
    assert forall|path: Seq<char>| paths_in(nodes).contains(path) == paths_in(forest).contains(
        path,
    ) by {
        lemma_paths_in_member(nodes, path);
        lemma_paths_in_member(forest, path);
        if paths_in(nodes).contains(path) {
            let i = choose|i: int| 0 <= i < nodes.len() && paths_of(#[trigger] nodes[i]).contains(path);
            assert(nodes[i] == forest[forest.len() - 1 - i]);
        }
        if paths_in(forest).contains(path) {
            let i = choose|i: int|
                0 <= i < forest.len() && paths_of(#[trigger] forest[i]).contains(path);
            assert(nodes[forest.len() - 1 - i] == forest[i]);
        }
    }
    assert(paths_in(nodes) =~= paths_in(forest));
}

/// Seeing a path again leaves every synced path synced, and makes the path
/// itself synced where the store has a record of it.
pub proof fn lemma_synced_touched(records: Seq<Record>, seen: Seq<char>, time: u64, path: Seq<char>)
    requires
        valid(records),
    ensures
        synced(records, path) ==> synced(touched(records, seen, time), path),
        has_record(records, seen) ==> synced(touched(records, seen, time), seen),
        has_record(touched(records, seen, time), path) == has_record(records, path),
{
    let after = touched(records, seen, time);
    if synced(records, path) {
        let i = choose|i: int|
            0 <= i < records.len() && (#[trigger] records[i]).path == path && records[i].included
                && records[i].remote_id.len() > 0;
        assert(after[i].path == path);
    }
    if has_record(records, seen) {
        let i = choose|i: int| 0 <= i < records.len() && (#[trigger] records[i]).path == seen;
        assert(after[i].path == seen);
    }
    if has_record(records, path) {
        let i = choose|i: int| 0 <= i < records.len() && (#[trigger] records[i]).path == path;
        assert(after[i].path == path);
    }
    if has_record(after, path) {
        let i = choose|i: int| 0 <= i < after.len() && (#[trigger] after[i]).path == path;
        assert(records[i].path == path);
    }
}

/// Recording a path under an identifier leaves every synced path synced
/// and makes the path itself synced.
pub proof fn lemma_synced_upserted(
    records: Seq<Record>,
    fresh: Seq<char>,
    id: Seq<char>,
    time: u64,
    path: Seq<char>,
)
    requires
        valid(records),
        id.len() > 0,
    ensures
        synced(records, path) ==> synced(upserted(records, fresh, id, time), path),
        synced(upserted(records, fresh, id, time), fresh),
        has_record(upserted(records, fresh, id, time), path) == (has_record(records, path) || path
            == fresh),
{
    let after = upserted(records, fresh, id, time);
    if has_record(records, fresh) {
        let k = choose|k: int| 0 <= k < records.len() && (#[trigger] records[k]).path == fresh;
        assert(after[k].path == fresh);
    } else {
        assert(after[records.len() as int].path == fresh);
    }
    if synced(records, path) {
        let i = choose|i: int|
            0 <= i < records.len() && (#[trigger] records[i]).path == path && records[i].included
                && records[i].remote_id.len() > 0;
        assert(after[i].path == path);
    }
    if has_record(records, path) {
        let i = choose|i: int| 0 <= i < records.len() && (#[trigger] records[i]).path == path;
        assert(after[i].path == path);
    }
    if has_record(after, path) && path != fresh {
        let i = choose|i: int| 0 <= i < after.len() && (#[trigger] after[i]).path == path;
        assert(records[i].path == path);
    }
}

/// Removing the stale records leaves every synced path synced.
pub proof fn lemma_synced_live(records: Seq<Record>, path: Seq<char>)
    requires
        synced(records, path),
    ensures
        synced(live(records), path),
{
    let i = choose|i: int|
        0 <= i < records.len() && (#[trigger] records[i]).path == path && records[i].included
            && records[i].remote_id.len() > 0;
    let keep = |record: Record| record.included;
    records.lemma_filter_contains(keep, i);
    let kept = records.filter(keep);
    let k = choose|k: int| 0 <= k < kept.len() && kept[k] == records[i];
    assert(kept[k].path == path);
}

/// What a run over `forest` keeps true of its state: every path of the
/// forest is synced or still to be looked at, and once the traversal is
/// over nothing is left to look at.
pub open spec fn converging(state: State, forest: Seq<Node>) -> bool {
    &&& well_formed(state)
    &&& forall|path: Seq<char>|
        paths_in(forest).contains(path) ==> synced(state.records, path) || job_paths(
            state.pending,
        ).contains(path)
    &&& (state.stage is Deleting || state.stage is Sweeping || state.stage is Finished)
        ==> state.pending.len() == 0
}

/// `converging` holds when a node is done with, if its path is synced then.
pub proof fn lemma_completed_converging(
    state: State,
    forest: Seq<Node>,
    records: Seq<Record>,
    id: Seq<char>,
    change: Change,
)
    requires
        converging(state, forest),
        state.pending.len() > 0,
        valid(records),
        synced(records, state.pending.last().node.path()),
        forall|path: Seq<char>| synced(state.records, path) ==> synced(records, path),
    ensures
        converging(completed(state, records, id, change), forest),
{
    let next = completed(state, records, id, change);
    assert forall|path: Seq<char>| paths_in(forest).contains(path) implies synced(
        next.records,
        path,
    ) || job_paths(next.pending).contains(path) by {
        lemma_job_paths_completed(state.pending, id, path);
    }
}

/// `converging` holds when the next node has been recorded.
pub proof fn lemma_recorded_converging(state: State, forest: Seq<Node>, id: Seq<char>, time: u64)
    requires
        converging(state, forest),
        state.pending.len() > 0,
        !(state.stage is Deleting || state.stage is Sweeping || state.stage is Finished),
    ensures
        converging(recorded(state, id, time), forest),
{
    let path = state.pending.last().node.path();
    if id.len() > 0 {
        let records = upserted(state.records, path, id, time);
        crate::store::lemma_upserted_valid(state.records, path, id, time);
        assert forall|other: Seq<char>| synced(state.records, other) implies synced(
            records,
            other,
        ) by {
            lemma_synced_upserted(state.records, path, id, time, other);
        }
        lemma_synced_upserted(state.records, path, id, time, path);
        lemma_completed_converging(
            state,
            forest,
            records,
            id,
            Change::Upsert(Record { path, remote_id: id, modification_time: time, included: true }),
        );
    }
}

/// Every step keeps `converging`.
pub proof fn lemma_step_converging(state: State, reply: Reply, forest: Seq<Node>)
    requires
        converging(state, forest),
    ensures
        converging(step(state, reply), forest),
{
    lemma_step_well_formed(state, reply);
    let path = state.pending.last().node.path();
    match (state.stage, reply) {
        (Stage::Reading, Reply::ModificationTime(Ok(time))) => {
            match lookup(state.records, path) {
                Some(record) => {
                    if !(state.pending.last().node is File && time > record.modification_time) {
                        let records = touched(state.records, path, time);
                        crate::store::lemma_touched_valid(state.records, path, time);
                        assert forall|other: Seq<char>| synced(state.records, other) implies synced(
                            records,
                            other,
                        ) by {
                            lemma_synced_touched(state.records, path, time, other);
                        }
                        lemma_synced_touched(state.records, path, time, path);
                        lemma_completed_converging(
                            state,
                            forest,
                            records,
                            record.remote_id,
                            Change::Touch { path, modification_time: time },
                        );
                    }
                },
                None => {},
            }
        },
        (Stage::Listing { time }, Reply::Folders(Ok(files))) => {
            let id = crate::reconcile::model::adopted(
                files,
                state.pending.last().node->Directory_name,
            );
            if id.len() > 0 {
                lemma_recorded_converging(state, forest, id, time);
            }
        },
        (Stage::Creating { time }, Reply::Created(Ok(id))) => {
            lemma_recorded_converging(state, forest, id, time);
        },
        (Stage::Retrying { time }, Reply::Created(Ok(id))) => {
            lemma_recorded_converging(state, forest, id, time);
        },
        (Stage::Updating { time, id }, Reply::Updated(Ok(_))) => {
            lemma_recorded_converging(state, forest, id, time);
        },
        (Stage::Uploading { time }, Reply::Uploaded(Ok(id))) => {
            lemma_recorded_converging(state, forest, id, time);
        },
        (Stage::Deleting { index }, Reply::Deleted(Ok(_))) => {
            if !(index + 1 < state.doomed.len()) {
                assert forall|other: Seq<char>| synced(state.records, other) implies synced(
                    live(state.records),
                    other,
                ) by {
                    lemma_synced_live(state.records, other);
                }
                assert(job_paths(state.pending) =~= Set::<Seq<char>>::empty());
            }
        },
        _ => {},
    }
}

/// Every run keeps `converging`.
pub proof fn lemma_run_converging(state: State, replies: Seq<Reply>, forest: Seq<Node>)
    requires
        converging(state, forest),
    ensures
        converging(run(state, replies), forest),
    decreases replies.len(),
{
    if replies.len() > 0 {
        lemma_step_converging(state, replies[0], forest);
        lemma_run_converging(step(state, replies[0]), replies.drop_first(), forest);
    }
}

/// Convergence. When a run over a forest is complete, the store holds for
/// every file and directory of the forest a record that is marked as seen
/// and names a remote entity, whatever the store held before and whatever
/// the calls of the run returned.
pub proof fn lemma_convergence(
    forest: Seq<Node>,
    root: Seq<char>,
    records: Seq<Record>,
    replies: Seq<Reply>,
    path: Seq<char>,
)
    requires
        valid(records),
        run(start(forest, root, records), replies).stage is Finished,
        paths_in(forest).contains(path),
    ensures
        synced(run(start(forest, root, records), replies).records, path),
        lookup(run(start(forest, root, records), replies).records, path) is Some,
        lookup(run(start(forest, root, records), replies).records, path)->Some_0.remote_id.len()
            > 0,
{
    let first = start(forest, root, records);
    crate::store::lemma_unmarked_valid(records);
    lemma_job_paths_start(forest, root);
    lemma_run_converging(first, replies, forest);
    let last = run(first, replies);
    assert(job_paths(last.pending) =~= Set::<Seq<char>>::empty());
    let i = choose|i: int|
        0 <= i < last.records.len() && (#[trigger] last.records[i]).path == path
            && last.records[i].included && last.records[i].remote_id.len() > 0;
    lemma_lookup_named(last.records, path);
}

/// Whether `reply` reports no change of a file: where it gives the
/// modification time of a file that has a record, the time is not later
/// than the recorded one.
pub open spec fn calm(state: State, reply: Reply) -> bool {
    match (state.stage, reply) {
        (Stage::Reading, Reply::ModificationTime(Ok(time))) => {
            let node = state.pending.last().node;
            node is File ==> match lookup(state.records, node.path()) {
                Some(record) => time <= record.modification_time,
                None => true,
            }
        },
        _ => true,
    }
}

/// Whether no reply of a run from `state` reports a change of a file.
pub open spec fn quiet(state: State, replies: Seq<Reply>) -> bool
    decreases replies.len(),
{
    replies.len() == 0 || (calm(state, replies[0]) && quiet(
        step(state, replies[0]),
        replies.drop_first(),
    ))
}

/// What a run keeps true of its state when the store knows the tree
/// already: the run only reads and writes, every path still to be looked
/// at has a record, and every record is marked as seen or still to be
/// looked at.
pub open spec fn settled(state: State) -> bool {
    &&& well_formed(state)
    &&& (state.stage is Storing || state.stage is Reading || state.stage is Finished
        || state.stage is Failed)
    &&& state.stage is Storing ==> !(state.stage->Storing_0 is Sweep)
    &&& forall|path: Seq<char>|
        job_paths(state.pending).contains(path) ==> has_record(state.records, path)
    &&& forall|i: int|
        0 <= i < state.records.len() ==> (#[trigger] state.records[i]).included || job_paths(
            state.pending,
        ).contains(state.records[i].path)
}

/// A step on a calm reply keeps `settled`.
pub proof fn lemma_step_settled(state: State, reply: Reply)
    requires
        settled(state),
        calm(state, reply),
    ensures
        settled(step(state, reply)),
{
    lemma_step_well_formed(state, reply);
    let next = step(state, reply);
    match (state.stage, reply) {
        (Stage::Storing(_), Reply::Stored(Ok(_))) => {
            if state.pending.len() == 0 {
                assert(job_paths(state.pending) =~= Set::<Seq<char>>::empty());
                lemma_stale_empty(state.records);
            }
        },
        (Stage::Reading, Reply::ModificationTime(Ok(time))) => {
            let node = state.pending.last().node;
            let path = node.path();
            lemma_job_paths_completed(state.pending, Seq::empty(), path);
            assert(has_record(state.records, path));
            let record = lookup(state.records, path)->Some_0;
            let records = touched(state.records, path, time);
            assert(next == completed(
                state,
                records,
                record.remote_id,
                Change::Touch { path, modification_time: time },
            ));
            assert forall|other: Seq<char>| job_paths(next.pending).contains(
                other,
            ) implies has_record(next.records, other) by {
                lemma_job_paths_completed(state.pending, record.remote_id, other);
                lemma_synced_touched(state.records, path, time, other);
            }
            assert forall|i: int| 0 <= i < next.records.len() implies (
            #[trigger] next.records[i]).included || job_paths(next.pending).contains(
                next.records[i].path,
            ) by {
                lemma_job_paths_completed(state.pending, record.remote_id, state.records[i].path);
                assert(state.records[i].included || job_paths(state.pending).contains(
                    state.records[i].path,
                ));
            }
        },
        _ => {},
    }
}

/// A quiet run from a settled state makes no call to the remote store.
pub proof fn lemma_run_settled(state: State, replies: Seq<Reply>)
    requires
        settled(state),
        quiet(state, replies),
    ensures
        settled(run(state, replies)),
        forall|k: int|
            0 <= k < calls(state, replies).len() ==> !(#[trigger] calls(
                state,
                replies,
            )[k]).is_remote(),
    decreases replies.len(),
{
    if replies.len() > 0 {
        lemma_step_settled(state, replies[0]);
        lemma_run_settled(step(state, replies[0]), replies.drop_first());
        let rest = calls(step(state, replies[0]), replies.drop_first());
        assert forall|k: int| 0 <= k < calls(state, replies).len() implies !(#[trigger] calls(
            state,
            replies,
        )[k]).is_remote() by {
            if k > 0 {
                assert(calls(state, replies)[k] == rest[k - 1]);
            }
        }
    }
}

/// Idempotence. A run over a tree that the store knows already, every
/// path of it recorded and no other, with no file changed since, makes no
/// call to the remote store at all: nothing is listed, created, uploaded,
/// updated or deleted. All it does is read modification times and write
/// to the state store.
pub proof fn lemma_idempotence(
    forest: Seq<Node>,
    root: Seq<char>,
    records: Seq<Record>,
    replies: Seq<Reply>,
)
    requires
        valid(records),
        forall|path: Seq<char>| paths_in(forest).contains(path) ==> has_record(records, path),
        forall|i: int|
            0 <= i < records.len() ==> paths_in(forest).contains((#[trigger] records[i]).path),
        quiet(start(forest, root, records), replies),
    ensures
        forall|k: int|
            0 <= k < calls(start(forest, root, records), replies).len() ==> !(#[trigger] calls(
                start(forest, root, records),
                replies,
            )[k]).is_remote(),
{
    let first = start(forest, root, records);
    crate::store::lemma_unmarked_valid(records);
    lemma_job_paths_start(forest, root);
    assert forall|path: Seq<char>| job_paths(first.pending).contains(path) implies has_record(
        first.records,
        path,
    ) by {
        assert(paths_in(forest).contains(path));
        assert(has_record(records, path));
        let i = choose|i: int| 0 <= i < records.len() && (#[trigger] records[i]).path == path;
        assert(first.records[i].path == path);
    }
    assert forall|i: int| 0 <= i < first.records.len() implies (
    #[trigger] first.records[i]).included || job_paths(first.pending).contains(
        first.records[i].path,
    ) by {
        assert(first.records[i].path == records[i].path);
    }
    lemma_run_settled(first, replies);
}

/// What a run over `forest` keeps true of its state besides `converging`:
/// only paths of the forest are marked as seen or still to be looked at,
/// and once the stale records are gone every record is marked as seen.
pub open spec fn bounded(state: State, forest: Seq<Node>) -> bool {
    &&& well_formed(state)
    &&& forall|i: int|
        0 <= i < state.records.len() && (#[trigger] state.records[i]).included ==> paths_in(
            forest,
        ).contains(state.records[i].path)
    &&& forall|path: Seq<char>|
        job_paths(state.pending).contains(path) ==> paths_in(forest).contains(path)
    &&& (state.stage is Sweeping || state.stage is Finished) ==> forall|i: int|
        0 <= i < state.records.len() ==> (#[trigger] state.records[i]).included
}

/// `bounded` holds when a node is done with, if only its path got marked.
pub proof fn lemma_completed_bounded(
    state: State,
    forest: Seq<Node>,
    records: Seq<Record>,
    id: Seq<char>,
    change: Change,
)
    requires
        bounded(state, forest),
        state.pending.len() > 0,
        valid(records),
        forall|i: int|
            0 <= i < records.len() && (#[trigger] records[i]).included ==> records[i].path
                == state.pending.last().node.path() || (exists|k: int|
                0 <= k < state.records.len() && (#[trigger] state.records[k]).included
                    && state.records[k].path == records[i].path),
    ensures
        bounded(completed(state, records, id, change), forest),
{
    let next = completed(state, records, id, change);
    let top = state.pending.last().node.path();
    lemma_job_paths_completed(state.pending, id, top);
    assert forall|path: Seq<char>| job_paths(next.pending).contains(path) implies paths_in(
        forest,
    ).contains(path) by {
        lemma_job_paths_completed(state.pending, id, path);
    }
    assert forall|i: int|
        0 <= i < next.records.len() && (#[trigger] next.records[i]).included implies paths_in(
        forest,
    ).contains(next.records[i].path) by {
        if records[i].path != top {
            let k = choose|k: int|
                0 <= k < state.records.len() && (#[trigger] state.records[k]).included
                    && state.records[k].path == records[i].path;
        }
    }
}

/// `bounded` holds when the next node has been recorded.
pub proof fn lemma_recorded_bounded(state: State, forest: Seq<Node>, id: Seq<char>, time: u64)
    requires
        bounded(state, forest),
        state.pending.len() > 0,
        !(state.stage is Sweeping || state.stage is Finished),
    ensures
        bounded(recorded(state, id, time), forest),
{
    let path = state.pending.last().node.path();
    if id.len() > 0 {
        let records = upserted(state.records, path, id, time);
        crate::store::lemma_upserted_valid(state.records, path, id, time);
        assert forall|i: int| 0 <= i < records.len() && (#[trigger] records[i]).included implies
            records[i].path == path || (exists|k: int|
            0 <= k < state.records.len() && (#[trigger] state.records[k]).included
                && state.records[k].path == records[i].path) by {
            if records[i].path != path {
                assert(state.records[i].included);
            }
        }
        lemma_completed_bounded(
            state,
            forest,
            records,
            id,
            Change::Upsert(Record { path, remote_id: id, modification_time: time, included: true }),
        );
    }
}

/// Every step keeps `bounded`.
pub proof fn lemma_step_bounded(state: State, reply: Reply, forest: Seq<Node>)
    requires
        bounded(state, forest),
    ensures
        bounded(step(state, reply), forest),
{
    lemma_step_well_formed(state, reply);
    let path = state.pending.last().node.path();
    match (state.stage, reply) {
        (Stage::Storing(_), Reply::Stored(Ok(_))) => {
            lemma_stale_empty(state.records);
        },
        (Stage::Reading, Reply::ModificationTime(Ok(time))) => {
            match lookup(state.records, path) {
                Some(record) => {
                    if !(state.pending.last().node is File && time > record.modification_time) {
                        let records = touched(state.records, path, time);
                        crate::store::lemma_touched_valid(state.records, path, time);
                        assert forall|i: int|
                            0 <= i < records.len() && (#[trigger] records[i]).included implies
                            records[i].path == path || (exists|k: int|
                            0 <= k < state.records.len() && (#[trigger] state.records[k]).included
                                && state.records[k].path == records[i].path) by {
                            if records[i].path != path {
                                assert(state.records[i].included);
                            }
                        }
                        lemma_completed_bounded(
                            state,
                            forest,
                            records,
                            record.remote_id,
                            Change::Touch { path, modification_time: time },
                        );
                    }
                },
                None => {},
            }
        },
        (Stage::Listing { time }, Reply::Folders(Ok(files))) => {
            let id = crate::reconcile::model::adopted(
                files,
                state.pending.last().node->Directory_name,
            );
            if id.len() > 0 {
                lemma_recorded_bounded(state, forest, id, time);
            }
        },
        (Stage::Creating { time }, Reply::Created(Ok(id))) => {
            lemma_recorded_bounded(state, forest, id, time);
        },
        (Stage::Retrying { time }, Reply::Created(Ok(id))) => {
            lemma_recorded_bounded(state, forest, id, time);
        },
        (Stage::Updating { time, id }, Reply::Updated(Ok(_))) => {
            lemma_recorded_bounded(state, forest, id, time);
        },
        (Stage::Uploading { time }, Reply::Uploaded(Ok(id))) => {
            lemma_recorded_bounded(state, forest, id, time);
        },
        (Stage::Deleting { index }, Reply::Deleted(Ok(_))) => {
            if !(index + 1 < state.doomed.len()) {
                let kept = live(state.records);
                lemma_live_included(state.records);
                assert forall|i: int|
                    0 <= i < kept.len() && (#[trigger] kept[i]).included implies paths_in(
                    forest,
                ).contains(kept[i].path) by {
                    assert(kept.contains(kept[i]));
                    state.records.lemma_filter_contains_rev(
                        |record: Record| record.included,
                        kept[i],
                    );
                    let k = choose|k: int|
                        0 <= k < state.records.len() && state.records[k] == kept[i];
                    assert(state.records[k].included);
                }
            }
        },
        _ => {},
    }
}

/// Every run keeps `bounded`.
pub proof fn lemma_run_bounded(state: State, replies: Seq<Reply>, forest: Seq<Node>)
    requires
        bounded(state, forest),
    ensures
        bounded(run(state, replies), forest),
    decreases replies.len(),
{
    if replies.len() > 0 {
        lemma_step_bounded(state, replies[0], forest);
        lemma_run_bounded(step(state, replies[0]), replies.drop_first(), forest);
    }
}

/// Idempotence of two runs in a row. When a run over a tree is complete
/// and a second run over the same tree starts from the store that the
/// first one left, with no file changed since, the second run makes no
/// call to the remote store: it lists, creates, uploads, updates and
/// deletes nothing.
pub proof fn lemma_second_run_is_idle(
    forest: Seq<Node>,
    root: Seq<char>,
    records: Seq<Record>,
    first: Seq<Reply>,
    second: Seq<Reply>,
)
    requires
        valid(records),
        run(start(forest, root, records), first).stage is Finished,
        quiet(start(forest, root, run(start(forest, root, records), first).records), second),
    ensures
        forall|k: int|
            0 <= k < calls(
                start(forest, root, run(start(forest, root, records), first).records),
                second,
            ).len() ==> !(#[trigger] calls(
                start(forest, root, run(start(forest, root, records), first).records),
                second,
            )[k]).is_remote(),
{
    let begin = start(forest, root, records);
    let left = run(begin, first);
    crate::store::lemma_unmarked_valid(records);
    lemma_job_paths_start(forest, root);
    lemma_run_bounded(begin, first, forest);
    assert forall|path: Seq<char>| paths_in(forest).contains(path) implies has_record(
        left.records,
        path,
    ) by {
        lemma_convergence(forest, root, records, first, path);
    }
    lemma_idempotence(forest, root, left.records, second);
}

/// The number of times that a run from `state` asks to delete the remote
/// entity `id` for the local path `path`.
pub open spec fn deletions(state: State, replies: Seq<Reply>, path: Seq<char>, id: Seq<char>) -> nat
    decreases replies.len(),
{
    let here: nat = if call_of(state) == (Call::DeleteFile { id, path }) {
        1
    } else {
        0
    };
    if replies.len() == 0 {
        here
    } else {
        here + deletions(step(state, replies[0]), replies.drop_first(), path, id)
    }
}

/// Whether the store holds a record of `path` under `id` that is not marked
/// as seen.
pub open spec fn unseen(records: Seq<Record>, path: Seq<char>, id: Seq<char>) -> bool {
    exists|i: int|
        0 <= i < records.len() && (#[trigger] records[i]).path == path && !records[i].included
            && records[i].remote_id == id
}

/// What a run keeps true of a recorded path that the tree no longer holds:
/// until the traversal is over its record stays as it is, unmarked; then
/// it is among the stale records; and once these are removed it is gone.
pub open spec fn vanishing(state: State, path: Seq<char>, id: Seq<char>) -> bool {
    &&& well_formed(state)
    &&& match state.stage {
        Stage::Failed(_) => true,
        Stage::Sweeping | Stage::Finished => !has_record(state.records, path),
        Stage::Deleting { .. } => state.doomed == stale(state.records) && unseen(
            state.records,
            path,
            id,
        ),
        _ => unseen(state.records, path, id) && !job_paths(state.pending).contains(path),
    }
}

/// How many times the remote entity of a vanishing path is still to be
/// deleted.
pub open spec fn outstanding(state: State, path: Seq<char>) -> nat {
    match state.stage {
        Stage::Deleting { index } => if exists|j: int|
            index <= j < state.doomed.len() && (#[trigger] state.doomed[j]).path == path {
            1
        } else {
            0
        },
        Stage::Sweeping | Stage::Finished | Stage::Failed(_) => 0,
        _ => 1,
    }
}

/// A run that has failed stays failed.
pub proof fn lemma_run_failed(state: State, replies: Seq<Reply>)
    requires
        state.stage is Failed,
    ensures
        run(state, replies).stage is Failed,
    decreases replies.len(),
{
    if replies.len() > 0 {
        lemma_run_failed(step(state, replies[0]), replies.drop_first());
    }
}

/// An unmarked record is among the stale records, and the stale records
/// hold no path twice.
pub proof fn lemma_unseen_is_stale(records: Seq<Record>, path: Seq<char>, id: Seq<char>)
    requires
        valid(records),
        unseen(records, path, id),
    ensures
        valid(stale(records)),
        exists|j: int|
            0 <= j < stale(records).len() && (#[trigger] stale(records)[j]).path == path && stale(
                records,
            )[j].remote_id == id,
        !has_record(live(records), path),
{
    let i = choose|i: int|
        0 <= i < records.len() && (#[trigger] records[i]).path == path && !records[i].included
            && records[i].remote_id == id;
    let old_ones = |record: Record| !record.included;
    crate::store::lemma_filter_valid(records, old_ones);
    records.lemma_filter_contains(old_ones, i);
    let gone = stale(records);
    let j = choose|j: int| 0 <= j < gone.len() && gone[j] == records[i];
    assert(gone[j].path == path);
    if has_record(live(records), path) {
        let kept = live(records);
        let k = choose|k: int| 0 <= k < kept.len() && (#[trigger] kept[k]).path == path;
        lemma_live_included(records);
        assert(kept.contains(kept[k]));
        records.lemma_filter_contains_rev(|record: Record| record.included, kept[k]);
        let m = choose|m: int| 0 <= m < records.len() && records[m] == kept[k];
        if m < i {
            assert(records[m].path != records[i].path);
        } else if i < m {
            assert(records[i].path != records[m].path);
        }
    }
}

/// An unmarked record stays as it is when another path is seen again or
/// recorded.
pub proof fn lemma_unseen_kept(
    records: Seq<Record>,
    path: Seq<char>,
    id: Seq<char>,
    other: Seq<char>,
    other_id: Seq<char>,
    time: u64,
)
    requires
        unseen(records, path, id),
        other != path,
    ensures
        unseen(touched(records, other, time), path, id),
        unseen(upserted(records, other, other_id, time), path, id),
{
    let i = choose|i: int|
        0 <= i < records.len() && (#[trigger] records[i]).path == path && !records[i].included
            && records[i].remote_id == id;
    assert(touched(records, other, time)[i] == records[i]);
    assert(upserted(records, other, other_id, time)[i] == records[i]);
}

/// Every step keeps `vanishing`, and unless it fails it leaves as many
/// deletions outstanding as there were, less the one that was asked for.
pub proof fn lemma_step_vanishing(state: State, reply: Reply, path: Seq<char>, id: Seq<char>)
    requires
        vanishing(state, path, id),
    ensures
        vanishing(step(state, reply), path, id),
        !(step(state, reply).stage is Failed) ==> outstanding(state, path) == outstanding(
            step(state, reply),
            path,
        ) + (if call_of(state) == (Call::DeleteFile { id, path }) {
            1nat
        } else {
            0nat
        }),
{
    lemma_step_well_formed(state, reply);
    let next = step(state, reply);
    let top = state.pending.last().node.path();
    if state.pending.len() > 0 {
        lemma_job_paths_completed(state.pending, Seq::empty(), top);
    }
    match (state.stage, reply) {
        (Stage::Storing(_), Reply::Stored(Ok(_))) => {
            lemma_unseen_is_stale(state.records, path, id);
            if state.pending.len() == 0 {
                let j = choose|j: int|
                    0 <= j < stale(state.records).len() && (#[trigger] stale(
                        state.records,
                    )[j]).path == path && stale(state.records)[j].remote_id == id;
                assert(next.doomed[j].path == path);
            }
        },
        (Stage::Reading, Reply::ModificationTime(Ok(time))) => {
            lemma_unseen_kept(state.records, path, id, top, Seq::empty(), time);
            if next.stage is Storing {
                let record = lookup(state.records, top)->Some_0;
                lemma_job_paths_completed(state.pending, record.remote_id, path);
            }
        },
        (Stage::Listing { time }, Reply::Folders(Ok(files))) => {
            let found = crate::reconcile::model::adopted(
                files,
                state.pending.last().node->Directory_name,
            );
            lemma_unseen_kept(state.records, path, id, top, found, time);
            lemma_job_paths_completed(state.pending, found, path);
        },
        (Stage::Creating { time }, Reply::Created(Ok(found))) => {
            lemma_unseen_kept(state.records, path, id, top, found, time);
            lemma_job_paths_completed(state.pending, found, path);
        },
        (Stage::Retrying { time }, Reply::Created(Ok(found))) => {
            lemma_unseen_kept(state.records, path, id, top, found, time);
            lemma_job_paths_completed(state.pending, found, path);
        },
        (Stage::Updating { time, id: found }, Reply::Updated(Ok(_))) => {
            lemma_unseen_kept(state.records, path, id, top, found, time);
            lemma_job_paths_completed(state.pending, found, path);
        },
        (Stage::Uploading { time }, Reply::Uploaded(Ok(found))) => {
            lemma_unseen_kept(state.records, path, id, top, found, time);
            lemma_job_paths_completed(state.pending, found, path);
        },
        (Stage::Deleting { index }, Reply::Deleted(Ok(_))) => {
            lemma_unseen_is_stale(state.records, path, id);
            let gone = state.doomed;
            let j = choose|j: int|
                0 <= j < gone.len() && (#[trigger] gone[j]).path == path && gone[j].remote_id
                    == id;
            if index < j {
                assert(gone[index as int].path != gone[j].path);
            } else if j < index {
                assert(gone[j].path != gone[index as int].path);
                if exists|k: int| index <= k < gone.len() && (#[trigger] gone[k]).path == path {
                    let k = choose|k: int|
                        index <= k < gone.len() && (#[trigger] gone[k]).path == path;
                    assert(gone[j].path != gone[k].path);
                }
            }
            if index + 1 < gone.len() {
                if exists|k: int| index + 1 <= k < gone.len() && (#[trigger] gone[k]).path == path {
                    let k = choose|k: int|
                        index + 1 <= k < gone.len() && (#[trigger] gone[k]).path == path;
                    if j < k {
                        assert(gone[j].path != gone[k].path);
                    } else if k < j {
                        assert(gone[k].path != gone[j].path);
                    }
                }
            }
        },
        _ => {},
    }
}

/// A complete run from a state in which a path is vanishing asks to delete
/// its remote entity as often as is outstanding, and leaves no record of
/// it.
pub proof fn lemma_run_vanishing(state: State, replies: Seq<Reply>, path: Seq<char>, id: Seq<char>)
    requires
        vanishing(state, path, id),
        run(state, replies).stage is Finished,
    ensures
        deletions(state, replies, path, id) == outstanding(state, path),
        !has_record(run(state, replies).records, path),
    decreases replies.len(),
{
    if replies.len() > 0 {
        let next = step(state, replies[0]);
        lemma_step_vanishing(state, replies[0], path, id);
        if next.stage is Failed {
            lemma_run_failed(next, replies.drop_first());
        }
        lemma_run_vanishing(next, replies.drop_first(), path, id);
    }
}

/// Deletion. When the store holds a record of a path that the tree no
/// longer holds, a complete run asks exactly once to delete the remote
/// entity that the record names, and leaves no record of the path.
pub proof fn lemma_deletion(
    forest: Seq<Node>,
    root: Seq<char>,
    records: Seq<Record>,
    replies: Seq<Reply>,
    path: Seq<char>,
)
    requires
        valid(records),
        has_record(records, path),
        !paths_in(forest).contains(path),
        run(start(forest, root, records), replies).stage is Finished,
    ensures
        deletions(
            start(forest, root, records),
            replies,
            path,
            lookup(records, path)->Some_0.remote_id,
        ) == 1,
        !has_record(run(start(forest, root, records), replies).records, path),
{
    let first = start(forest, root, records);
    let id = lookup(records, path)->Some_0.remote_id;
    crate::store::lemma_unmarked_valid(records);
    lemma_job_paths_start(forest, root);
    let i = choose|i: int| 0 <= i < records.len() && (#[trigger] records[i]).path == path;
    assert(first.records[i].path == path);
    lemma_run_vanishing(first, replies, path, id);
}

/// Change detection. When the modification time of a file that has a
/// record is later than the recorded one, the run asks once to update the
/// remote file that the record names: whatever the reply is, the next call
/// is a write to the state store or the end of the run, and on success the
/// file is done with. When the time is the recorded one or earlier, the
/// file is done with at once and no call to the remote store is made for
/// it: its record is marked as seen and written.
pub proof fn lemma_change_detection(state: State, time: u64, reply: Reply)
    requires
        well_formed(state),
        state.stage is Reading,
        state.pending.last().node is File,
        lookup(state.records, state.pending.last().node.path()) is Some,
    ensures
        ({
            let path = state.pending.last().node.path();
            let record = lookup(state.records, path)->Some_0;
            let next = step(state, Reply::ModificationTime(Ok(time)));
            if time > record.modification_time {
                &&& call_of(next) == (Call::UpdateFile { path, id: record.remote_id })
                &&& !call_of(step(next, reply)).is_remote()
                &&& step(next, Reply::Updated(Ok(()))).pending == state.pending.drop_last()
                &&& step(next, Reply::Updated(Ok(()))).records == upserted(
                    state.records,
                    path,
                    record.remote_id,
                    time,
                )
            } else {
                &&& call_of(next) == Call::Store(Change::Touch { path, modification_time: time })
                &&& next.pending == state.pending.drop_last()
                &&& next.records == touched(state.records, path, time)
            }
        }),
{
    let path = state.pending.last().node.path();
    let record = lookup(state.records, path)->Some_0;
    let next = step(state, Reply::ModificationTime(Ok(time)));
    lemma_lookup_named(state.records, path);
    assert(state.pending.drop_last() + jobs_below(state.pending.last().node, record.remote_id)
        =~= state.pending.drop_last());
}

/// The writes tell all. The records of a run change only in a step that
/// goes on to ask for a write, and then by exactly the change that the
/// write names: whoever makes every write that is asked for holds, in the
/// durable store, the records that the run holds.
pub proof fn lemma_writes_tell_all(state: State, reply: Reply)
    requires
        well_formed(state),
    ensures
        step(state, reply).records == (match call_of(step(state, reply)) {
            Call::Store(change) => applied(state.records, change),
            _ => state.records,
        }),
{
}

/// A run starts with the records that the store held, no path marked, and
/// asks first to have that written.
pub proof fn lemma_start_resets(forest: Seq<Node>, root: Seq<char>, records: Seq<Record>)
    ensures
        call_of(start(forest, root, records)) == Call::Store(Change::Reset),
        start(forest, root, records).records == applied(records, Change::Reset),
{
}

} // verus!
