//! The state store: for every local path that was synced, the remote
//! identifier it got, the modification time it had then, and whether the
//! latest traversal has seen it.

use vstd::prelude::*;
use crate::codec::{decode_path, encode_path, encoded_path, path_of_key};
use crate::error::Error;

verus! {

/// What the store remembers of one local path.
#[derive(Debug, Clone, PartialEq, Eq)]
pub struct SyncRecord {
    pub path: String,
    pub remote_id: String,
    pub modification_time: u64,
    pub included: bool,
}

/// The mathematical value of a [`SyncRecord`].
pub struct Record {
    pub path: Seq<char>,
    pub remote_id: Seq<char>,
    pub modification_time: u64,
    pub included: bool,
}

impl View for SyncRecord {
    type V = Record;

    open spec fn view(&self) -> Record {
        Record {
            path: self.path@,
            remote_id: self.remote_id@,
            modification_time: self.modification_time,
            included: self.included,
        }
    }
}

impl SyncRecord {
    /// A copy of the record.
    pub fn duplicate(&self) -> (copy: SyncRecord)
        ensures
            copy == *self,
    {
        SyncRecord {
            path: self.path.clone(),
            remote_id: self.remote_id.clone(),
            modification_time: self.modification_time,
            included: self.included,
        }
    }
}

/// The values of a sequence of records.
pub open spec fn records_of(records: Seq<SyncRecord>) -> Seq<Record> {
    Seq::new(records.len(), |i: int| records[i]@)
}

/// Whether the records are those of a store: no path occurs twice, and no
/// remote identifier is empty.
pub open spec fn valid(records: Seq<Record>) -> bool {
    &&& forall|i: int, j: int|
        0 <= i < j < records.len() ==> (#[trigger] records[i]).path != (#[trigger] records[j]).path
    &&& forall|i: int| 0 <= i < records.len() ==> (#[trigger] records[i]).remote_id.len() > 0
}

/// Whether there is a record of `path`.
pub open spec fn has_record(records: Seq<Record>, path: Seq<char>) -> bool {
    exists|i: int| 0 <= i < records.len() && (#[trigger] records[i]).path == path
}

/// The record of `path`, where there is one.
pub open spec fn lookup(records: Seq<Record>, path: Seq<char>) -> Option<Record> {
    if has_record(records, path) {
        Some(records[choose|i: int| 0 <= i < records.len() && (#[trigger] records[i]).path == path])
    } else {
        None
    }
}

/// A record as it is once its path has been seen again with the
/// modification time `time`.
pub open spec fn seen(record: Record, time: u64) -> Record {
    Record { modification_time: time, included: true, ..record }
}

/// The records once `path` has been seen again: its record, if there is
/// one, is marked and gets the new time; nothing else changes.
pub open spec fn touched(records: Seq<Record>, path: Seq<char>, time: u64) -> Seq<Record> {
    records.map_values(
        |record: Record|
            if record.path == path {
                seen(record, time)
            } else {
                record
            },
    )
}

/// The records once `path` has been synced under `remote_id`: its record is
/// replaced where there is one and added behind the others where there is
/// none.
pub open spec fn upserted(
    records: Seq<Record>,
    path: Seq<char>,
    remote_id: Seq<char>,
    time: u64,
) -> Seq<Record> {
    let fresh = Record { path, remote_id, modification_time: time, included: true };
    if has_record(records, path) {
        records.map_values(
            |record: Record|
                if record.path == path {
                    fresh
                } else {
                    record
                },
        )
    } else {
        records.push(fresh)
    }
}

/// The records with no path marked as seen.
pub open spec fn unmarked(records: Seq<Record>) -> Seq<Record> {
    records.map_values(|record: Record| Record { included: false, ..record })
}

/// The records that the latest traversal has not seen, in their order.
pub open spec fn stale(records: Seq<Record>) -> Seq<Record> {
    records.filter(|record: Record| !record.included)
}

/// The records that the latest traversal has seen, in their order.
pub open spec fn live(records: Seq<Record>) -> Seq<Record> {
    records.filter(|record: Record| record.included)
}

/// In a valid store the record of a path is the one that holds it.
pub proof fn lemma_lookup_is(records: Seq<Record>, i: int)
    requires
        valid(records),
        0 <= i < records.len(),
    ensures
        lookup(records, records[i].path) == Some(records[i]),
{
    let path = records[i].path;
    let j = choose|j: int| 0 <= j < records.len() && (#[trigger] records[j]).path == path;
    if i < j {
        assert(records[i].path != records[j].path);
    } else if j < i {
        assert(records[j].path != records[i].path);
    }
}

/// What is kept of some records has a record only of paths that had one.
pub proof fn lemma_filter_has_record(
    records: Seq<Record>,
    keep: spec_fn(Record) -> bool,
    path: Seq<char>,
)
    requires
        has_record(records.filter(keep), path),
    ensures
        has_record(records, path),
    decreases records.len(),
{
    reveal(Seq::filter);
    if records.len() > 0 {
        let front = records.drop_last();
        let kept = front.filter(keep);
        let last = records.last();
        let all = records.filter(keep);
        let i = choose|i: int| 0 <= i < all.len() && (#[trigger] all[i]).path == path;
        if keep(last) && i == kept.len() {
            assert(records[records.len() - 1].path == path);
        } else {
            assert(kept[i].path == path);
            lemma_filter_has_record(front, keep, path);
            let k = choose|k: int| 0 <= k < front.len() && (#[trigger] front[k]).path == path;
            assert(records[k] == front[k]);
        }
    }
}

/// What is kept of valid records is valid.
pub proof fn lemma_filter_valid(records: Seq<Record>, keep: spec_fn(Record) -> bool)
    requires
        valid(records),
    ensures
        valid(records.filter(keep)),
    decreases records.len(),
{
    reveal(Seq::filter);
    if records.len() > 0 {
        let front = records.drop_last();
        assert forall|i: int, j: int| 0 <= i < j < front.len() implies (#[trigger] front[i]).path
            != (#[trigger] front[j]).path by {
            assert(front[i] == records[i]);
            assert(front[j] == records[j]);
        }
        assert forall|i: int| 0 <= i < front.len() implies (#[trigger] front[i]).remote_id.len()
            > 0 by {
            assert(front[i] == records[i]);
        }
        lemma_filter_valid(front, keep);
        let kept = front.filter(keep);
        let last = records.last();
        if keep(last) {
            let all = kept.push(last);
            assert forall|i: int, j: int| 0 <= i < j < all.len() implies (#[trigger] all[i]).path
                != (#[trigger] all[j]).path by {
                if j == kept.len() {
                    if all[i].path == last.path {
                        assert(kept[i] == all[i]);
                        assert(has_record(kept, last.path));
                        lemma_filter_has_record(front, keep, last.path);
                        let k = choose|k: int|
                            0 <= k < front.len() && (#[trigger] front[k]).path == last.path;
                        assert(records[k] == front[k]);
                        assert(records[k].path != records[records.len() - 1].path);
                    }
                } else {
                    assert(kept[i] == all[i]);
                    assert(kept[j] == all[j]);
                }
            }
            assert forall|i: int| 0 <= i < all.len() implies (#[trigger] all[i]).remote_id.len()
                > 0 by {
                if i < kept.len() {
                    assert(kept[i] == all[i]);
                } else {
                    assert(all[i] == records[records.len() - 1]);
                }
            }
        }
    }
}

/// The records from the store of a previous run, as one value that is kept
/// valid.
#[derive(Debug)]
pub struct StateStore {
    records: Vec<SyncRecord>,
}

impl View for StateStore {
    type V = Seq<Record>;

    closed spec fn view(&self) -> Seq<Record> {
        records_of(self.records@)
    }
}

impl StateStore {
    /// Whether the store holds no path twice and no empty identifier.
    pub open spec fn wf(&self) -> bool {
        valid(self@)
    }

    /// A store without records.
    pub fn new() -> (store: StateStore)
        ensures
            store@ == Seq::<Record>::empty(),
            store.wf(),
    {
        let store = StateStore { records: Vec::new() };
        assert(store@ =~= Seq::<Record>::empty());
        store
    }

    /// The number of records.
    pub fn len(&self) -> (n: usize)
        ensures
            n == self@.len(),
    {
        self.records.len()
    }

    /// The record at `index`, in the order of the store.
    pub fn record(&self, index: usize) -> (record: &SyncRecord)
        requires
            index < self@.len(),
        ensures
            record@ == self@[index as int],
    {
        &self.records[index]
    }

    /// Where the record of `key` stands.
    fn find(&self, key: &String) -> (found: Option<usize>)
        ensures
            match found {
                Some(i) => i < self@.len() && self@[i as int].path == key@,
                None => !has_record(self@, key@),
            },
    {
        let mut index: usize = 0;
        while index < self.records.len()
            invariant
                index <= self.records@.len(),
                forall|i: int| 0 <= i < index ==> (#[trigger] self@[i]).path != key@,
            decreases self.records@.len() - index,
        {
            if self.records[index].path == *key {
                return Some(index);
            }
            index += 1;
        }
        None
    }

    /// The record of `path`, where there is one.
    pub fn get(&self, path: &str) -> (record: Option<SyncRecord>)
        requires
            self.wf(),
        ensures
            match record {
                Some(r) => lookup(self@, path@) == Some(r@),
                None => lookup(self@, path@) is None,
            },
    {
        let key = String::from_str(path);
        match self.find(&key) {
            Some(i) => {
                proof {
                    lemma_lookup_is(self@, i as int);
                }
                Some(self.records[i].duplicate())
            },
            None => None,
        }
    }

    /// Marks no record as seen. A run starts with this.
    pub fn reset_include_flags(&mut self)
        requires
            old(self).wf(),
        ensures
            final(self)@ == unmarked(old(self)@),
            final(self).wf(),
    {
        let mut index: usize = 0;
        while index < self.records.len()
            invariant
                index <= self.records@.len(),
                self.records@.len() == old(self).records@.len(),
                forall|i: int|
                    0 <= i < index ==> (#[trigger] self.records@[i])@ == (Record {
                        included: false,
                        ..old(self).records@[i]@
                    }),
                forall|i: int|
                    index <= i < self.records@.len() ==> (#[trigger] self.records@[i])
                        == old(self).records@[i],
            decreases self.records@.len() - index,
        {
            let current = &self.records[index];
            let cleared = SyncRecord {
                path: current.path.clone(),
                remote_id: current.remote_id.clone(),
                modification_time: current.modification_time,
                included: false,
            };
            self.records.set(index, cleared);
            index += 1;
        }
        assert(self@ =~= unmarked(old(self)@));
        proof {
            lemma_unmarked_valid(old(self)@);
        }
    }

    /// Records that `path` was synced under `remote_id` with the
    /// modification time `modification_time`, and marks it as seen.
    pub fn upsert(&mut self, path: &str, remote_id: &str, modification_time: u64)
        requires
            old(self).wf(),
            remote_id@.len() > 0,
        ensures
            final(self)@ == upserted(old(self)@, path@, remote_id@, modification_time),
            final(self).wf(),
    {
        let fresh = SyncRecord {
            path: String::from_str(path),
            remote_id: String::from_str(remote_id),
            modification_time,
            included: true,
        };
        match self.find(&fresh.path) {
            Some(i) => {
                self.records.set(i, fresh);
                proof {
                    lemma_upserted_at(old(self)@, i as int, remote_id@, modification_time);
                }
                assert(self@ =~= upserted(old(self)@, path@, remote_id@, modification_time));
            },
            None => {
                self.records.push(fresh);
                assert(self@ =~= upserted(old(self)@, path@, remote_id@, modification_time));
            },
        }
        proof {
            lemma_upserted_valid(old(self)@, path@, remote_id@, modification_time);
        }
    }

    /// Marks `path` as seen with the modification time `modification_time`.
    /// Where the store has no record of the path, nothing changes.
    pub fn touch(&mut self, path: &str, modification_time: u64)
        requires
            old(self).wf(),
        ensures
            final(self)@ == touched(old(self)@, path@, modification_time),
            final(self).wf(),
    {
        let key = String::from_str(path);
        match self.find(&key) {
            Some(i) => {
                let current = &self.records[i];
                let marked = SyncRecord {
                    path: current.path.clone(),
                    remote_id: current.remote_id.clone(),
                    modification_time,
                    included: true,
                };
                self.records.set(i, marked);
                proof {
                    lemma_touched_at(old(self)@, i as int, modification_time);
                }
                assert(self@ =~= touched(old(self)@, path@, modification_time));
            },
            None => {
                assert(self@ =~= touched(old(self)@, path@, modification_time));
            },
        }
        proof {
            lemma_touched_valid(old(self)@, path@, modification_time);
        }
    }

    /// The records that the latest traversal has not seen.
    pub fn stale(&self) -> (records: Vec<SyncRecord>)
        ensures
            records_of(records@) == stale(self@),
    {
        let mut out: Vec<SyncRecord> = Vec::new();
        let mut index: usize = 0;
        assert(self@.take(0) =~= Seq::<Record>::empty());
        proof {
            reveal(Seq::filter);
        }
        assert(records_of(out@) =~= stale(self@.take(0)));
        while index < self.records.len()
            invariant
                index <= self.records@.len(),
                records_of(out@) == stale(self@.take(index as int)),
            decreases self.records@.len() - index,
        {
            let ghost before = records_of(out@);
            proof {
                assert(self@.take(index + 1) =~= self@.take(index as int).push(self@[index as int]));
                self@.take(index as int).lemma_filter_push(
                    self@[index as int],
                    |record: Record| !record.included,
                );
            }
            if !self.records[index].included {
                out.push(self.records[index].duplicate());
                assert(records_of(out@) =~= before.push(self@[index as int]));
            }
            index += 1;
        }
        assert(self@.take(index as int) =~= self@);
        out
    }

    /// Takes out of the store the records that the latest traversal has not
    /// seen, and returns them.
    pub fn sweep(&mut self) -> (removed: Vec<SyncRecord>)
        requires
            old(self).wf(),
        ensures
            records_of(removed@) == stale(old(self)@),
            final(self)@ == live(old(self)@),
            final(self).wf(),
    {
        let removed = self.stale();
        let mut kept: Vec<SyncRecord> = Vec::new();
        let mut index: usize = 0;
        assert(self@.take(0) =~= Seq::<Record>::empty());
        proof {
            reveal(Seq::filter);
        }
        assert(records_of(kept@) =~= live(self@.take(0)));
        while index < self.records.len()
            invariant
                index <= self.records@.len(),
                *self == *old(self),
                records_of(kept@) == live(self@.take(index as int)),
            decreases self.records@.len() - index,
        {
            let ghost before = records_of(kept@);
            proof {
                assert(self@.take(index + 1) =~= self@.take(index as int).push(self@[index as int]));
                self@.take(index as int).lemma_filter_push(
                    self@[index as int],
                    |record: Record| record.included,
                );
            }
            if self.records[index].included {
                kept.push(self.records[index].duplicate());
                assert(records_of(kept@) =~= before.push(self@[index as int]));
            }
            index += 1;
        }
        assert(self@.take(index as int) =~= self@);
        self.records = kept;
        proof {
            lemma_filter_valid(old(self)@, |record: Record| record.included);
        }
        removed
    }
}

/// Valid records stay valid when no path is marked.
pub proof fn lemma_unmarked_valid(records: Seq<Record>)
    requires
        valid(records),
    ensures
        valid(unmarked(records)),
{
    let out = unmarked(records);
    assert forall|i: int, j: int| 0 <= i < j < out.len() implies (#[trigger] out[i]).path != (
    #[trigger] out[j]).path by {
        assert(records[i].path != records[j].path);
    }
    assert forall|i: int| 0 <= i < out.len() implies (#[trigger] out[i]).remote_id.len() > 0 by {
        assert(records[i].remote_id.len() > 0);
    }
}

/// Seeing the path of the record at `i` again changes that record alone.
pub proof fn lemma_touched_at(records: Seq<Record>, i: int, time: u64)
    requires
        valid(records),
        0 <= i < records.len(),
    ensures
        touched(records, records[i].path, time) == records.update(i, seen(records[i], time)),
{
    let path = records[i].path;
    let out = touched(records, path, time);
    assert forall|k: int| 0 <= k < records.len() implies out[k] == records.update(
        i,
        seen(records[i], time),
    )[k] by {
        if k < i {
            assert(records[k].path != records[i].path);
        } else if i < k {
            assert(records[i].path != records[k].path);
        }
    }
    assert(out =~= records.update(i, seen(records[i], time)));
}

/// Valid records stay valid when a path is seen again.
pub proof fn lemma_touched_valid(records: Seq<Record>, path: Seq<char>, time: u64)
    requires
        valid(records),
    ensures
        valid(touched(records, path, time)),
{
    let out = touched(records, path, time);
    assert forall|i: int, j: int| 0 <= i < j < out.len() implies (#[trigger] out[i]).path != (
    #[trigger] out[j]).path by {
        assert(records[i].path != records[j].path);
    }
    assert forall|i: int| 0 <= i < out.len() implies (#[trigger] out[i]).remote_id.len() > 0 by {
        assert(records[i].remote_id.len() > 0);
    }
}

/// Syncing the path of the record at `i` anew replaces that record alone.
pub proof fn lemma_upserted_at(records: Seq<Record>, i: int, remote_id: Seq<char>, time: u64)
    requires
        valid(records),
        0 <= i < records.len(),
    ensures
        upserted(records, records[i].path, remote_id, time) == records.update(
            i,
            Record { path: records[i].path, remote_id, modification_time: time, included: true },
        ),
{
    let path = records[i].path;
    let fresh = Record { path, remote_id, modification_time: time, included: true };
    let out = upserted(records, path, remote_id, time);
    assert(has_record(records, path));
    assert forall|k: int| 0 <= k < records.len() implies out[k] == records.update(i, fresh)[k] by {
        if k < i {
            assert(records[k].path != records[i].path);
        } else if i < k {
            assert(records[i].path != records[k].path);
        }
    }
    assert(out =~= records.update(i, fresh));
}

/// Valid records stay valid when a path is synced under an identifier that
/// is not empty.
pub proof fn lemma_upserted_valid(
    records: Seq<Record>,
    path: Seq<char>,
    remote_id: Seq<char>,
    time: u64,
)
    requires
        valid(records),
        remote_id.len() > 0,
    ensures
        valid(upserted(records, path, remote_id, time)),
{
    let out = upserted(records, path, remote_id, time);
    if has_record(records, path) {
        assert forall|i: int, j: int| 0 <= i < j < out.len() implies (#[trigger] out[i]).path != (
        #[trigger] out[j]).path by {
            assert(records[i].path != records[j].path);
        }
        assert forall|i: int| 0 <= i < out.len() implies (#[trigger] out[i]).remote_id.len()
            > 0 by {
            assert(records[i].remote_id.len() > 0);
        }
    } else {
        assert forall|i: int, j: int| 0 <= i < j < out.len() implies (#[trigger] out[i]).path != (
        #[trigger] out[j]).path by {
            if j < records.len() {
                assert(records[i].path != records[j].path);
            } else {
                assert(records[i].path != path);
            }
        }
        assert forall|i: int| 0 <= i < out.len() implies (#[trigger] out[i]).remote_id.len()
            > 0 by {
            if i < records.len() {
                assert(records[i].remote_id.len() > 0);
            }
        }
    }
}

/// No record is stale exactly when all records are marked as seen.
pub proof fn lemma_stale_empty(records: Seq<Record>)
    ensures
        stale(records).len() == 0 <==> forall|i: int|
            0 <= i < records.len() ==> (#[trigger] records[i]).included,
    decreases records.len(),
{
    reveal(Seq::filter);
    if records.len() > 0 {
        let front = records.drop_last();
        lemma_stale_empty(front);
        if stale(records).len() == 0 {
            assert forall|i: int| 0 <= i < records.len() implies (#[trigger] records[i]).included by {
                if i < front.len() {
                    assert(front[i] == records[i]);
                }
            }
        }
        if forall|i: int| 0 <= i < records.len() ==> (#[trigger] records[i]).included {
            assert forall|i: int| 0 <= i < front.len() implies (#[trigger] front[i]).included by {
                assert(front[i] == records[i]);
            }
            assert(records[records.len() - 1].included);
        }
    }
}

/// The records that are left when the stale ones have been removed are all
/// marked as seen.
pub proof fn lemma_live_included(records: Seq<Record>)
    ensures
        forall|i: int| 0 <= i < live(records).len() ==> (#[trigger] live(records)[i]).included,
{
    assert forall|i: int| 0 <= i < live(records).len() implies (#[trigger] live(
        records,
    )[i]).included by {
        records.lemma_filter_pred(|record: Record| record.included, i);
    }
}

/// A record as the durable store holds it: the path is written as the
/// text that stands for it there.
#[derive(Debug, Clone, PartialEq, Eq)]
pub struct Row {
    pub id: String,
    pub path: String,
    pub modification_time: u64,
    pub sync_include: bool,
}

/// The mathematical value of a [`Row`].
pub struct Line {
    pub id: Seq<char>,
    pub path: Seq<char>,
    pub modification_time: u64,
    pub sync_include: bool,
}

impl View for Row {
    type V = Line;

    open spec fn view(&self) -> Line {
        Line {
            id: self.id@,
            path: self.path@,
            modification_time: self.modification_time,
            sync_include: self.sync_include,
        }
    }
}

/// The values of a sequence of rows.
pub open spec fn lines_of(rows: Seq<Row>) -> Seq<Line> {
    Seq::new(rows.len(), |i: int| rows[i]@)
}

/// The record that a row holds; none where its path cannot be read.
pub open spec fn record_of(line: Line) -> Option<Record> {
    match path_of_key(line.path) {
        Some(path) => Some(
            Record {
                path,
                remote_id: line.id,
                modification_time: line.modification_time,
                included: line.sync_include,
            },
        ),
        None => None,
    }
}

/// The records that the rows hold, in their order; none where a path
/// cannot be read.
pub open spec fn read_rows(lines: Seq<Line>) -> Option<Seq<Record>>
    decreases lines.len(),
{
    if lines.len() == 0 {
        Some(Seq::empty())
    } else {
        match (read_rows(lines.drop_last()), record_of(lines.last())) {
            (Some(records), Some(record)) => Some(records.push(record)),
            _ => None,
        }
    }
}

/// The records of the store that the rows hold; none where a path cannot
/// be read, a path occurs twice or a remote identifier is empty.
pub open spec fn loaded(lines: Seq<Line>) -> Option<Seq<Record>> {
    match read_rows(lines) {
        Some(records) => if valid(records) {
            Some(records)
        } else {
            None
        },
        None => None,
    }
}

/// Rows of which the first ones cannot be loaded cannot be loaded.
pub proof fn lemma_loaded_fails(lines: Seq<Line>, n: int)
    requires
        0 <= n <= lines.len(),
        loaded(lines.take(n)) is None,
    ensures
        loaded(lines) is None,
    decreases lines.len(),
{
    if n == lines.len() {
        assert(lines.take(n) =~= lines);
    } else {
        let front = lines.drop_last();
        assert(front.take(n) =~= lines.take(n));
        lemma_loaded_fails(front, n);
        if read_rows(lines) is Some {
            let all = read_rows(lines)->Some_0;
            let most = read_rows(front)->Some_0;
            if valid(all) {
                assert forall|i: int, j: int| 0 <= i < j < most.len() implies (
                #[trigger] most[i]).path != (#[trigger] most[j]).path by {
                    assert(all[i] == most[i]);
                    assert(all[j] == most[j]);
                }
                assert forall|i: int| 0 <= i < most.len() implies (
                #[trigger] most[i]).remote_id.len() > 0 by {
                    assert(all[i] == most[i]);
                }
            }
        }
    }
}

/// Whether a path can be written into a row and read from it again: the
/// path and the text that stands for it are not too long for the machine.
pub open spec fn writable(path: Seq<char>) -> bool {
    crate::codec::encodable(vstd::utf8::encode_utf8(path).len()) && crate::codec::readable(
        vstd::utf8::encode_utf8(encoded_path(path)).len(),
    )
}

impl SyncRecord {
    /// The row that holds the record, from which the record is read again;
    /// none where the path is too long.
    pub fn to_row(&self) -> (row: Option<Row>)
        ensures
            match row {
                Some(row) => {
                    &&& writable(self@.path)
                    &&& row@ == (Line {
                        id: self@.remote_id,
                        path: encoded_path(self@.path),
                        modification_time: self@.modification_time,
                        sync_include: self@.included,
                    })
                    &&& record_of(row@) == Some(self@)
                },
                None => !writable(self@.path),
            },
    {
        match encode_path(self.path.as_str()) {
            None => None,
            Some(path) => {
                if path.as_str().as_bytes().len() > usize::MAX - 3 {
                    None
                } else {
                    Some(
                        Row {
                            id: self.remote_id.clone(),
                            path,
                            modification_time: self.modification_time,
                            sync_include: self.included,
                        },
                    )
                }
            },
        }
    }
}

impl StateStore {
    /// The store that the rows of the durable store hold.
    pub fn from_rows(rows: &Vec<Row>) -> (result: Result<StateStore, Error>)
        ensures
            match loaded(lines_of(rows@)) {
                Some(records) => result is Ok && result->Ok_0@ == records && result->Ok_0.wf(),
                None => result is Err && result->Err_0 is Other,
            },
    {
        let mut store = StateStore::new();
        let mut index: usize = 0;
        let ghost lines = lines_of(rows@);
        assert(lines.take(0) =~= Seq::<Line>::empty());
        while index < rows.len()
            invariant
                index <= rows@.len(),
                lines == lines_of(rows@),
                loaded(lines.take(index as int)) == Some(store@),
            decreases rows@.len() - index,
        {
            let row = &rows[index];
            let ghost before = store@;
            proof {
                assert(lines.take(index + 1).drop_last() =~= lines.take(index as int));
                assert(lines.take(index + 1).last() == row@);
            }
            match decode_path(row.path.as_str()) {
                Err(error) => {
                    proof {
                        lemma_loaded_fails(lines, index + 1);
                    }
                    return Err(error);
                },
                Ok(path) => {
                    let twice = store.find(&path).is_some();
                    if twice || row.id.as_str().is_empty() {
                        proof {
                            let all = before.push(record_of(row@)->Some_0);
                            if twice {
                                let k = choose|k: int|
                                    0 <= k < before.len() && (#[trigger] before[k]).path == path@;
                                assert(all[k].path == all[before.len() as int].path);
                            } else {
                                assert(all[before.len() as int].remote_id.len() == 0);
                            }
                            lemma_loaded_fails(lines, index + 1);
                        }
                        return Err(
                            Error::Other(String::from_str("the stored records are not those of a run")),
                        );
                    }
                    store.records.push(
                        SyncRecord {
                            path,
                            remote_id: row.id.clone(),
                            modification_time: row.modification_time,
                            included: row.sync_include,
                        },
                    );
                    proof {
                        let fresh = record_of(row@)->Some_0;
                        assert(store@ =~= before.push(fresh));
                        assert forall|i: int, j: int| 0 <= i < j < store@.len() implies (
                        #[trigger] store@[i]).path != (#[trigger] store@[j]).path by {
                            if j < before.len() {
                                assert(before[i].path != before[j].path);
                            } else {
                                assert(before[i].path != fresh.path);
                            }
                        }
                        assert forall|i: int| 0 <= i < store@.len() implies (
                        #[trigger] store@[i]).remote_id.len() > 0 by {
                            if i < before.len() {
                                assert(before[i].remote_id.len() > 0);
                            }
                        }
                    }
                },
            }
            index += 1;
        }
        assert(lines.take(index as int) =~= lines);
        Ok(store)
    }
}

} // verus!
