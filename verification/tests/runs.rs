use gsync::api::drive::File;
use gsync::api::GoogleError;
use gsync::env::Env;
use gsync::error::Error;
use gsync::reconcile::machine::{adopt, missing_parent, Action, Event, Reconciler, Write};
use gsync::store::{StateStore, SyncRecord};
use gsync::sync::sync;
use gsync::tree::{Child, Directory, Entry, FoundDirectory, FoundFile};

fn record(path: &str, id: &str, time: u64) -> SyncRecord {
    SyncRecord {
        path: String::from(path),
        remote_id: String::from(id),
        modification_time: time,
        included: true,
    }
}

fn read(path: &str) -> Action {
    Action::ReadModificationTime { path: String::from(path) }
}

fn find(name: &str, parent: &str) -> Action {
    Action::FindFolder { name: String::from(name), parent: String::from(parent) }
}

fn create(name: &str, parent: &str) -> Action {
    Action::CreateFolder { name: String::from(name), parent: String::from(parent) }
}

fn upload(path: &str, parent: &str) -> Action {
    Action::UploadFile { path: String::from(path), parent: String::from(parent) }
}

fn update(path: &str, id: &str) -> Action {
    Action::UpdateFile { path: String::from(path), id: String::from(id) }
}

fn delete(id: &str, path: &str) -> Action {
    Action::DeleteFile { id: String::from(id), path: String::from(path) }
}

fn upsert(path: &str, id: &str, time: u64) -> Action {
    Action::Store(Write::Upsert(record(path, id, time)))
}

fn touch(path: &str, time: u64) -> Action {
    Action::Store(Write::Touch { path: String::from(path), modification_time: time })
}

fn time(t: u64) -> Event {
    Event::ModificationTime(Ok(t))
}

fn stored() -> Event {
    Event::Stored(Ok(()))
}

fn created(id: &str) -> Event {
    Event::Created(Ok(String::from(id)))
}

fn uploaded(id: &str) -> Event {
    Event::Uploaded(Ok(String::from(id)))
}

fn listed(files: Vec<(&str, &str)>) -> Event {
    Event::Folders(Ok(files
        .into_iter()
        .map(|(id, name)| File {
            id: String::from(id),
            name: String::from(name),
            modified_time: String::from("2021-01-01T00:00:00.000Z"),
        })
        .collect()))
}

fn refusal(code: i16, message: &str) -> Error {
    Error::GoogleError(GoogleError { code, message: String::from(message), errors: Vec::new() })
}

fn leaf(path: &str) -> Child {
    Child::File(String::from(path))
}

fn node(path: &str, name: &str, children: Vec<Child>) -> Child {
    Child::Directory(Directory { name: String::from(name), path: String::from(path), children })
}

fn found_file(path: &str, name: &str, parent: &str) -> Entry {
    Entry::File(FoundFile {
        path: String::from(path),
        name: String::from(name),
        parent: String::from(parent),
        rules: None,
    })
}

fn found_directory(path: &str, name: &str, rules: Option<&str>, entries: Vec<Entry>) -> Entry {
    Entry::Directory(FoundDirectory {
        path: String::from(path),
        name: String::from(name),
        rules: rules.map(String::from),
        unreadable: None,
        entries,
    })
}

fn all(store: &StateStore) -> Vec<SyncRecord> {
    let mut out = Vec::new();
    let mut index = 0;
    while index < store.len() {
        out.push(store.record(index).duplicate());
        index += 1;
    }
    out
}

/// Drives a run through the replies and checks every action on the way.
fn follow(machine: &mut Reconciler, first: Action, script: Vec<(Action, Event)>, last: Action) {
    let mut action = first;
    for (expected, reply) in script {
        assert_eq!(action, expected);
        action = machine.step(reply);
    }
    assert_eq!(action, last);
}

fn tree_a() -> Vec<Child> {
    vec![node("/a", "a", vec![leaf("/a/x.txt")])]
}

fn first_run() -> StateStore {
    let (mut machine, first) = Reconciler::new(tree_a(), "ROOT", StateStore::new());
    follow(
        &mut machine,
        first,
        vec![
            (Action::Store(Write::Reset), stored()),
            (read("/a"), time(10)),
            (find("a", "ROOT"), listed(vec![])),
            (create("a", "ROOT"), created("id-a")),
            (upsert("/a", "id-a", 10), stored()),
            (read("/a/x.txt"), time(20)),
            (upload("/a/x.txt", "id-a"), uploaded("id-x")),
            (upsert("/a/x.txt", "id-x", 20), stored()),
        ],
        Action::Finish,
    );
    assert!(machine.is_finished());
    machine.into_store()
}

#[test]
fn a_first_run_creates_the_folder_and_uploads_the_file() {
    let store = first_run();
    assert_eq!(all(&store), vec![record("/a", "id-a", 10), record("/a/x.txt", "id-x", 20)]);
}

#[test]
fn an_excluded_directory_is_not_synced() {
    let env = Env::new(String::from("/db/"), "id", "secret", None, "ROOT");
    let roots = vec![found_directory(
        "/a",
        "a",
        Some("b\n"),
        vec![
            found_file("/a/x.txt", "x.txt", "/a"),
            found_directory("/a/b", "b", None, vec![found_file("/a/b/y.txt", "y.txt", "/a/b")]),
        ],
    )];
    let (mut machine, first) = sync(&env, &roots, StateStore::new()).unwrap();
    follow(
        &mut machine,
        first,
        vec![
            (Action::Store(Write::Reset), stored()),
            (read("/a"), time(10)),
            (find("a", "ROOT"), listed(vec![])),
            (create("a", "ROOT"), created("id-a")),
            (upsert("/a", "id-a", 10), stored()),
            (read("/a/x.txt"), time(20)),
            (upload("/a/x.txt", "id-a"), uploaded("id-x")),
            (upsert("/a/x.txt", "id-x", 20), stored()),
        ],
        Action::Finish,
    );
    let store = machine.into_store();
    assert_eq!(store.get("/a/b"), None);
    assert_eq!(store.get("/a/b/y.txt"), None);
    assert_eq!(all(&store), vec![record("/a", "id-a", 10), record("/a/x.txt", "id-x", 20)]);
}

#[test]
fn a_second_run_without_changes_calls_nothing_remote() {
    let (mut machine, first) = Reconciler::new(tree_a(), "ROOT", first_run());
    follow(
        &mut machine,
        first,
        vec![
            (Action::Store(Write::Reset), stored()),
            (read("/a"), time(10)),
            (touch("/a", 10), stored()),
            (read("/a/x.txt"), time(20)),
            (touch("/a/x.txt", 20), stored()),
        ],
        Action::Finish,
    );
    let store = machine.into_store();
    assert_eq!(store.stale(), Vec::new());
    assert_eq!(all(&store), vec![record("/a", "id-a", 10), record("/a/x.txt", "id-x", 20)]);
}

#[test]
fn a_file_that_is_gone_is_deleted_remotely_and_forgotten() {
    let (mut machine, first) =
        Reconciler::new(vec![node("/a", "a", vec![])], "ROOT", first_run());
    follow(
        &mut machine,
        first,
        vec![
            (Action::Store(Write::Reset), stored()),
            (read("/a"), time(10)),
            (touch("/a", 10), stored()),
            (delete("id-x", "/a/x.txt"), Event::Deleted(Ok(()))),
            (Action::Store(Write::Sweep), stored()),
        ],
        Action::Finish,
    );
    let store = machine.into_store();
    assert_eq!(store.get("/a/x.txt"), None);
    assert_eq!(all(&store), vec![record("/a", "id-a", 10)]);
}

#[test]
fn every_stale_record_is_deleted_once_in_the_order_of_the_store() {
    let mut store = first_run();
    store.upsert("/a/z", "id-z", 5);
    let (mut machine, first) = Reconciler::new(Vec::new(), "ROOT", store);
    follow(
        &mut machine,
        first,
        vec![
            (Action::Store(Write::Reset), stored()),
            (delete("id-a", "/a"), Event::Deleted(Ok(()))),
            (delete("id-x", "/a/x.txt"), Event::Deleted(Ok(()))),
            (delete("id-z", "/a/z"), Event::Deleted(Ok(()))),
            (Action::Store(Write::Sweep), stored()),
        ],
        Action::Finish,
    );
    assert_eq!(machine.into_store().len(), 0);
}

#[test]
fn a_failed_deletion_keeps_the_stale_records() {
    let (mut machine, first) = Reconciler::new(Vec::new(), "ROOT", first_run());
    follow(
        &mut machine,
        first,
        vec![
            (Action::Store(Write::Reset), stored()),
            (delete("id-a", "/a"), Event::Deleted(Ok(()))),
            (
                delete("id-x", "/a/x.txt"),
                Event::Deleted(Err(Error::RequestError(String::from("timed out")))),
            ),
        ],
        Action::Fail(Error::RequestError(String::from("timed out"))),
    );
    assert!(!machine.is_finished());
    assert_eq!(machine.store().len(), 2);
}

#[test]
fn a_changed_file_is_updated_once() {
    let (mut machine, first) = Reconciler::new(tree_a(), "ROOT", first_run());
    follow(
        &mut machine,
        first,
        vec![
            (Action::Store(Write::Reset), stored()),
            (read("/a"), time(11)),
            (touch("/a", 11), stored()),
            (read("/a/x.txt"), time(21)),
            (update("/a/x.txt", "id-x"), Event::Updated(Ok(()))),
            (upsert("/a/x.txt", "id-x", 21), stored()),
        ],
        Action::Finish,
    );
    assert_eq!(
        all(&machine.into_store()),
        vec![record("/a", "id-a", 11), record("/a/x.txt", "id-x", 21)]
    );
}

#[test]
fn a_file_with_an_earlier_time_is_not_updated() {
    let (mut machine, first) = Reconciler::new(tree_a(), "ROOT", first_run());
    follow(
        &mut machine,
        first,
        vec![
            (Action::Store(Write::Reset), stored()),
            (read("/a"), time(10)),
            (touch("/a", 10), stored()),
            (read("/a/x.txt"), time(19)),
            (touch("/a/x.txt", 19), stored()),
        ],
        Action::Finish,
    );
    assert_eq!(
        all(&machine.into_store()),
        vec![record("/a", "id-a", 10), record("/a/x.txt", "id-x", 19)]
    );
}

#[test]
fn a_folder_that_exists_remotely_is_adopted() {
    let (mut machine, first) =
        Reconciler::new(vec![node("/a", "a", vec![])], "ROOT", StateStore::new());
    follow(
        &mut machine,
        first,
        vec![
            (Action::Store(Write::Reset), stored()),
            (read("/a"), time(10)),
            (find("a", "ROOT"), listed(vec![("id-1", "a"), ("id-2", "a")])),
            (upsert("/a", "id-2", 10), stored()),
        ],
        Action::Finish,
    );
    assert_eq!(all(&machine.into_store()), vec![record("/a", "id-2", 10)]);
}

#[test]
fn adopt_takes_the_last_folder_whose_name_holds_the_name() {
    let files = |list: Vec<(&str, &str)>| -> Vec<File> {
        list.into_iter()
            .map(|(id, name)| File {
                id: String::from(id),
                name: String::from(name),
                modified_time: String::new(),
            })
            .collect()
    };
    assert_eq!(adopt(&files(vec![]), "docs"), "");
    assert_eq!(adopt(&files(vec![("1", "other")]), "docs"), "");
    assert_eq!(adopt(&files(vec![("1", "docs"), ("2", "other")]), "docs"), "1");
    assert_eq!(adopt(&files(vec![("1", "docs"), ("2", "my docs 2")]), "docs"), "2");
    assert_eq!(adopt(&files(vec![("1", "docs"), ("", "docs")]), "docs"), "");
}

#[test]
fn children_are_synced_below_the_folder_of_their_directory() {
    let forest = vec![
        node(
            "/a",
            "a",
            vec![leaf("/a/1"), node("/a/b", "b", vec![leaf("/a/b/2")]), leaf("/a/3")],
        ),
        leaf("/r"),
    ];
    let (mut machine, first) = Reconciler::new(forest, "ROOT", StateStore::new());
    follow(
        &mut machine,
        first,
        vec![
            (Action::Store(Write::Reset), stored()),
            (read("/a"), time(1)),
            (find("a", "ROOT"), listed(vec![])),
            (create("a", "ROOT"), created("A")),
            (upsert("/a", "A", 1), stored()),
            (read("/a/1"), time(2)),
            (upload("/a/1", "A"), uploaded("F1")),
            (upsert("/a/1", "F1", 2), stored()),
            (read("/a/b"), time(3)),
            (find("b", "A"), listed(vec![])),
            (create("b", "A"), created("B")),
            (upsert("/a/b", "B", 3), stored()),
            (read("/a/b/2"), time(4)),
            (upload("/a/b/2", "B"), uploaded("F2")),
            (upsert("/a/b/2", "F2", 4), stored()),
            (read("/a/3"), time(5)),
            (upload("/a/3", "A"), uploaded("F3")),
            (upsert("/a/3", "F3", 5), stored()),
            (read("/r"), time(6)),
            (upload("/r", "ROOT"), uploaded("F4")),
            (upsert("/r", "F4", 6), stored()),
        ],
        Action::Finish,
    );
    assert_eq!(machine.into_store().len(), 6);
}

#[test]
fn a_root_whose_parent_is_missing_is_created_under_the_top() {
    let (mut machine, first) =
        Reconciler::new(vec![node("/a", "a", vec![])], "ROOT", StateStore::new());
    follow(
        &mut machine,
        first,
        vec![
            (Action::Store(Write::Reset), stored()),
            (read("/a"), time(10)),
            (find("a", "ROOT"), listed(vec![])),
            (create("a", "ROOT"), Event::Created(Err(refusal(404, "File not found: ROOT.")))),
            (create("a", "root"), created("id-a")),
            (upsert("/a", "id-a", 10), stored()),
        ],
        Action::Finish,
    );
}

#[test]
fn a_missing_parent_is_created_again_before_the_folder_is_retried() {
    let mut store = StateStore::new();
    store.upsert("/a", "A", 1);
    let forest = vec![node("/a", "a", vec![node("/a/b", "b", vec![])])];
    let (mut machine, first) = Reconciler::new(forest, "ROOT", store);
    follow(
        &mut machine,
        first,
        vec![
            (Action::Store(Write::Reset), stored()),
            (read("/a"), time(1)),
            (touch("/a", 1), stored()),
            (read("/a/b"), time(2)),
            (find("b", "A"), listed(vec![])),
            (create("b", "A"), Event::Created(Err(refusal(404, "File not found: A.")))),
            (create("a", "A"), created("A2")),
            (create("b", "A"), created("B")),
            (upsert("/a/b", "B", 2), stored()),
        ],
        Action::Finish,
    );
}

#[test]
fn a_second_refusal_ends_the_run() {
    let (mut machine, first) =
        Reconciler::new(vec![node("/a", "a", vec![])], "ROOT", StateStore::new());
    follow(
        &mut machine,
        first,
        vec![
            (Action::Store(Write::Reset), stored()),
            (read("/a"), time(10)),
            (find("a", "ROOT"), listed(vec![])),
            (create("a", "ROOT"), Event::Created(Err(refusal(404, "File not found: ROOT.")))),
            (create("a", "root"), Event::Created(Err(refusal(404, "File not found: root.")))),
        ],
        Action::Fail(refusal(404, "File not found: root.")),
    );
    assert_eq!(machine.store().len(), 0);
}

#[test]
fn a_refusal_for_another_reason_ends_the_run() {
    let (mut machine, first) =
        Reconciler::new(vec![node("/a", "a", vec![])], "ROOT", StateStore::new());
    follow(
        &mut machine,
        first,
        vec![
            (Action::Store(Write::Reset), stored()),
            (read("/a"), time(10)),
            (find("a", "ROOT"), listed(vec![])),
            (create("a", "ROOT"), Event::Created(Err(refusal(403, "File not found")))),
        ],
        Action::Fail(refusal(403, "File not found")),
    );
}

#[test]
fn missing_parent_asks_for_the_code_and_the_message() {
    assert!(missing_parent(&refusal(404, "File not found: x")));
    assert!(!missing_parent(&refusal(404, "Not found")));
    assert!(!missing_parent(&refusal(500, "File not found")));
    assert!(!missing_parent(&Error::Other(String::from("File not found"))));
    assert!(!missing_parent(&Error::RequestError(String::from("File not found"))));
}

#[test]
fn an_error_of_a_call_is_handed_on_unchanged() {
    let failure = Error::Other(String::from("permission denied"));
    let (mut machine, first) = Reconciler::new(tree_a(), "ROOT", StateStore::new());
    follow(
        &mut machine,
        first,
        vec![
            (Action::Store(Write::Reset), stored()),
            (read("/a"), Event::ModificationTime(Err(failure.duplicate()))),
        ],
        Action::Fail(failure.duplicate()),
    );
    assert_eq!(machine.step(stored()), Action::Fail(failure));
}

#[test]
fn a_failed_write_ends_the_run() {
    let failure = Error::DatabaseError(String::from("disk full"));
    let (mut machine, first) = Reconciler::new(tree_a(), "ROOT", StateStore::new());
    follow(
        &mut machine,
        first,
        vec![(Action::Store(Write::Reset), Event::Stored(Err(failure.duplicate())))],
        Action::Fail(failure),
    );
}

#[test]
fn a_reply_that_does_not_answer_ends_the_run() {
    let (mut machine, first) = Reconciler::new(tree_a(), "ROOT", StateStore::new());
    follow(
        &mut machine,
        first,
        vec![(Action::Store(Write::Reset), time(1))],
        Action::Fail(Error::Other(String::from("the reply does not answer the call"))),
    );
}

#[test]
fn an_empty_identifier_ends_the_run() {
    let (mut machine, first) = Reconciler::new(vec![leaf("/x")], "ROOT", StateStore::new());
    follow(
        &mut machine,
        first,
        vec![
            (Action::Store(Write::Reset), stored()),
            (read("/x"), time(1)),
            (upload("/x", "ROOT"), uploaded("")),
        ],
        Action::Fail(Error::Other(String::from("the remote store gave an empty identifier"))),
    );
    assert_eq!(machine.store().len(), 0);
}

#[test]
fn a_run_over_nothing_is_complete_after_the_reset() {
    let (mut machine, first) = Reconciler::new(Vec::new(), "ROOT", StateStore::new());
    follow(&mut machine, first, vec![(Action::Store(Write::Reset), stored())], Action::Finish);
    assert_eq!(machine.step(stored()), Action::Finish);
    assert!(machine.is_finished());
}
