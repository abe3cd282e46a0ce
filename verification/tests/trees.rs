use gsync::error::Error;
use gsync::sync::sync;
use gsync::env::Env;
use gsync::reconcile::machine::{Action, Write};
use gsync::store::StateStore;
use gsync::tree::{traverse, Child, Directory, Entry, FoundDirectory, FoundFile};

fn file(path: &str, name: &str, parent: &str) -> Entry {
    Entry::File(FoundFile {
        path: String::from(path),
        name: String::from(name),
        parent: String::from(parent),
        rules: None,
    })
}

fn rule_file(path: &str, parent: &str, text: &str) -> Entry {
    Entry::File(FoundFile {
        path: String::from(path),
        name: String::from(".gitignore"),
        parent: String::from(parent),
        rules: Some(String::from(text)),
    })
}

fn directory(path: &str, name: &str, rules: Option<&str>, entries: Vec<Entry>) -> Entry {
    Entry::Directory(FoundDirectory {
        path: String::from(path),
        name: String::from(name),
        rules: rules.map(String::from),
        unreadable: None,
        entries,
    })
}

fn unreadable(path: &str, name: &str, reason: &str) -> Entry {
    Entry::Directory(FoundDirectory {
        path: String::from(path),
        name: String::from(name),
        rules: None,
        unreadable: Some(String::from(reason)),
        entries: Vec::new(),
    })
}

fn node(path: &str, name: &str, children: Vec<Child>) -> Child {
    Child::Directory(Directory { name: String::from(name), path: String::from(path), children })
}

fn leaf(path: &str) -> Child {
    Child::File(String::from(path))
}

#[test]
fn traverse_of_a_file_keeps_the_file() {
    let mut rules = Vec::new();
    let kept = traverse(&file("/a/x.txt", "x.txt", "/a"), &mut rules);
    assert_eq!(kept, Ok(vec![leaf("/a/x.txt")]));
    assert!(rules.is_empty());
}

#[test]
fn traverse_leaves_out_what_a_rule_of_the_directory_excludes() {
    let root = directory(
        "/a",
        "a",
        Some("b\n"),
        vec![
            file("/a/x.txt", "x.txt", "/a"),
            directory("/a/b", "b", None, vec![file("/a/b/y.txt", "y.txt", "/a/b")]),
        ],
    );
    let mut rules = Vec::new();
    let kept = traverse(&root, &mut rules);
    assert_eq!(kept, Ok(vec![node("/a", "a", vec![leaf("/a/x.txt")])]));
    assert_eq!(rules, vec![String::from("/a/b")]);
}

#[test]
fn traverse_keeps_the_order_of_the_listing() {
    let root = directory(
        "/a",
        "a",
        None,
        vec![
            file("/a/z", "z", "/a"),
            directory("/a/m", "m", None, vec![file("/a/m/k", "k", "/a/m")]),
            file("/a/b", "b", "/a"),
        ],
    );
    let mut rules = Vec::new();
    let kept = traverse(&root, &mut rules);
    assert_eq!(
        kept,
        Ok(vec![node(
            "/a",
            "a",
            vec![leaf("/a/z"), node("/a/m", "m", vec![leaf("/a/m/k")]), leaf("/a/b")]
        )])
    );
}

#[test]
fn traverse_applies_a_rule_to_all_that_lies_below() {
    let root = directory(
        "/a",
        "a",
        Some("c/d/e\n"),
        vec![directory(
            "/a/c",
            "c",
            None,
            vec![directory(
                "/a/c/d",
                "d",
                None,
                vec![file("/a/c/d/e", "e", "/a/c/d"), file("/a/c/d/f", "f", "/a/c/d")],
            )],
        )],
    );
    let mut rules = Vec::new();
    let kept = traverse(&root, &mut rules);
    assert_eq!(
        kept,
        Ok(vec![node(
            "/a",
            "a",
            vec![node("/a/c", "c", vec![node("/a/c/d", "d", vec![leaf("/a/c/d/f")])])]
        )])
    );
}

#[test]
fn traverse_hands_rules_of_an_earlier_sibling_to_a_later_one() {
    let root = directory(
        "/a",
        "a",
        None,
        vec![
            directory("/a/d", "d", Some("x\n"), vec![file("/a/d/x", "x", "/a/d")]),
            directory("/a/s", "s", None, vec![file("/a/s/x", "x", "/a/s")]),
        ],
    );
    let mut rules = Vec::new();
    let kept = traverse(&root, &mut rules);
    assert_eq!(
        kept,
        Ok(vec![node(
            "/a",
            "a",
            vec![node("/a/d", "d", vec![]), node("/a/s", "s", vec![leaf("/a/s/x")])]
        )])
    );
    assert_eq!(rules, vec![String::from("/a/d/x")]);
}

#[test]
fn traverse_reads_a_listed_rule_file_once_more() {
    let root = directory(
        "/a",
        "a",
        Some("b\n"),
        vec![rule_file("/a/.gitignore", "/a", "b\n"), file("/a/b", "b", "/a")],
    );
    let mut rules = Vec::new();
    let kept = traverse(&root, &mut rules);
    assert_eq!(kept, Ok(vec![node("/a", "a", vec![leaf("/a/.gitignore")])]));
    assert_eq!(rules, vec![String::from("/a/b"), String::from("/a/b")]);
}

#[test]
fn traverse_of_a_lone_rule_file_gathers_its_rules() {
    let mut rules = Vec::new();
    let kept = traverse(&rule_file("/a/.gitignore", "/a", "b\n"), &mut rules);
    assert_eq!(kept, Ok(vec![leaf("/a/.gitignore")]));
    assert_eq!(rules, vec![String::from("/a/b")]);
}

#[test]
fn traverse_takes_rules_only_from_a_file_with_the_name() {
    let other = Entry::File(FoundFile {
        path: String::from("/a/rules"),
        name: String::from("rules"),
        parent: String::from("/a"),
        rules: Some(String::from("b\n")),
    });
    let mut rules = Vec::new();
    assert_eq!(traverse(&other, &mut rules), Ok(vec![leaf("/a/rules")]));
    assert!(rules.is_empty());
}

#[test]
fn traverse_keeps_the_rules_it_was_given_first() {
    let root = directory("/a", "a", Some("c\n"), vec![file("/a/b", "b", "/a")]);
    let mut rules = vec![String::from("/a/b")];
    let kept = traverse(&root, &mut rules);
    assert_eq!(kept, Ok(vec![node("/a", "a", vec![])]));
    assert_eq!(rules, vec![String::from("/a/b"), String::from("/a/c")]);
}

#[test]
fn traverse_does_not_test_the_root_itself() {
    let root = directory("/a", "a", None, vec![]);
    let mut rules = vec![String::from("/a")];
    assert_eq!(traverse(&root, &mut rules), Ok(vec![node("/a", "a", vec![])]));
}

#[test]
fn traverse_fails_on_a_directory_that_could_not_be_listed() {
    let root =
        directory("/a", "a", None, vec![file("/a/x", "x", "/a"), unreadable("/a/b", "b", "denied")]);
    let mut rules = Vec::new();
    assert_eq!(traverse(&root, &mut rules), Err(Error::Other(String::from("denied"))));
}

#[test]
fn traverse_passes_over_an_excluded_directory_that_could_not_be_listed() {
    let root = directory("/a", "a", Some("b\n"), vec![unreadable("/a/b", "b", "denied")]);
    let mut rules = Vec::new();
    assert_eq!(traverse(&root, &mut rules), Ok(vec![node("/a", "a", vec![])]));
}

#[test]
fn count_all_children_counts_files() {
    assert_eq!(leaf("/x").count_all_children(), 1);
    assert_eq!(node("/a", "a", vec![]).count_all_children(), 0);
    let tree = node(
        "/a",
        "a",
        vec![leaf("/a/x"), node("/a/b", "b", vec![leaf("/a/b/y"), leaf("/a/b/z")]), leaf("/a/w")],
    );
    assert_eq!(tree.count_all_children(), 4);
}

#[test]
fn sync_walks_every_root_with_rules_of_its_own() {
    let env = Env::new(String::from("/db/"), "id", "secret", None, "ROOT");
    let roots = vec![
        directory("/a", "a", Some("../b/y\nx\n"), vec![file("/a/x", "x", "/a")]),
        directory("/b", "b", None, vec![file("/b/x", "x", "/b"), file("/b/y", "y", "/b")]),
    ];
    let started = sync(&env, &roots, StateStore::new());
    let (machine, action) = started.unwrap();
    assert_eq!(action, Action::Store(Write::Reset));
    assert!(!machine.is_finished());
}

#[test]
fn sync_fails_where_a_root_cannot_be_walked() {
    let env = Env::new(String::from("/db/"), "id", "secret", None, "ROOT");
    let roots = vec![file("/x", "x", "/"), unreadable("/a", "a", "no such directory")];
    let started = sync(&env, &roots, StateStore::new());
    assert_eq!(started.err(), Some(Error::Other(String::from("no such directory"))));
}

#[test]
fn paths_of_nodes_and_entries_are_those_they_were_given() {
    assert_eq!(leaf("/a/x").path(), "/a/x");
    assert_eq!(node("/a", "a", vec![]).path(), "/a");
    assert_eq!(file("/a/x", "x", "/a").path(), "/a/x");
    assert_eq!(directory("/a", "a", None, vec![]).path(), "/a");
}
