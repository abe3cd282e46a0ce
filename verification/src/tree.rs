//! The local tree: what was found on disk, and the nodes that are left of it
//! once the exclusion rules have been applied.

use vstd::prelude::*;
use crate::error::{Error, ErrorView};
use crate::exclusion::{
    excluded, is_excluded, is_rule_file, parse_gitignore, rule_file_name, rules_of,
};
use crate::api::optional_text;
use crate::path::{is_within, same_path_spec};
use crate::text::texts;

verus! {

/// A directory of the local tree with the nodes found below it.
#[derive(Debug, PartialEq, Eq)]
pub struct Directory {
    pub name: String,
    pub path: String,
    pub children: Vec<Child>,
}

/// One node of the local tree.
#[derive(Debug, PartialEq, Eq)]
pub enum Child {
    Directory(Directory),
    File(String),
}

/// The mathematical value of a [`Child`].
pub enum Node {
    Directory { name: Seq<char>, path: Seq<char>, children: Seq<Node> },
    File { path: Seq<char> },
}

impl View for Child {
    type V = Node;

    open spec fn view(&self) -> Node
        decreases self,
    {
        match self {
            Child::File(path) => Node::File { path: path@ },
            Child::Directory(d) => Node::Directory {
                name: d.name@,
                path: d.path@,
                children: Seq::new(
                    d.children.len() as nat,
                    |i: int|
                        if 0 <= i < d.children.len() {
                            d.children[i].view()
                        } else {
                            Node::File { path: Seq::empty() }
                        },
                ),
            },
        }
    }
}

impl Node {
    /// The local path of the node.
    pub open spec fn path(self) -> Seq<char> {
        match self {
            Node::Directory { path, .. } => path,
            Node::File { path } => path,
        }
    }
}

/// The value of a directory holds the values of its children.
pub proof fn lemma_node_directory(child: Child)
    requires
        child is Directory,
    ensures
        child@ == (Node::Directory {
            name: child->Directory_0.name@,
            path: child->Directory_0.path@,
            children: nodes_of(child->Directory_0.children@),
        }),
{
    reveal_with_fuel(<Child as View>::view, 2);
    assert(child@->Directory_children =~= nodes_of(child->Directory_0.children@));
}

/// The values of a sequence of nodes.
pub open spec fn nodes_of(children: Seq<Child>) -> Seq<Node> {
    Seq::new(children.len(), |i: int| children[i]@)
}

/// The number of files at or below a node.
pub open spec fn leaf_count(node: Node) -> nat
    decreases node,
{
    match node {
        Node::File { .. } => 1,
        Node::Directory { children, .. } => leaf_count_all(children),
    }
}

/// The number of files at or below the nodes of a forest.
pub open spec fn leaf_count_all(nodes: Seq<Node>) -> nat
    decreases nodes,
{
    if nodes.len() == 0 {
        0
    } else {
        leaf_count_all(nodes.drop_last()) + leaf_count(nodes.last())
    }
}

/// The paths of a node and of all nodes below it.
pub open spec fn paths_of(node: Node) -> Set<Seq<char>>
    decreases node,
{
    match node {
        Node::File { path } => set![path],
        Node::Directory { path, children, .. } => paths_in(children).insert(path),
    }
}

/// The paths of all nodes of a forest.
pub open spec fn paths_in(nodes: Seq<Node>) -> Set<Seq<char>>
    decreases nodes,
{
    if nodes.len() == 0 {
        Set::empty()
    } else {
        paths_in(nodes.drop_last()).union(paths_of(nodes.last()))
    }
}

impl Child {
    /// The local path of the node.
    pub fn path(&self) -> (path: &String)
        ensures
            path@ == self@.path(),
    {
        match self {
            Child::Directory(d) => &d.path,
            Child::File(path) => path,
        }
    }

    /// The number of files at or below this node. A directory counts for
    /// what it holds, not for itself.
    #[verifier::loop_isolation(false)]
    pub fn count_all_children(&self) -> (count: i64)
        requires
            leaf_count(self@) <= i64::MAX,
        ensures
            count == leaf_count(self@),
        decreases self,
    {
        match self {
            Child::File(_) => 1,
            Child::Directory(d) => {
                let mut count: i64 = 0;
                let mut index: usize = 0;
                let ghost nodes = nodes_of(d.children@);
                proof {
                    assert(self@->Directory_children =~= nodes);
                    assert(nodes.take(0) =~= Seq::<Node>::empty());
                }
                while index < d.children.len()
                    invariant
                        index <= d.children@.len(),
                        nodes == nodes_of(d.children@),
                        leaf_count_all(nodes) <= i64::MAX,
                        count == leaf_count_all(nodes.take(index as int)),
                    decreases d.children@.len() - index,
                {
                    proof {
                        assert(nodes.take(index + 1).drop_last() =~= nodes.take(index as int));
                        assert(nodes.take(index + 1).last() == d.children@[index as int]@);
                        lemma_leaf_count_grows(nodes, index + 1);
                        assert(decreases_to!(d.children => d.children[index as int]));
                    }
                    count = count + d.children[index].count_all_children();
                    index += 1;
                }
                proof {
                    assert(nodes.take(index as int) =~= nodes);
                }
                count
            },
        }
    }
}

/// The first nodes of a forest hold no more files than the whole forest.
pub proof fn lemma_leaf_count_grows(nodes: Seq<Node>, n: int)
    requires
        0 <= n <= nodes.len(),
    ensures
        leaf_count_all(nodes.take(n)) <= leaf_count_all(nodes),
    decreases nodes.len(),
{
    if n == nodes.len() {
        assert(nodes.take(n) =~= nodes);
    } else {
        assert(nodes.drop_last().take(n) =~= nodes.take(n));
        lemma_leaf_count_grows(nodes.drop_last(), n);
    }
}

/// A directory as it was found on disk.
#[derive(Debug, PartialEq, Eq)]
pub struct FoundDirectory {
    pub path: String,
    pub name: String,
    /// What the directory's rule file reads, where it has one.
    pub rules: Option<String>,
    /// Why the directory could not be listed, where it could not.
    pub unreadable: Option<String>,
    /// What the directory holds.
    pub entries: Vec<Entry>,
}

/// A file as it was found on disk.
#[derive(Debug, PartialEq, Eq)]
pub struct FoundFile {
    pub path: String,
    pub name: String,
    /// The directory that holds the file.
    pub parent: String,
    /// What the file reads, where it was read as a rule file.
    pub rules: Option<String>,
}

/// What was found at one path of the local file system.
#[derive(Debug, PartialEq, Eq)]
pub enum Entry {
    Directory(FoundDirectory),
    File(FoundFile),
}

/// The mathematical value of an [`Entry`].
pub enum Found {
    Directory {
        path: Seq<char>,
        name: Seq<char>,
        rules: Option<Seq<char>>,
        unreadable: Option<Seq<char>>,
        entries: Seq<Found>,
    },
    File { path: Seq<char>, name: Seq<char>, parent: Seq<char>, rules: Option<Seq<char>> },
}

impl View for Entry {
    type V = Found;

    open spec fn view(&self) -> Found
        decreases self,
    {
        match self {
            Entry::File(f) => Found::File {
                path: f.path@,
                name: f.name@,
                parent: f.parent@,
                rules: optional_text(f.rules),
            },
            Entry::Directory(d) => Found::Directory {
                path: d.path@,
                name: d.name@,
                rules: optional_text(d.rules),
                unreadable: optional_text(d.unreadable),
                entries: Seq::new(
                    d.entries.len() as nat,
                    |i: int|
                        if 0 <= i < d.entries.len() {
                            d.entries[i].view()
                        } else {
                            Found::File {
                                path: Seq::empty(),
                                name: Seq::empty(),
                                parent: Seq::empty(),
                                rules: None,
                            }
                        },
                ),
            },
        }
    }
}

impl Found {
    /// The local path of what was found.
    pub open spec fn path(self) -> Seq<char> {
        match self {
            Found::Directory { path, .. } => path,
            Found::File { path, .. } => path,
        }
    }
}

impl Entry {
    /// The local path of the entry.
    pub fn path(&self) -> (path: &String)
        ensures
            path@ == self@.path(),
    {
        match self {
            Entry::Directory(d) => &d.path,
            Entry::File(f) => &f.path,
        }
    }
}

/// The values of a sequence of entries.
pub open spec fn found_of(entries: Seq<Entry>) -> Seq<Found> {
    Seq::new(entries.len(), |i: int| entries[i]@)
}

/// The value of a directory holds the values of its entries.
pub proof fn lemma_found_directory(entry: Entry)
    requires
        entry is Directory,
    ensures
        entry@ == (Found::Directory {
            path: entry->Directory_0.path@,
            name: entry->Directory_0.name@,
            rules: optional_text(entry->Directory_0.rules),
            unreadable: optional_text(entry->Directory_0.unreadable),
            entries: found_of(entry->Directory_0.entries@),
        }),
{
    reveal_with_fuel(<Entry as View>::view, 2);
    assert(entry@->Directory_entries =~= found_of(entry->Directory_0.entries@));
}

/// Where a walk has got to: the nodes it kept, or why it stopped, and the
/// rules gathered by then.
pub struct Walk {
    pub nodes: Result<Seq<Node>, Seq<char>>,
    pub rules: Seq<Seq<char>>,
}

/// The rules in force once `found` has been entered: those in force before,
/// then those of its rule file.
pub open spec fn rules_at(found: Found, rules: Seq<Seq<char>>) -> Seq<Seq<char>> {
    match found {
        Found::File { name, parent, rules: Some(text), .. } => if name == rule_file_name() {
            rules + rules_of(parent, text)
        } else {
            rules
        },
        Found::Directory { path, rules: Some(text), .. } => rules + rules_of(path, text),
        _ => rules,
    }
}

/// The walk of what was found at one path. A file is kept as it is. A
/// directory is kept with what the walk of its entries keeps, under the
/// rules in force once it has been entered; a directory that could not be
/// listed stops the walk.
pub open spec fn walk(found: Found, rules: Seq<Seq<char>>) -> Walk
    decreases found, 1nat,
{
    let entered = rules_at(found, rules);
    match found {
        Found::File { path, .. } => Walk { nodes: Ok(seq![Node::File { path }]), rules: entered },
        Found::Directory { path, name, unreadable, entries, .. } => match unreadable {
            Some(reason) => Walk { nodes: Err(reason), rules: entered },
            None => {
                let below = walk_all(entries, entered);
                match below.nodes {
                    Err(reason) => below,
                    Ok(children) => Walk {
                        nodes: Ok(seq![Node::Directory { name, path, children }]),
                        rules: below.rules,
                    },
                }
            },
        },
    }
}

/// The walk of a directory's entries, in their order. An entry that the
/// rules gathered so far exclude is passed over; the rules found while
/// walking one entry are in force for all that follow.
pub open spec fn walk_all(entries: Seq<Found>, rules: Seq<Seq<char>>) -> Walk
    decreases entries, 0nat,
{
    if entries.len() == 0 {
        Walk { nodes: Ok(Seq::empty()), rules }
    } else {
        let before = walk_all(entries.drop_last(), rules);
        match before.nodes {
            Err(_) => before,
            Ok(nodes) => if excluded(entries.last().path(), before.rules) {
                before
            } else {
                let below = walk(entries.last(), before.rules);
                match below.nodes {
                    Err(_) => below,
                    Ok(kept) => Walk { nodes: Ok(nodes + kept), rules: below.rules },
                }
            },
        }
    }
}

/// Adds to `exclusions` the rules of a rule file in `directory`.
fn add_rules(exclusions: &mut Vec<String>, directory: &str, contents: &str)
    ensures
        texts(final(exclusions)@) == texts(old(exclusions)@) + rules_of(directory@, contents@),
{
    let mut rules = parse_gitignore(directory, contents);
    let ghost added = rules@;
    exclusions.append(&mut rules);
    assert(texts(exclusions@) =~= texts(old(exclusions)@) + texts(added));
}

/// Builds the tree of what was found at one path, leaving out what the rules
/// exclude. The rules gathered on the way are added to `exclusions`, which
/// holds the rules in force at the start.
#[verifier::loop_isolation(false)]
pub fn traverse(entry: &Entry, exclusions: &mut Vec<String>) -> (result: Result<Vec<Child>, Error>)
    ensures
        texts(final(exclusions)@) == walk(entry@, texts(old(exclusions)@)).rules,
        match walk(entry@, texts(old(exclusions)@)).nodes {
            Ok(nodes) => result is Ok && nodes_of(result->Ok_0@) == nodes,
            Err(reason) => result is Err && result->Err_0@ == ErrorView::Other(reason),
        },
    decreases entry,
{
    let ghost start = texts(exclusions@);
    match entry {
        Entry::File(f) => {
            if let Some(contents) = &f.rules {
                if is_rule_file(f.name.as_str()) {
                    add_rules(exclusions, f.parent.as_str(), contents.as_str());
                }
            }
            let mut top: Vec<Child> = Vec::new();
            top.push(Child::File(f.path.clone()));
            assert(nodes_of(top@) =~= seq![Node::File { path: f.path@ }]);
            Ok(top)
        },
        Entry::Directory(d) => {
            if let Some(contents) = &d.rules {
                add_rules(exclusions, d.path.as_str(), contents.as_str());
            }
            let ghost entered = texts(exclusions@);
            assert(entered == rules_at(entry@, start));
            match &d.unreadable {
                Some(reason) => Err(Error::Other(reason.clone())),
                None => {
                    let entries = &d.entries;
                    let ghost found = found_of(entries@);
                    proof {
                        lemma_found_directory(*entry);
                    }
                    let mut children: Vec<Child> = Vec::new();
                    let mut index: usize = 0;
                    assert(found.take(0) =~= Seq::<Found>::empty());
                    assert(nodes_of(children@) =~= Seq::<Node>::empty());
                    while index < entries.len()
                        invariant
                            index <= entries@.len(),
                            walk_all(found.take(index as int), entered) == (Walk {
                                nodes: Ok(nodes_of(children@)),
                                rules: texts(exclusions@),
                            }),
                        decreases entries@.len() - index,
                    {
                        let next = &entries[index];
                        proof {
                            assert(found.take(index + 1).drop_last() =~= found.take(index as int));
                            assert(found.take(index + 1).last() == next@);
                            assert(decreases_to!(entries => entries[index as int]));
                        }
                        if !is_excluded(next.path().as_str(), exclusions) {
                            match traverse(next, exclusions) {
                                Err(error) => {
                                    proof {
                                        let stopped = walk_all(found.take(index + 1), entered);
                                        assert(stopped.nodes is Err);
                                        lemma_walk_all_stays_stopped(found, index + 1, entered);
                                    }
                                    return Err(error);
                                },
                                Ok(mut kept) => {
                                    let ghost before = nodes_of(children@);
                                    let ghost added = nodes_of(kept@);
                                    children.append(&mut kept);
                                    assert(nodes_of(children@) =~= before + added);
                                },
                            }
                        }
                        index += 1;
                    }
                    proof {
                        assert(found.take(index as int) =~= found);
                    }
                    let node = Child::Directory(
                        Directory { name: d.name.clone(), path: d.path.clone(), children },
                    );
                    assert(node@->Directory_children =~= nodes_of(children@));
                    let mut top: Vec<Child> = Vec::new();
                    top.push(node);
                    assert(nodes_of(top@) =~= seq![node@]);
                    Ok(top)
                },
            }
        },
    }
}

/// A walk that has stopped stays stopped, with the same reason and rules,
/// whatever entries follow.
pub proof fn lemma_walk_all_stays_stopped(entries: Seq<Found>, n: int, rules: Seq<Seq<char>>)
    requires
        0 <= n <= entries.len(),
        walk_all(entries.take(n), rules).nodes is Err,
    ensures
        walk_all(entries, rules) == walk_all(entries.take(n), rules),
    decreases entries.len(),
{
    if n == entries.len() {
        assert(entries.take(n) =~= entries);
    } else {
        assert(entries.drop_last().take(n) =~= entries.take(n));
        lemma_walk_all_stays_stopped(entries.drop_last(), n, rules);
    }
}

/// The paths of two forests put together are the paths of the one and of the
/// other.
pub proof fn lemma_paths_in_joined(a: Seq<Node>, b: Seq<Node>)
    ensures
        paths_in(a + b) == paths_in(a).union(paths_in(b)),
    decreases b.len(),
{
    if b.len() == 0 {
        assert(a + b =~= a);
        assert(paths_in(a).union(paths_in(b)) =~= paths_in(a));
    } else {
        assert((a + b).drop_last() =~= a + b.drop_last());
        assert((a + b).last() == b.last());
        lemma_paths_in_joined(a, b.drop_last());
        assert(paths_in(a + b) =~= paths_in(a).union(paths_in(b)));
    }
}

/// The paths of a forest of one node are the paths of that node.
pub proof fn lemma_paths_in_single(node: Node)
    ensures
        paths_in(seq![node]) == paths_of(node),
{
    reveal_with_fuel(paths_in, 2);
    assert(seq![node].drop_last() =~= Seq::<Node>::empty());
    assert(paths_in(seq![node]) =~= paths_of(node));
}

/// The paths strictly below a node.
pub open spec fn paths_below(node: Node) -> Set<Seq<char>> {
    match node {
        Node::File { .. } => Set::empty(),
        Node::Directory { children, .. } => paths_in(children),
    }
}

/// Rules are never retracted: a walk ends with the rules it started with,
/// in their places, and those it found behind them.
pub proof fn lemma_walk_keeps_rules(found: Found, rules: Seq<Seq<char>>)
    ensures
        rules.is_prefix_of(rules_at(found, rules)),
        rules_at(found, rules).is_prefix_of(walk(found, rules).rules),
        rules.is_prefix_of(walk(found, rules).rules),
    decreases found, 1nat,
{
    match found {
        Found::Directory { unreadable: None, entries, .. } => {
            lemma_walk_all_keeps_rules(entries, rules_at(found, rules));
        },
        _ => {},
    }
}

/// Rules are never retracted while the entries of a directory are walked.
pub proof fn lemma_walk_all_keeps_rules(entries: Seq<Found>, rules: Seq<Seq<char>>)
    ensures
        rules.is_prefix_of(walk_all(entries, rules).rules),
    decreases entries, 0nat,
{
    if entries.len() > 0 {
        lemma_walk_all_keeps_rules(entries.drop_last(), rules);
        let before = walk_all(entries.drop_last(), rules);
        if before.nodes is Ok && !excluded(entries.last().path(), before.rules) {
            lemma_walk_keeps_rules(entries.last(), before.rules);
        }
    }
}

/// A path that fewer rules exclude is excluded by more rules too.
pub proof fn lemma_excluded_by_more(path: Seq<char>, fewer: Seq<Seq<char>>, more: Seq<Seq<char>>)
    requires
        fewer.is_prefix_of(more),
        excluded(path, fewer),
    ensures
        excluded(path, more),
{
    let i = choose|i: int| 0 <= i < fewer.len() && crate::path::same_path_spec(
        #[trigger] fewer[i],
        path,
    );
    assert(more[i] == fewer[i]);
}

/// The rules in force when a directory has been entered hold for all that
/// the walk keeps below it: no path below the directory, at any depth, is
/// one that these rules exclude. Of a file the walk keeps nothing below.
pub proof fn lemma_walk_obeys_rules(found: Found, rules: Seq<Seq<char>>)
    requires
        walk(found, rules).nodes is Ok,
    ensures
        walk(found, rules).nodes->Ok_0.len() == 1,
        walk(found, rules).nodes->Ok_0[0].path() == found.path(),
        forall|path: Seq<char>|
            paths_below(walk(found, rules).nodes->Ok_0[0]).contains(path) ==> !excluded(
                path,
                rules_at(found, rules),
            ),
    decreases found, 1nat,
{
    match found {
        Found::Directory { unreadable: None, entries, .. } => {
            lemma_walk_all_obeys_rules(entries, rules_at(found, rules));
        },
        _ => {},
    }
}

/// The rules that a walk of entries starts with hold for all that it keeps:
/// no path of a node that is kept, at any depth, is one that they exclude.
pub proof fn lemma_walk_all_obeys_rules(entries: Seq<Found>, rules: Seq<Seq<char>>)
    requires
        walk_all(entries, rules).nodes is Ok,
    ensures
        forall|path: Seq<char>|
            paths_in(walk_all(entries, rules).nodes->Ok_0).contains(path) ==> !excluded(
                path,
                rules,
            ),
    decreases entries, 0nat,
{
    if entries.len() > 0 {
        let before = walk_all(entries.drop_last(), rules);
        lemma_walk_all_obeys_rules(entries.drop_last(), rules);
        lemma_walk_all_keeps_rules(entries.drop_last(), rules);
        let last = entries.last();
        if !excluded(last.path(), before.rules) {
            let below = walk(last, before.rules);
            let kept = below.nodes->Ok_0;
            lemma_walk_obeys_rules(last, before.rules);
            lemma_walk_keeps_rules(last, before.rules);
            lemma_paths_in_joined(before.nodes->Ok_0, kept);
            assert(kept =~= seq![kept[0]]);
            lemma_paths_in_single(kept[0]);
            assert forall|path: Seq<char>| paths_of(kept[0]).contains(path) implies !excluded(
                path,
                rules,
            ) by {
                if excluded(path, rules) {
                    lemma_excluded_by_more(path, rules, before.rules);
                    lemma_excluded_by_more(path, rules, rules_at(last, before.rules));
                    if path == last.path() {
                        assert(false);
                    } else {
                        assert(paths_below(kept[0]).contains(path));
                        assert(false);
                    }
                }
            }
        }
    }
}

/// The paths of what was found at one path and below it, at any depth.
pub open spec fn found_paths(found: Found) -> Set<Seq<char>>
    decreases found,
{
    match found {
        Found::File { path, .. } => set![path],
        Found::Directory { path, entries, .. } => found_paths_in(entries).insert(path),
    }
}

/// The paths of all that was found in a listing and below it, at any depth.
pub open spec fn found_paths_in(entries: Seq<Found>) -> Set<Seq<char>>
    decreases entries,
{
    if entries.len() == 0 {
        Set::empty()
    } else {
        found_paths_in(entries.drop_last()).union(found_paths(entries.last()))
    }
}

/// Whether every rule names a path within `directory`.
pub open spec fn rules_within(directory: Seq<char>, rules: Seq<Seq<char>>) -> bool {
    forall|i: int| 0 <= i < rules.len() ==> is_within(directory, #[trigger] rules[i])
}

/// Rules that begin with some rules are those rules and what follows them.
pub proof fn lemma_begins_with(whole: Seq<Seq<char>>, front: Seq<Seq<char>>, rest: Seq<Seq<char>>)
    requires
        (front + rest).is_prefix_of(whole),
    ensures
        whole == front + whole.skip(front.len() as int),
        whole.skip(front.len() as int) == rest + whole.skip((front + rest).len() as int),
{
    let begin = front + rest;
    assert forall|i: int| 0 <= i < begin.len() implies whole[i] == begin[i] by {
        assert(whole.subrange(0, begin.len() as int)[i] == begin[i]);
    }
    assert(whole =~= front + whole.skip(front.len() as int));
    assert(whole.skip(front.len() as int) =~= rest + whole.skip(begin.len() as int));
}

/// Rules that name paths within a directory decide nothing about a path
/// outside it, wherever they stand among the rules.
pub proof fn lemma_excluded_ignores(
    path: Seq<char>,
    directory: Seq<char>,
    before: Seq<Seq<char>>,
    extra: Seq<Seq<char>>,
    after: Seq<Seq<char>>,
)
    requires
        rules_within(directory, extra),
        !is_within(directory, path),
    ensures
        excluded(path, before + extra + after) == excluded(path, before + after),
{
    let with = before + extra + after;
    let without = before + after;
    if excluded(path, with) {
        let i = choose|i: int| 0 <= i < with.len() && same_path_spec(#[trigger] with[i], path);
        if i < before.len() {
            assert(without[i] == with[i]);
        } else if i < before.len() + extra.len() {
            assert(with[i] == extra[i - before.len()]);
            assert(is_within(directory, extra[i - before.len()]));
            assert(false);
        } else {
            assert(without[i - extra.len()] == with[i]);
        }
    }
    if excluded(path, without) {
        let i = choose|i: int|
            0 <= i < without.len() && same_path_spec(#[trigger] without[i], path);
        if i < before.len() {
            assert(with[i] == without[i]);
        } else {
            assert(with[i + extra.len()] == without[i]);
        }
    }
}

/// Exclusion does not reach sideways or upwards. Rules that name paths
/// within a directory change nothing of the walk of what was found outside
/// that directory: the same nodes are kept, and the same rules are found,
/// as without them.
pub proof fn lemma_walk_ignores_rules_of_elsewhere(
    found: Found,
    directory: Seq<char>,
    before: Seq<Seq<char>>,
    extra: Seq<Seq<char>>,
    after: Seq<Seq<char>>,
)
    requires
        rules_within(directory, extra),
        forall|path: Seq<char>| found_paths(found).contains(path) ==> !is_within(directory, path),
    ensures
        walk(found, before + extra + after).nodes == walk(found, before + after).nodes,
        walk(found, before + extra + after).rules == before + extra + walk(
            found,
            before + after,
        ).rules.skip(before.len() as int),
        walk(found, before + after).rules == before + walk(found, before + after).rules.skip(
            before.len() as int,
        ),
    decreases found, 1nat,
{
    let with = before + extra + after;
    let without = before + after;
    lemma_walk_keeps_rules(found, without);
    lemma_begins_with(walk(found, without).rules, before, after);
    lemma_begins_with(rules_at(found, without), before, after);
    let own = rules_at(found, without).skip(without.len() as int);
    assert(rules_at(found, without) =~= before + (after + own));
    assert(rules_at(found, with) =~= before + extra + (after + own));
    match found {
        Found::Directory { unreadable: None, entries, .. } => {
            assert forall|path: Seq<char>| found_paths_in(entries).contains(path) implies
                !is_within(directory, path) by {
                assert(found_paths(found).contains(path));
            }
            lemma_walk_all_ignores_rules_of_elsewhere(
                entries,
                directory,
                before,
                extra,
                after + own,
            );
        },
        _ => {
            assert(rules_at(found, without).skip(before.len() as int) =~= after + own);
        },
    }
}

/// Rules that name paths within a directory change nothing of the walk of
/// a listing of which nothing lies within that directory.
pub proof fn lemma_walk_all_ignores_rules_of_elsewhere(
    entries: Seq<Found>,
    directory: Seq<char>,
    before: Seq<Seq<char>>,
    extra: Seq<Seq<char>>,
    after: Seq<Seq<char>>,
)
    requires
        rules_within(directory, extra),
        forall|path: Seq<char>|
            found_paths_in(entries).contains(path) ==> !is_within(directory, path),
    ensures
        walk_all(entries, before + extra + after).nodes == walk_all(entries, before + after).nodes,
        walk_all(entries, before + extra + after).rules == before + extra + walk_all(
            entries,
            before + after,
        ).rules.skip(before.len() as int),
        walk_all(entries, before + after).rules == before + walk_all(
            entries,
            before + after,
        ).rules.skip(before.len() as int),
    decreases entries, 0nat,
{
    let with = before + extra + after;
    let without = before + after;
    lemma_walk_all_keeps_rules(entries, without);
    lemma_begins_with(walk_all(entries, without).rules, before, after);
    if entries.len() == 0 {
        assert(without.skip(before.len() as int) =~= after);
    } else {
        let front = entries.drop_last();
        let last = entries.last();
        assert forall|path: Seq<char>| found_paths_in(front).contains(path) implies !is_within(
            directory,
            path,
        ) by {
            assert(found_paths_in(entries).contains(path));
        }
        assert forall|path: Seq<char>| found_paths(last).contains(path) implies !is_within(
            directory,
            path,
        ) by {
            assert(found_paths_in(entries).contains(path));
        }
        lemma_walk_all_ignores_rules_of_elsewhere(front, directory, before, extra, after);
        let plain = walk_all(front, without);
        let tail = plain.rules.skip(before.len() as int);
        if plain.nodes is Ok {
            assert(found_paths(last).contains(last.path()));
            lemma_excluded_ignores(last.path(), directory, before, extra, tail);
            if !excluded(last.path(), plain.rules) {
                lemma_walk_ignores_rules_of_elsewhere(last, directory, before, extra, tail);
            }
        }
    }
}

/// Exclusion is additive: the rules of the rule file of a directory hold
/// for what the walk keeps below that directory, and leave alone what was
/// found outside it. Of what lies below the directory, the walk keeps no
/// path that these rules exclude; of what lies outside, it keeps the same
/// with these rules in force as without them.
pub proof fn lemma_exclusion_is_additive(
    directory: Found,
    elsewhere: Found,
    rules: Seq<Seq<char>>,
    path: Seq<char>,
)
    requires
        directory is Directory,
        directory->Directory_rules is Some,
        directory->Directory_path.len() > 0,
        walk(directory, rules).nodes is Ok,
        paths_below(walk(directory, rules).nodes->Ok_0[0]).contains(path),
        forall|other: Seq<char>|
            found_paths(elsewhere).contains(other) ==> !is_within(
                directory->Directory_path,
                other,
            ),
    ensures
        !excluded(path, rules_of(directory->Directory_path, directory->Directory_rules->Some_0)),
        walk(elsewhere, rules_at(directory, rules)).nodes == walk(elsewhere, rules).nodes,
{
    let at = directory->Directory_path;
    let own = rules_of(at, directory->Directory_rules->Some_0);
    lemma_walk_obeys_rules(directory, rules);
    if excluded(path, own) {
        let i = choose|i: int| 0 <= i < own.len() && same_path_spec(#[trigger] own[i], path);
        assert((rules + own)[rules.len() + i] == own[i]);
        assert(excluded(path, rules + own));
    }
    crate::exclusion::lemma_rules_stay_within(at, crate::exclusion::lines(
        directory->Directory_rules->Some_0,
    ));
    lemma_walk_ignores_rules_of_elsewhere(elsewhere, at, rules, own, Seq::empty());
    assert(rules + own + Seq::<Seq<char>>::empty() =~= rules + own);
    assert(rules + Seq::<Seq<char>>::empty() =~= rules);
}

} // verus!
