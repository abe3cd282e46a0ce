//! A whole run: the trees of what was found at the configured paths, with
//! the exclusion rules applied, put before the reconciler.

use vstd::prelude::*;
use crate::env::Env;
use crate::error::{Error, ErrorView};
use crate::reconcile::machine::{Action, Reconciler};
use crate::reconcile::model::{call_of, start};
use crate::store::StateStore;
use crate::tree::{found_of, nodes_of, traverse, walk, Child, Entry, Found, Node};

verus! {

/// The nodes that are kept of what was found at the configured paths, in
/// their order; or why the first path that could not be walked could not.
/// Every path is walked with no rule in force at its start: rules found
/// below one path do not reach another.
pub open spec fn gathered(roots: Seq<Found>) -> Result<Seq<Node>, Seq<char>>
    decreases roots.len(),
{
    if roots.len() == 0 {
        Ok(Seq::empty())
    } else {
        match gathered(roots.drop_last()) {
            Err(reason) => Err(reason),
            Ok(nodes) => match walk(roots.last(), Seq::empty()).nodes {
                Err(reason) => Err(reason),
                Ok(kept) => Ok(nodes + kept),
            },
        }
    }
}

/// Once one path could not be walked, the outcome is settled.
pub proof fn lemma_gathered_stays_failed(roots: Seq<Found>, n: int)
    requires
        0 <= n <= roots.len(),
        gathered(roots.take(n)) is Err,
    ensures
        gathered(roots) == gathered(roots.take(n)),
    decreases roots.len(),
{
    if n == roots.len() {
        assert(roots.take(n) =~= roots);
    } else {
        assert(roots.drop_last().take(n) =~= roots.take(n));
        lemma_gathered_stays_failed(roots.drop_last(), n);
    }
}

/// Starts a run. `roots` holds what was found at each configured path and
/// `store` the records of the previous run. The result is the reconciler
/// at the start of a run over what the exclusion rules leave of the roots,
/// under the root folder of `env`, and the first action to take.
pub fn sync(env: &Env, roots: &Vec<Entry>, store: StateStore) -> (result: Result<
    (Reconciler, Action),
    Error,
>)
    requires
        store.wf(),
    ensures
        match gathered(found_of(roots@)) {
            Ok(forest) => {
                &&& result is Ok
                &&& result->Ok_0.0@ == start(forest, env@.root_folder, store@)
                &&& result->Ok_0.0.wf()
                &&& result->Ok_0.1@ == call_of(result->Ok_0.0@)
            },
            Err(reason) => result is Err && result->Err_0@ == ErrorView::Other(reason),
        },
{
    let mut children: Vec<Child> = Vec::new();
    let mut index: usize = 0;
    let ghost found = found_of(roots@);
    assert(found.take(0) =~= Seq::<Found>::empty());
    assert(nodes_of(children@) =~= Seq::<Node>::empty());
    while index < roots.len()
        invariant
            index <= roots@.len(),
            found == found_of(roots@),
            gathered(found.take(index as int)) == Ok::<Seq<Node>, Seq<char>>(nodes_of(children@)),
        decreases roots@.len() - index,
    {
        proof {
            assert(found.take(index + 1).drop_last() =~= found.take(index as int));
            assert(found.take(index + 1).last() == roots@[index as int]@);
        }
        let mut exclusions: Vec<String> = Vec::new();
        assert(crate::text::texts(exclusions@) =~= Seq::<Seq<char>>::empty());
        match traverse(&roots[index], &mut exclusions) {
            Err(error) => {
                proof {
                    lemma_gathered_stays_failed(found, index + 1);
                }
                return Err(error);
            },
            Ok(mut kept) => {
                let ghost before = nodes_of(children@);
                let ghost added = nodes_of(kept@);
                children.append(&mut kept);
                assert(nodes_of(children@) =~= before + added);
            },
        }
        index += 1;
    }
    assert(found.take(index as int) =~= found);
    Ok(Reconciler::new(children, env.root_folder.as_str(), store))
}

} // verus!
