//! The search held against a directory tree: a driver that answers from a
//! tree takes the search through it depth-first, and the search ends with
//! the first match in that order, or without one where no file of the tree
//! names the target.

use vstd::prelude::*;
use crate::record::RecordView;
use crate::search::{
    finished, match_in, names_in, proceed, start_spec, step_spec, ActionView, ReplyView,
    SearchView, WaitingView,
};
use crate::walker::{is_candidate, EntryKind, EntryView};

verus! {

/// A directory tree as a driver sees it. A directory has a listing or,
/// where it cannot be listed, the reason; any other entry has content or,
/// where it cannot be read, the reason.
pub enum Tree {
    Directory { entry: EntryView, listing: Option<Seq<Tree>>, failure: Seq<char> },
    Leaf { entry: EntryView, content: Option<Seq<u8>>, failure: Seq<char> },
}

/// How a driver answers what a search asks.
pub type Driver = spec_fn(ActionView) -> ReplyView;

/// The entry that stands for a tree in the listing of its directory.
pub open spec fn entry_of(t: Tree) -> EntryView {
    match t {
        Tree::Directory { entry, .. } => entry,
        Tree::Leaf { entry, .. } => entry,
    }
}

/// The entries of a sequence of trees.
pub open spec fn entries_of(ts: Seq<Tree>) -> Seq<EntryView> {
    ts.map_values(|t: Tree| entry_of(t))
}

/// Whether the driver answers as the tree says: for each directory of the
/// tree that a search can come to, with its listing or its failure, and for
/// each file to search, with its content or its failure.
pub open spec fn answers(driver: Driver, t: Tree) -> bool
    decreases t,
{
    match t {
        Tree::Directory { entry, listing, failure } => {
            &&& entry.kind == EntryKind::Directory
            &&& match listing {
                Some(children) => {
                    &&& driver(ActionView::ReadDir(entry.path)) == ReplyView::Listing(
                        entries_of(children),
                    )
                    &&& forall|i: int| 0 <= i < children.len() ==> answers(driver, children[i])
                },
                None => driver(ActionView::ReadDir(entry.path)) == ReplyView::Failed(failure),
            }
        },
        Tree::Leaf { entry, content, failure } => {
            &&& entry.kind != EntryKind::Directory
            &&& is_candidate(entry) ==> driver(ActionView::ReadFile(entry.path)) == match content {
                Some(raw) => ReplyView::Content(raw),
                None => ReplyView::Failed(failure),
            }
        },
    }
}

/// The first match of a tree in depth-first order.
pub open spec fn tree_match(t: Tree, target: Seq<char>) -> Option<RecordView>
    decreases t, 1int,
{
    match t {
        Tree::Directory { listing: Some(children), .. } => forest_match(children, target),
        Tree::Directory { listing: None, .. } => None,
        Tree::Leaf { entry, content: Some(raw), .. } => if is_candidate(entry) && names_in(
            raw,
            target,
        ) {
            Some(match_in(raw, entry.path, target))
        } else {
            None
        },
        Tree::Leaf { content: None, .. } => None,
    }
}

/// The first match of a sequence of trees, each searched depth-first, in
/// the order of the sequence.
pub open spec fn forest_match(ts: Seq<Tree>, target: Seq<char>) -> Option<RecordView>
    decreases ts, 0int,
{
    if ts.len() == 0 {
        None
    } else {
        match tree_match(ts[0], target) {
            Some(m) => Some(m),
            None => forest_match(ts.drop_first(), target),
        }
    }
}

/// The number of replies that the search of a tree takes.
pub open spec fn tree_steps(t: Tree, target: Seq<char>) -> nat
    decreases t, 1int,
{
    match t {
        Tree::Directory { listing: Some(children), .. } => 1 + forest_steps(children, target),
        Tree::Directory { listing: None, .. } => 1,
        Tree::Leaf { entry, .. } => if is_candidate(entry) {
            1
        } else {
            0
        },
    }
}

/// The number of replies that the search of a sequence of trees takes: it
/// ends with the first tree that has a match.
pub open spec fn forest_steps(ts: Seq<Tree>, target: Seq<char>) -> nat
    decreases ts, 0int,
{
    if ts.len() == 0 {
        0
    } else if tree_match(ts[0], target) is Some {
        tree_steps(ts[0], target)
    } else {
        tree_steps(ts[0], target) + forest_steps(ts.drop_first(), target)
    }
}

/// What a search asks in its state.
pub open spec fn asked(s: SearchView) -> ActionView {
    match s.waiting {
        WaitingView::Nothing => ActionView::Done(s.outcome),
        WaitingView::Listing(path) => ActionView::ReadDir(path),
        WaitingView::Content(path) => ActionView::ReadFile(path),
    }
}

/// The search after `n` replies of the driver, each to what the search
/// asked just before.
pub open spec fn driven(s: SearchView, driver: Driver, n: nat) -> SearchView
    decreases n,
{
    if n == 0 {
        s
    } else {
        driven(step_spec(s, driver(asked(s))).search, driver, (n - 1) as nat)
    }
}

/// A search that goes on with the entries `todo` ahead.
pub open spec fn going(target: Seq<char>, todo: Seq<EntryView>) -> SearchView {
    proceed(target, todo, Seq::empty()).search
}

/// Replies taken one run after another are taken in one run.
pub proof fn lemma_driven_add(s: SearchView, driver: Driver, a: nat, b: nat)
    ensures
        driven(s, driver, a + b) == driven(driven(s, driver, a), driver, b),
    decreases a,
{
    if a > 0 {
        lemma_driven_add(step_spec(s, driver(asked(s))).search, driver, (a - 1) as nat, b);
        assert((a + b - 1) as nat == (a - 1) as nat + b);
    }
}

/// A search whose entries ahead begin with the entries of the trees `ts`,
/// driven by a driver that answers as these trees say, ends with the first
/// match of the trees if there is one; if there is none, it comes to go on
/// with the entries that follow. Either takes as many replies as
/// `forest_steps` says.
pub proof fn lemma_forest(
    ts: Seq<Tree>,
    later: Seq<EntryView>,
    target: Seq<char>,
    driver: Driver,
)
    requires
        forall|i: int| 0 <= i < ts.len() ==> answers(driver, ts[i]),
    ensures
        driven(going(target, entries_of(ts) + later), driver, forest_steps(ts, target)) == (
        match forest_match(ts, target) {
            Some(m) => finished(target, Some(m)),
            None => going(target, later),
        }),
    decreases ts,
{
    let todo = entries_of(ts) + later;
    if ts.len() == 0 {
        assert(todo =~= later);
    } else {
        let t = ts[0];
        let rest = ts.drop_first();
        let ahead = entries_of(rest) + later;
        assert(todo[0] == entry_of(t));
        assert(todo.drop_first() =~= ahead);
        assert(answers(driver, t));
        assert forall|i: int| 0 <= i < rest.len() implies answers(driver, rest[i]) by {
            assert(rest[i] == ts[i + 1]);
        }
        let s0 = going(target, todo);
        match t {
            Tree::Leaf { entry, content, failure } => {
                if is_candidate(entry) {
                    let s1 = step_spec(s0, driver(asked(s0))).search;
                    assert(driven(s0, driver, 1) == driven(s1, driver, 0));
                    assert(tree_steps(t, target) == 1);
                    if tree_match(t, target) is Some {
                        assert(forest_steps(ts, target) == 1);
                        assert(forest_match(ts, target) == tree_match(t, target));
                        assert(s1 == finished(target, tree_match(t, target)));
                    } else {
                        assert(s1 == going(target, ahead));
                        lemma_forest(rest, later, target, driver);
                        lemma_driven_add(s0, driver, 1, forest_steps(rest, target));
                        assert(forest_steps(ts, target) == 1 + forest_steps(rest, target));
                        assert(forest_match(ts, target) == forest_match(rest, target));
                        assert(driven(s0, driver, 1 + forest_steps(rest, target)) == driven(
                            s1,
                            driver,
                            forest_steps(rest, target),
                        ));
                    }
                } else {
                    assert(s0 == going(target, ahead));
                    lemma_forest(rest, later, target, driver);
                    assert(tree_steps(t, target) == 0);
                    assert(tree_match(t, target) is None);
                    assert(forest_steps(ts, target) == forest_steps(rest, target));
                    assert(forest_match(ts, target) == forest_match(rest, target));
                }
            },
            Tree::Directory { entry, listing, failure } => {
                let s1 = step_spec(s0, driver(asked(s0))).search;
                assert(driven(s0, driver, 1) == driven(s1, driver, 0));
                match listing {
                    Some(children) => {
                        assert(s1 == going(target, entries_of(children) + ahead));
                        lemma_forest(children, ahead, target, driver);
                        let inner = forest_steps(children, target);
                        lemma_driven_add(s0, driver, 1, inner);
                        assert(tree_steps(t, target) == 1 + inner);
                        assert(tree_match(t, target) == forest_match(children, target));
                        assert(driven(s0, driver, 1 + inner) == driven(s1, driver, inner));
                        if forest_match(children, target) is None {
                            lemma_forest(rest, later, target, driver);
                            lemma_driven_add(s0, driver, 1 + inner, forest_steps(rest, target));
                        }
                    },
                    None => {
                        assert(s1 == going(target, ahead));
                        lemma_forest(rest, later, target, driver);
                        lemma_driven_add(s0, driver, 1, forest_steps(rest, target));
                        assert(tree_steps(t, target) == 1);
                        assert(tree_match(t, target) is None);
                    },
                }
            },
        }
    }
}

/// The search of a directory tree, driven by a driver that answers as the
/// tree says, ends: after as many replies as `tree_steps` says it is over,
/// with the first match of the tree in depth-first order, or without a
/// match if the tree has none.
pub proof fn lemma_search_of_tree(t: Tree, target: Seq<char>, driver: Driver)
    requires
        t is Directory,
        answers(driver, t),
    ensures
        driven(going(target, seq![entry_of(t)]), driver, tree_steps(t, target)) == finished(
            target,
            tree_match(t, target),
        ),
{
    let ts = seq![t];
    assert(entries_of(ts) + Seq::<EntryView>::empty() =~= seq![entry_of(t)]);
    assert(ts.drop_first() =~= Seq::<Tree>::empty());
    assert(ts[0] == t);
    lemma_forest(ts, Seq::empty(), target, driver);
    assert(forest_match(ts.drop_first(), target) is None);
    assert(forest_steps(ts.drop_first(), target) == 0);
}

/// The search that is begun for `target` under the root of a directory
/// tree, for a target not found before, and driven by a driver that
/// answers as the tree says, ends with the first match of the tree in
/// depth-first order, or without a match if the tree has none.
pub proof fn lemma_search_from_root(t: Tree, root: Seq<char>, target: Seq<char>, driver: Driver)
    requires
        entry_of(t) == (EntryView { path: root, kind: EntryKind::Directory, extension: None }),
        answers(driver, t),
    ensures
        driven(start_spec(target, root, false).search, driver, tree_steps(t, target)) == finished(
            target,
            tree_match(t, target),
        ),
{
    lemma_search_of_tree(t, target, driver);
}

/// Whether a file of the tree that a search comes to names the target.
pub open spec fn tree_names(t: Tree, target: Seq<char>) -> bool
    decreases t,
{
    match t {
        Tree::Directory { listing: Some(children), .. } => exists|i: int|
            0 <= i < children.len() && tree_names(#[trigger] children[i], target),
        Tree::Directory { listing: None, .. } => false,
        Tree::Leaf { entry, content: Some(raw), .. } => is_candidate(entry) && names_in(raw, target),
        Tree::Leaf { content: None, .. } => false,
    }
}

/// A sequence of trees has a match exactly when a file of one of them
/// names the target.
pub proof fn lemma_forest_match_iff_named(ts: Seq<Tree>, target: Seq<char>)
    ensures
        forest_match(ts, target) is Some <==> exists|i: int|
            0 <= i < ts.len() && tree_names(#[trigger] ts[i], target),
    decreases ts, 0int,
{
    if ts.len() > 0 {
        let rest = ts.drop_first();
        lemma_tree_match_iff_named(ts[0], target);
        lemma_forest_match_iff_named(rest, target);
        if forest_match(ts, target) is Some {
            if tree_match(ts[0], target) is None {
                let i = choose|i: int| 0 <= i < rest.len() && tree_names(#[trigger] rest[i], target);
                assert(rest[i] == ts[i + 1]);
            }
        }
        if exists|i: int| 0 <= i < ts.len() && tree_names(#[trigger] ts[i], target) {
            let i = choose|i: int| 0 <= i < ts.len() && tree_names(#[trigger] ts[i], target);
            if i > 0 {
                assert(rest[i - 1] == ts[i]);
            }
        }
    }
}

/// A tree has a match exactly when a file of it names the target: where no
/// file under the root names the target, the search finds nothing.
pub proof fn lemma_tree_match_iff_named(t: Tree, target: Seq<char>)
    ensures
        tree_match(t, target) is Some <==> tree_names(t, target),
    decreases t, 1int,
{
    match t {
        Tree::Directory { listing: Some(children), .. } => {
            lemma_forest_match_iff_named(children, target);
        },
        _ => {},
    }
}

} // verus!
