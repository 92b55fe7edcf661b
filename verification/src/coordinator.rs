//! Progress and deduplication for one run: how many targets are done, out
//! of how many, and which targets already have a recorded match.
//!
//! The coordinator itself is plain data with short, non-blocking
//! operations; tasks that share one put it behind a lock and hold that lock
//! for the length of one call only.

use vstd::hash_set::StringHashSet;
use vstd::prelude::*;
use crate::record::{result_line, MatchRecord, RecordView};

verus! {

/// The counters of a run: how many targets are done, and how many there
/// are. The first never exceeds the second.
pub struct ProgressState {
    completed: usize,
    total: usize,
}

/// The targets that have a recorded match in the current run.
pub struct FoundSet {
    items: StringHashSet,
}

/// The counters of a run and the set of targets that have a match.
pub struct Coordinator {
    progress: ProgressState,
    found: FoundSet,
}

/// What a coordinator stands for.
pub struct CoordinatorView {
    pub completed: nat,
    pub total: nat,
    pub found: Set<Seq<char>>,
}

/// What the outcome of a search stands for.
pub open spec fn outcome_view(outcome: Option<MatchRecord>) -> Option<RecordView> {
    match outcome {
        Some(record) => Some(record@),
        None => None,
    }
}

/// The state at the start of a run over `total` targets.
pub open spec fn registered(total: nat) -> CoordinatorView {
    CoordinatorView { completed: 0, total, found: Set::empty() }
}

/// The state after one more target is done. The count never passes the
/// total.
pub open spec fn marked(c: CoordinatorView) -> CoordinatorView {
    CoordinatorView {
        completed: if c.completed < c.total {
            c.completed + 1
        } else {
            c.completed
        },
        ..c
    }
}

/// The state after `k` more targets are done.
pub open spec fn marked_times(c: CoordinatorView, k: nat) -> CoordinatorView
    decreases k,
{
    if k == 0 {
        c
    } else {
        marked(marked_times(c, (k - 1) as nat))
    }
}

/// The state after a claim of `target`.
pub open spec fn claimed(c: CoordinatorView, target: Seq<char>) -> CoordinatorView {
    CoordinatorView { found: c.found.insert(target), ..c }
}

/// Whether a claim of `target` in the state `c` is won.
pub open spec fn claim_won(c: CoordinatorView, target: Seq<char>) -> bool {
    !c.found.contains(target)
}

/// The state after the claims `targets`, made in this order.
pub open spec fn claimed_all(c: CoordinatorView, targets: Seq<Seq<char>>) -> CoordinatorView
    decreases targets.len(),
{
    if targets.len() == 0 {
        c
    } else {
        claimed(claimed_all(c, targets.drop_last()), targets.last())
    }
}

/// The completed count of a run over `total` targets is the number of
/// targets done so far, as long as no more than `total` are done: it never
/// exceeds the total, it is below the total before the last target is done,
/// and it equals the total once the last one is.
pub proof fn lemma_progress(total: nat, k: nat)
    ensures
        marked_times(registered(total), k).total == total,
        marked_times(registered(total), k).completed <= total,
        k <= total ==> marked_times(registered(total), k).completed == k,
        k < total ==> marked_times(registered(total), k).completed < total,
        k >= total ==> marked_times(registered(total), k).completed == total,
    decreases k,
{
    if k > 0 {
        lemma_progress(total, (k - 1) as nat);
    }
}

/// The set of found targets only grows under claims, and every claimed
/// target is in it.
pub proof fn lemma_claims_grow(c: CoordinatorView, targets: Seq<Seq<char>>)
    ensures
        c.found.subset_of(claimed_all(c, targets).found),
        forall|i: int| 0 <= i < targets.len() ==> claimed_all(c, targets).found.contains(targets[i]),
        claimed_all(c, targets).completed == c.completed,
        claimed_all(c, targets).total == c.total,
    decreases targets.len(),
{
    if targets.len() > 0 {
        let init = targets.drop_last();
        lemma_claims_grow(c, init);
        assert forall|i: int| 0 <= i < targets.len() implies claimed_all(
            c,
            targets,
        ).found.contains(targets[i]) by {
            if i < init.len() {
                assert(init[i] == targets[i]);
            }
        }
    }
}

/// A target is claimed at most once: of two claims of the same target, in
/// one run and with any claims between them, the later one is lost.
pub proof fn lemma_claim_once(c: CoordinatorView, targets: Seq<Seq<char>>, i: int, j: int)
    requires
        0 <= i < j < targets.len(),
        targets[i] == targets[j],
    ensures
        !claim_won(claimed_all(c, targets.take(j)), targets[j]),
{
    lemma_claims_grow(c, targets.take(j));
    assert(targets.take(j)[i] == targets[i]);
}

/// Claims of other targets take nothing from a target: if it is not found
/// and none of the claims is for it, its own claim is still won.
pub proof fn lemma_unrelated_claims(c: CoordinatorView, others: Seq<Seq<char>>, target: Seq<char>)
    requires
        !c.found.contains(target),
        forall|i: int| 0 <= i < others.len() ==> others[i] != target,
    ensures
        claim_won(claimed_all(c, others), target),
    decreases others.len(),
{
    if others.len() > 0 {
        let init = others.drop_last();
        assert forall|i: int| 0 <= i < init.len() implies init[i] != target by {
            assert(init[i] == others[i]);
        }
        lemma_unrelated_claims(c, init, target);
        assert(others.last() == others[others.len() - 1]);
    }
}

/// The state after the search of one target is settled with `outcome`: a
/// match is claimed for its target, and the target counts as done.
pub open spec fn settled(c: CoordinatorView, outcome: Option<RecordView>) -> CoordinatorView {
    marked(
        match outcome {
            Some(record) => claimed(c, record.target),
            None => c,
        },
    )
}

/// The line that goes to the results file when the search of one target
/// is settled with `outcome` in the state `c`: the line of the match, if
/// there is a match and the claim of its target is won.
pub open spec fn settled_line(c: CoordinatorView, outcome: Option<RecordView>) -> Option<
    Seq<char>,
> {
    match outcome {
        Some(record) => if claim_won(c, record.target) {
            Some(result_line(record.row, record.text))
        } else {
            None
        },
        None => None,
    }
}

/// The state after the searches with the outcomes `outcomes` are settled,
/// in this order.
pub open spec fn settled_all(c: CoordinatorView, outcomes: Seq<Option<RecordView>>) -> CoordinatorView
    decreases outcomes.len(),
{
    if outcomes.len() == 0 {
        c
    } else {
        settled(settled_all(c, outcomes.drop_last()), outcomes.last())
    }
}

/// Whether one of `outcomes` is a match for `target`.
pub open spec fn has_match_for(outcomes: Seq<Option<RecordView>>, target: Seq<char>) -> bool {
    exists|i: int|
        0 <= i < outcomes.len() && (#[trigger] outcomes[i] matches Some(r) && r.target == target)
}

/// After searches are settled, the targets found are those found before
/// and those of the matches, and each search has counted once, up to the
/// total.
pub proof fn lemma_settled_all(c: CoordinatorView, outcomes: Seq<Option<RecordView>>)
    ensures
        forall|t: Seq<char>| #[trigger]
            settled_all(c, outcomes).found.contains(t) <==> c.found.contains(t) || has_match_for(
                outcomes,
                t,
            ),
        settled_all(c, outcomes).total == c.total,
        settled_all(c, outcomes).completed == if c.completed + outcomes.len() <= c.total {
            c.completed + outcomes.len()
        } else if c.completed <= c.total {
            c.total
        } else {
            c.completed
        },
    decreases outcomes.len(),
{
    if outcomes.len() > 0 {
        let init = outcomes.drop_last();
        let last = outcomes.last();
        let before = settled_all(c, init);
        lemma_settled_all(c, init);
        assert(outcomes[outcomes.len() - 1] == last);
        assert forall|t: Seq<char>| #[trigger]
            settled_all(c, outcomes).found.contains(t) <==> c.found.contains(t) || has_match_for(
                outcomes,
                t,
            ) by {
            let here = last matches Some(r) && r.target == t;
            assert(settled_all(c, outcomes).found.contains(t) <==> before.found.contains(t) || here);
            if has_match_for(init, t) {
                let i = choose|i: int|
                    0 <= i < init.len() && (#[trigger] init[i] matches Some(r) && r.target == t);
                assert(outcomes[i] == init[i]);
                assert(has_match_for(outcomes, t));
            }
            if here {
                assert(has_match_for(outcomes, t));
            }
            if has_match_for(outcomes, t) {
                let i = choose|i: int|
                    0 <= i < outcomes.len() && (#[trigger] outcomes[i] matches Some(r) && r.target
                        == t);
                if i < init.len() {
                    assert(init[i] == outcomes[i]);
                    assert(has_match_for(init, t));
                }
            }
        }
    } else {
        assert forall|t: Seq<char>| !has_match_for(outcomes, t) by {}
    }
}

/// A run over as many targets as `outcomes` has searches is complete when
/// the last of them is settled and not before; the count of targets done
/// is the number of searches settled and never exceeds the total.
pub proof fn lemma_run_completes(outcomes: Seq<Option<RecordView>>, k: int)
    requires
        0 <= k <= outcomes.len(),
    ensures
        settled_all(registered(outcomes.len()), outcomes.take(k)).total == outcomes.len(),
        settled_all(registered(outcomes.len()), outcomes.take(k)).completed == k,
{
    lemma_settled_all(registered(outcomes.len()), outcomes.take(k));
}

/// One line per target: of two matches for the same target, settled in
/// one run with any searches between them, the later one gives no line.
pub proof fn lemma_one_line_per_target(
    c: CoordinatorView,
    outcomes: Seq<Option<RecordView>>,
    i: int,
    j: int,
)
    requires
        0 <= i < j < outcomes.len(),
        outcomes[i] is Some,
        outcomes[j] is Some,
        outcomes[i]->0.target == outcomes[j]->0.target,
    ensures
        settled_line(settled_all(c, outcomes.take(j)), outcomes[j]) is None,
{
    let earlier = outcomes.take(j);
    lemma_settled_all(c, earlier);
    assert(earlier[i] == outcomes[i]);
    assert(has_match_for(earlier, outcomes[j]->0.target));
}

/// The first match for a target gives its line: a match for a target that
/// was not found before the run, settled after searches of which none had
/// a match for that target, gives the line of that match.
pub proof fn lemma_first_match_gives_line(
    c: CoordinatorView,
    outcomes: Seq<Option<RecordView>>,
    j: int,
)
    requires
        0 <= j < outcomes.len(),
        outcomes[j] is Some,
        !c.found.contains(outcomes[j]->0.target),
        !has_match_for(outcomes.take(j), outcomes[j]->0.target),
    ensures
        settled_line(settled_all(c, outcomes.take(j)), outcomes[j]) == Some(
            result_line(outcomes[j]->0.row, outcomes[j]->0.text),
        ),
{
    lemma_settled_all(c, outcomes.take(j));
}

/// Searches without a match give no line and leave the set of found
/// targets as it was.
pub proof fn lemma_no_match_no_line(c: CoordinatorView, outcomes: Seq<Option<RecordView>>)
    requires
        forall|i: int| 0 <= i < outcomes.len() ==> outcomes[i] is None,
    ensures
        settled_all(c, outcomes).found == c.found,
        forall|state: CoordinatorView, i: int|
            0 <= i < outcomes.len() ==> #[trigger] settled_line(state, outcomes[i]) is None,
{
    lemma_settled_all(c, outcomes);
    assert forall|t: Seq<char>| !has_match_for(outcomes, t) by {}
    assert(settled_all(c, outcomes).found =~= c.found);
}

impl ProgressState {
    #[verifier::type_invariant]
    spec fn inv(self) -> bool {
        self.completed <= self.total
    }

    /// The number of targets done.
    pub closed spec fn completed(self) -> nat {
        self.completed as nat
    }

    /// The number of targets of the run.
    pub closed spec fn total(self) -> nat {
        self.total as nat
    }

    /// The counters at the start of a run over `total` targets.
    pub fn new(total: usize) -> (p: Self)
        ensures
            p.completed() == 0,
            p.total() == total,
    {
        ProgressState { completed: 0, total }
    }

    /// The number of targets done and the number of targets of the run.
    pub fn counts(&self) -> (p: (usize, usize))
        ensures
            p.0 == self.completed(),
            p.1 == self.total(),
            p.0 <= p.1,
    {
        proof {
            use_type_invariant(self);
        }
        (self.completed, self.total)
    }

    /// Counts one more target as done, unless all are. Returns whether this
    /// call brought the count to the total.
    pub fn advance(&mut self) -> (finished: bool)
        ensures
            final(self).total() == old(self).total(),
            final(self).completed() == if old(self).completed() < old(self).total() {
                old(self).completed() + 1
            } else {
                old(self).completed()
            },
            finished == (old(self).completed() < old(self).total() && final(self).completed()
                == old(self).total()),
    {
        proof {
            use_type_invariant(&*self);
        }
        if self.completed < self.total {
            self.completed = self.completed + 1;
            self.completed == self.total
        } else {
            false
        }
    }
}

impl View for FoundSet {
    type V = Set<Seq<char>>;

    closed spec fn view(&self) -> Set<Seq<char>> {
        self.items@
    }
}

impl FoundSet {
    /// The empty set.
    pub fn new() -> (f: Self)
        ensures
            f@ == Set::<Seq<char>>::empty(),
    {
        FoundSet { items: StringHashSet::new() }
    }

    /// Whether `target` is in the set.
    pub fn contains(&self, target: &str) -> (b: bool)
        ensures
            b == self@.contains(target@),
    {
        self.items.contains(target)
    }

    /// Puts `target` into the set unless it is there. Returns whether it
    /// was put in.
    pub fn insert(&mut self, target: &str) -> (added: bool)
        ensures
            added == !old(self)@.contains(target@),
            final(self)@ == old(self)@.insert(target@),
    {
        self.items.insert(target.to_owned())
    }
}

impl View for Coordinator {
    type V = CoordinatorView;

    closed spec fn view(&self) -> CoordinatorView {
        CoordinatorView {
            completed: self.progress.completed(),
            total: self.progress.total(),
            found: self.found@,
        }
    }
}

impl Coordinator {
    /// A coordinator before any run: nothing to do, nothing found.
    pub fn new() -> (c: Self)
        ensures
            c@ == registered(0),
    {
        Coordinator { progress: ProgressState::new(0), found: FoundSet::new() }
    }

    /// Starts a run over `total` targets: nothing is done and nothing is
    /// found yet.
    pub fn register(&mut self, total: usize)
        ensures
            final(self)@ == registered(total as nat),
    {
        self.progress = ProgressState::new(total);
        self.found = FoundSet::new();
    }

    /// The number of targets done and the number of targets of the run.
    pub fn progress(&self) -> (p: (usize, usize))
        ensures
            p.0 == self@.completed,
            p.1 == self@.total,
            p.0 <= p.1,
    {
        self.progress.counts()
    }

    /// Whether every target of the run is done.
    pub fn is_complete(&self) -> (b: bool)
        ensures
            b == (self@.completed == self@.total),
    {
        let p = self.progress.counts();
        p.0 == p.1
    }

    /// Counts one more target as done. Returns whether this call brought
    /// the count to the total.
    pub fn mark_target_done(&mut self) -> (finished: bool)
        ensures
            final(self)@ == marked(old(self)@),
            finished == (old(self)@.completed < old(self)@.total
                && final(self)@.completed == old(self)@.total),
    {
        self.progress.advance()
    }

    /// Whether `target` has a recorded match in this run.
    pub fn is_found(&self, target: &str) -> (b: bool)
        ensures
            b == self@.found.contains(target@),
    {
        self.found.contains(target)
    }

    /// Claims `target`: records it as found unless it already is. Returns
    /// whether the caller won the claim, that is, whether the target was not
    /// found before.
    pub fn try_claim(&mut self, target: &str) -> (won: bool)
        ensures
            won == claim_won(old(self)@, target@),
            final(self)@ == claimed(old(self)@, target@),
    {
        self.found.insert(target)
    }

    /// Settles the search of one target: a match is claimed for its target
    /// and, if the claim is won, the line for the results file is returned;
    /// in every case the target is counted as done.
    pub fn settle(&mut self, outcome: &Option<MatchRecord>) -> (line: Option<String>)
        ensures
            final(self)@ == settled(old(self)@, outcome_view(*outcome)),
            line is Some <==> settled_line(old(self)@, outcome_view(*outcome)) is Some,
            line matches Some(l) ==> settled_line(old(self)@, outcome_view(*outcome)) == Some(l@),
    {
        let line = match outcome {
            Some(record) => {
                if self.try_claim(record.target.as_str()) {
                    Some(record.to_line())
                } else {
                    None
                }
            },
            None => None,
        };
        self.mark_target_done();
        line
    }
}

} // verus!
