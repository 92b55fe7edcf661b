//! What holds of a search over any course of replies: it finds nothing
//! where no file names the target, what it finds is a row of a file it was
//! handed, and its first match is its only one.

use vstd::prelude::*;
use crate::lines::{line_text, lines};
use crate::row::row_names;
use crate::scan::{hit_index, line_names, naming};
use crate::search::{
    finished, match_in, names_in, step_spec, ActionView, ReplyView, SearchView, WaitingView,
};
use crate::decode::transcoded;
use crate::split::lemma_first_index;

verus! {

/// The search after the replies `replies`, taken in order.
pub open spec fn after_replies(s: SearchView, replies: Seq<ReplyView>) -> SearchView
    decreases replies.len(),
{
    if replies.len() == 0 {
        s
    } else {
        step_spec(after_replies(s, replies.drop_last()), replies.last()).search
    }
}

/// A search that has a match is over.
pub open spec fn settled(s: SearchView) -> bool {
    s.outcome is Some ==> s.waiting is Nothing
}

/// A step keeps the target, and keeps a search settled.
pub proof fn lemma_step_keeps(s: SearchView, reply: ReplyView)
    ensures
        step_spec(s, reply).search.target == s.target,
        settled(s) ==> settled(step_spec(s, reply).search),
        s.waiting is Nothing ==> step_spec(s, reply).search == s,
{
}

/// A step of a search without a match ends with one only when it is handed
/// the content of the awaited file and that content names the target; the
/// match is then the first such row of that file.
pub proof fn lemma_step_match(s: SearchView, reply: ReplyView)
    requires
        s.outcome is None,
    ensures
        step_spec(s, reply).search.outcome matches Some(r) ==> {
            &&& s.waiting matches WaitingView::Content(path)
            &&& reply matches ReplyView::Content(raw)
            &&& names_in(raw, s.target)
            &&& r == match_in(raw, path, s.target)
        },
{
}

/// The row that names the target is found: a search that awaits the
/// content of a file and is handed content with such a row ends with the
/// first of them as its match.
pub proof fn lemma_row_is_found(s: SearchView, path: Seq<char>, raw: Seq<u8>)
    requires
        s.waiting == WaitingView::Content(path),
        names_in(raw, s.target),
    ensures
        step_spec(s, ReplyView::Content(raw)).search == finished(
            s.target,
            Some(match_in(raw, path, s.target)),
        ),
        step_spec(s, ReplyView::Content(raw)).action == ActionView::Done(
            Some(match_in(raw, path, s.target)),
        ),
{
}

/// The match that a file gives is a row of that file: its number is the
/// number of a line of the transcoded content, its text is the text of
/// that line, that line names the target, and no line before it does.
pub proof fn lemma_match_is_a_row(raw: Seq<u8>, path: Seq<char>, target: Seq<char>)
    requires
        names_in(raw, target),
    ensures
        ({
            let ls = lines(transcoded(raw)->0);
            let r = match_in(raw, path, target);
            &&& r.target == target
            &&& r.path == path
            &&& 1 <= r.row <= ls.len()
            &&& line_text(ls[r.row - 1]) == Some(r.text)
            &&& row_names(r.text, target)
            &&& forall|j: int| 0 <= j < r.row - 1 ==> !line_names(ls[j], target)
        }),
{
    let ls = lines(transcoded(raw)->0);
    let flags = naming(ls, target);
    lemma_first_index(flags, true);
    let k = hit_index(ls, target);
    assert(flags[k] == line_names(ls[k], target));
    assert forall|j: int| 0 <= j < k implies !line_names(ls[j], target) by {
        assert(flags[j] == line_names(ls[j], target));
    }
}

/// The target and being settled carry over any course of replies.
pub proof fn lemma_run_keeps(s: SearchView, replies: Seq<ReplyView>)
    ensures
        after_replies(s, replies).target == s.target,
        settled(s) ==> settled(after_replies(s, replies)),
    decreases replies.len(),
{
    if replies.len() > 0 {
        lemma_run_keeps(s, replies.drop_last());
        lemma_step_keeps(after_replies(s, replies.drop_last()), replies.last());
    }
}

/// Where no content that is handed to a search names its target, the
/// search finds no match, whatever else the replies hold.
pub proof fn lemma_no_row_no_match(s: SearchView, replies: Seq<ReplyView>)
    requires
        s.outcome is None,
        forall|i: int|
            0 <= i < replies.len() ==> (#[trigger] replies[i] matches ReplyView::Content(raw)
                ==> !names_in(raw, s.target)),
    ensures
        after_replies(s, replies).outcome is None,
    decreases replies.len(),
{
    if replies.len() > 0 {
        let init = replies.drop_last();
        assert forall|i: int| 0 <= i < init.len() implies (#[trigger] init[i] matches ReplyView::Content(
            raw,
        ) ==> !names_in(raw, s.target)) by {
            assert(init[i] == replies[i]);
        }
        lemma_no_row_no_match(s, init);
        lemma_run_keeps(s, init);
        assert(replies.last() == replies[replies.len() - 1]);
        lemma_step_match(after_replies(s, init), replies.last());
    }
}

/// A match of a search comes from one of the replies: content that names
/// the target, of which the match is the first such row.
pub proof fn lemma_match_has_a_source(s: SearchView, replies: Seq<ReplyView>)
    requires
        s.outcome is None,
    ensures
        after_replies(s, replies).outcome matches Some(r) ==> exists|i: int|
            0 <= i < replies.len() && (#[trigger] replies[i] matches ReplyView::Content(raw)
                && names_in(raw, s.target) && r == match_in(raw, r.path, s.target)),
    decreases replies.len(),
{
    if replies.len() > 0 {
        let init = replies.drop_last();
        let before = after_replies(s, init);
        lemma_match_has_a_source(s, init);
        lemma_run_keeps(s, init);
        if after_replies(s, replies).outcome matches Some(r) {
            if before.outcome is Some {
                if before.waiting is Nothing {
                    let i = choose|i: int|
                        0 <= i < init.len() && (#[trigger] init[i] matches ReplyView::Content(raw)
                            && names_in(raw, s.target) && before.outcome->0 == match_in(
                            raw,
                            before.outcome->0.path,
                            s.target,
                        ));
                    assert(replies[i] == init[i]);
                } else {
                    lemma_settled_from_none(s, init);
                }
            } else {
                lemma_step_match(before, replies.last());
                assert(replies[replies.len() - 1] == replies.last());
            }
        }
    }
}

/// A search that starts without a match is settled after any replies.
pub proof fn lemma_settled_from_none(s: SearchView, replies: Seq<ReplyView>)
    requires
        s.outcome is None,
    ensures
        settled(after_replies(s, replies)),
{
    lemma_run_keeps(s, replies);
}

/// The first match is the only one: once a search has a match, no further
/// reply changes the search, and each further step reports that same match.
pub proof fn lemma_first_match_stays(s: SearchView, replies: Seq<ReplyView>, more: Seq<ReplyView>)
    requires
        settled(s),
    ensures
        after_replies(s, replies).outcome is Some ==> after_replies(s, replies + more)
            == after_replies(s, replies),
    decreases more.len(),
{
    lemma_run_keeps(s, replies);
    if more.len() == 0 {
        assert(replies + more =~= replies);
    } else {
        let all = replies + more;
        assert(all.drop_last() =~= replies + more.drop_last());
        assert(all.last() == more.last());
        lemma_first_match_stays(s, replies, more.drop_last());
        lemma_step_keeps(after_replies(s, replies), more.last());
    }
}

} // verus!
