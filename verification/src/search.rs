//! The search for one target, as a machine that is driven from outside: it
//! names the directory to list or the file to read next, is handed the
//! listing or the content, and decides what follows. It visits the tree
//! depth-first, holds each row of each file with the extension `csv`
//! against the target, and ends at the first row that names it.

use vstd::prelude::*;
use crate::coordinator::Coordinator;
use crate::decode::{transcode, transcoded};
use crate::lines::{line_text, lines};
use crate::messages::{
    searching_file, searching_file_text, searching_folder, searching_folder_text, starting,
    starting_text, undecodable_file, undecodable_file_text, undecodable_line,
    undecodable_line_text, unexpected_reply, unexpected_reply_text, unreadable, unreadable_text,
};
use crate::record::{MatchRecord, RecordView};
use crate::row::texts;
use crate::scan::{hit_index, scan_lines, undecodable_rows, Scan};
use crate::text::chars_of;
use crate::walker::{
    entry_views, next_visit, Entry, EntryKind, EntryView, Visit, VisitView, Walker,
};

verus! {

/// What the search asks of its driver.
pub enum Action {
    /// List this directory and answer with the listing.
    ReadDir(String),
    /// Read this file and answer with its content.
    ReadFile(String),
    /// The search is over, with this outcome.
    Done(Option<MatchRecord>),
}

/// What an action stands for.
pub enum ActionView {
    ReadDir(Seq<char>),
    ReadFile(Seq<char>),
    Done(Option<RecordView>),
}

impl View for Action {
    type V = ActionView;

    open spec fn view(&self) -> ActionView {
        match self {
            Action::ReadDir(p) => ActionView::ReadDir(p@),
            Action::ReadFile(p) => ActionView::ReadFile(p@),
            Action::Done(Some(r)) => ActionView::Done(Some(r@)),
            Action::Done(None) => ActionView::Done(None),
        }
    }
}

/// What the driver answers.
pub enum Reply {
    /// The entries of the directory that was to be listed.
    Listing(Vec<Entry>),
    /// The bytes of the file that was to be read.
    Content(Vec<u8>),
    /// The directory or file could not be read, for this reason.
    Failed(String),
}

/// What a reply stands for.
pub enum ReplyView {
    Listing(Seq<EntryView>),
    Content(Seq<u8>),
    Failed(Seq<char>),
}

impl View for Reply {
    type V = ReplyView;

    open spec fn view(&self) -> ReplyView {
        match self {
            Reply::Listing(l) => ReplyView::Listing(entry_views(l@)),
            Reply::Content(c) => ReplyView::Content(c@),
            Reply::Failed(r) => ReplyView::Failed(r@),
        }
    }
}

/// What a search waits for.
enum Waiting {
    Nothing,
    Listing(String),
    Content(String),
}

/// What a search waits for: nothing, once it is over; else the listing of
/// a directory or the content of a file.
pub enum WaitingView {
    Nothing,
    Listing(Seq<char>),
    Content(Seq<char>),
}

/// The search for one target.
pub struct Search {
    target: String,
    walker: Walker,
    waiting: Waiting,
    outcome: Option<MatchRecord>,
}

/// What a search stands for: its target, the entries still ahead, what it
/// waits for, and the match it has found.
pub struct SearchView {
    pub target: Seq<char>,
    pub todo: Seq<EntryView>,
    pub waiting: WaitingView,
    pub outcome: Option<RecordView>,
}

impl View for Search {
    type V = SearchView;

    closed spec fn view(&self) -> SearchView {
        SearchView {
            target: self.target@,
            todo: self.walker@,
            waiting: match self.waiting {
                Waiting::Nothing => WaitingView::Nothing,
                Waiting::Listing(p) => WaitingView::Listing(p@),
                Waiting::Content(p) => WaitingView::Content(p@),
            },
            outcome: match self.outcome {
                Some(r) => Some(r@),
                None => None,
            },
        }
    }
}

/// One step of a search: the search after it, what it asks next, and the
/// log lines of the step.
pub struct Step {
    pub search: Search,
    pub action: Action,
    pub notes: Vec<String>,
}

/// What a step stands for.
pub struct StepView {
    pub search: SearchView,
    pub action: ActionView,
    pub notes: Seq<Seq<char>>,
}

impl View for Step {
    type V = StepView;

    open spec fn view(&self) -> StepView {
        StepView { search: self.search@, action: self.action@, notes: texts(self.notes@) }
    }
}

/// A search that is over, with the given outcome.
pub open spec fn finished(target: Seq<char>, outcome: Option<RecordView>) -> SearchView {
    SearchView { target, todo: Seq::empty(), waiting: WaitingView::Nothing, outcome }
}

/// Going on with the entries `todo` ahead: the next directory is to be
/// listed or the next file with the right extension to be read, whichever
/// comes first; with neither left, the search is over without a match.
pub open spec fn proceed(target: Seq<char>, todo: Seq<EntryView>, notes: Seq<Seq<char>>) -> StepView {
    let (rest, visit) = next_visit(todo);
    match visit {
        VisitView::Directory(p) => StepView {
            search: SearchView { target, todo: rest, waiting: WaitingView::Listing(p), outcome: None },
            action: ActionView::ReadDir(p),
            notes: notes.push(searching_folder_text(p)),
        },
        VisitView::Candidate(p) => StepView {
            search: SearchView { target, todo: rest, waiting: WaitingView::Content(p), outcome: None },
            action: ActionView::ReadFile(p),
            notes: notes.push(searching_file_text(p)),
        },
        VisitView::Done => StepView {
            search: finished(target, None),
            action: ActionView::Done(None),
            notes,
        },
    }
}

/// The log lines for the rows of `path` that were passed over.
pub open spec fn undecodable_notes(path: Seq<char>, rows: Seq<usize>) -> Seq<Seq<char>> {
    rows.map_values(|row: usize| undecodable_line_text(path, row as nat))
}

/// Whether the content `raw` of a file holds a row that names `target`.
pub open spec fn names_in(raw: Seq<u8>, target: Seq<char>) -> bool {
    transcoded(raw) matches Some(content) && hit_index(lines(content), target) < lines(
        content,
    ).len()
}

/// The match that the content `raw` of the file `path` gives for `target`:
/// its first row that names the target.
pub open spec fn match_in(raw: Seq<u8>, path: Seq<char>, target: Seq<char>) -> RecordView
    recommends
        names_in(raw, target),
{
    let ls = lines(transcoded(raw)->0);
    let k = hit_index(ls, target);
    RecordView { target, path, row: (k + 1) as nat, text: line_text(ls[k])->0 }
}

/// The step that the content `raw` of the file `path` brings: the search
/// ends with the first row that names the target, or goes on if there is
/// none or the content cannot be transcoded.
pub open spec fn after_content(s: SearchView, path: Seq<char>, raw: Seq<u8>) -> StepView {
    match transcoded(raw) {
        None => proceed(s.target, s.todo, seq![undecodable_file_text(path)]),
        Some(content) => {
            let ls = lines(content);
            let k = hit_index(ls, s.target);
            let notes = undecodable_notes(path, undecodable_rows(ls.take(k)));
            if names_in(raw, s.target) {
                StepView {
                    search: finished(s.target, Some(match_in(raw, path, s.target))),
                    action: ActionView::Done(Some(match_in(raw, path, s.target))),
                    notes,
                }
            } else {
                proceed(s.target, s.todo, notes)
            }
        },
    }
}

/// The step that a reply brings. A search that is over stays as it is.
/// A listing puts its entries ahead of all others. A failure, or a reply
/// of the wrong kind, is noted, and the search goes on with what is ahead:
/// the directory or file in question is given up, nothing else.
pub open spec fn step_spec(s: SearchView, reply: ReplyView) -> StepView {
    match s.waiting {
        WaitingView::Nothing => StepView {
            search: s,
            action: ActionView::Done(s.outcome),
            notes: Seq::empty(),
        },
        WaitingView::Listing(path) => match reply {
            ReplyView::Listing(entries) => proceed(s.target, entries + s.todo, Seq::empty()),
            ReplyView::Failed(reason) => proceed(s.target, s.todo, seq![unreadable_text(path, reason)]),
            ReplyView::Content(_) => proceed(s.target, s.todo, seq![unexpected_reply_text(path)]),
        },
        WaitingView::Content(path) => match reply {
            ReplyView::Content(raw) => after_content(s, path, raw),
            ReplyView::Failed(reason) => proceed(s.target, s.todo, seq![unreadable_text(path, reason)]),
            ReplyView::Listing(_) => proceed(s.target, s.todo, seq![unexpected_reply_text(path)]),
        },
    }
}

/// The first step of the search for `target` under the directory `root`.
/// A target that is already found is not searched for.
pub open spec fn start_spec(target: Seq<char>, root: Seq<char>, found: bool) -> StepView {
    if found {
        StepView {
            search: finished(target, None),
            action: ActionView::Done(None),
            notes: seq![starting_text()],
        }
    } else {
        proceed(
            target,
            seq![EntryView { path: root, kind: EntryKind::Directory, extension: None }],
            seq![starting_text()],
        )
    }
}

/// Goes on with what is ahead of `walker`.
fn go_on(target: String, walker: Walker, notes: Vec<String>) -> (step: Step)
    ensures
        step@ == proceed(target@, walker@, texts(notes@)),
{
    let mut notes = notes;
    let ghost before = texts(notes@);
    let (walker, visit) = walker.next();
    match visit {
        Visit::Directory(path) => {
            let note = searching_folder(path.as_str());
            notes.push(note);
            proof {
                assert(texts(notes@) =~= before.push(searching_folder_text(path@)));
            }
            Step {
                search: Search { target, walker, waiting: Waiting::Listing(path.clone()), outcome: None },
                action: Action::ReadDir(path),
                notes,
            }
        },
        Visit::Candidate(path) => {
            let note = searching_file(path.as_str());
            notes.push(note);
            proof {
                assert(texts(notes@) =~= before.push(searching_file_text(path@)));
            }
            Step {
                search: Search { target, walker, waiting: Waiting::Content(path.clone()), outcome: None },
                action: Action::ReadFile(path),
                notes,
            }
        },
        Visit::Done => {
            proof {
                crate::walker::lemma_next_visit_shrinks(walker@);
            }
            Step {
                search: Search { target, walker: Walker::empty(), waiting: Waiting::Nothing, outcome: None },
                action: Action::Done(None),
                notes,
            }
        },
    }
}

/// A list that holds one note.
fn one_note(note: String) -> (notes: Vec<String>)
    ensures
        texts(notes@) == seq![note@],
{
    let mut notes: Vec<String> = Vec::new();
    notes.push(note);
    proof {
        assert(texts(notes@) =~= seq![note@]);
    }
    notes
}

/// The log lines for the rows of `path` that were passed over.
fn notes_of(path: &str, rows: &Vec<usize>) -> (notes: Vec<String>)
    ensures
        texts(notes@) == undecodable_notes(path@, rows@),
{
    let mut notes: Vec<String> = Vec::new();
    let mut i: usize = 0;
    while i < rows.len()
        invariant
            i <= rows.len(),
            texts(notes@) == undecodable_notes(path@, rows@).take(i as int),
        decreases rows.len() - i,
    {
        let note = undecodable_line(path, rows[i]);
        proof {
            assert(texts(notes@.push(note)) =~= texts(notes@).push(note@));
            assert(undecodable_notes(path@, rows@).take(i as int + 1) =~= undecodable_notes(
                path@,
                rows@,
            ).take(i as int).push(note@));
        }
        notes.push(note);
        i += 1;
    }
    proof {
        assert(undecodable_notes(path@, rows@).take(i as int) =~= undecodable_notes(path@, rows@));
    }
    notes
}

impl Search {
    /// Begins the search for `target` under the directory `root`. A target
    /// that `coordinator` already holds as found is not searched for: the
    /// search is over at once, without a match.
    pub fn start(target: &str, root: &str, coordinator: &Coordinator) -> (step: Step)
        ensures
            step@ == start_spec(target@, root@, coordinator@.found.contains(target@)),
    {
        let notes = one_note(starting());
        if coordinator.is_found(target) {
            Step {
                search: Search {
                    target: target.to_owned(),
                    walker: Walker::empty(),
                    waiting: Waiting::Nothing,
                    outcome: None,
                },
                action: Action::Done(None),
                notes,
            }
        } else {
            go_on(target.to_owned(), Walker::new(root), notes)
        }
    }

    /// The target of this search.
    pub fn target(&self) -> (t: &str)
        ensures
            t@ == self@.target,
    {
        self.target.as_str()
    }

    /// Whether this search is over.
    pub fn is_over(&self) -> (b: bool)
        ensures
            b == (self@.waiting is Nothing),
    {
        match self.waiting {
            Waiting::Nothing => true,
            _ => false,
        }
    }

    /// Takes the reply to what the search asked last, and says what it asks
    /// next.
    pub fn step(self, reply: Reply) -> (step: Step)
        ensures
            step@ == step_spec(self@, reply@),
    {
        let Search { target, walker, waiting, outcome } = self;
        match waiting {
            Waiting::Nothing => {
                let action = match &outcome {
                    Some(r) => Action::Done(Some(r.duplicate())),
                    None => Action::Done(None),
                };
                let step = Step {
                    search: Search { target, walker, waiting: Waiting::Nothing, outcome },
                    action,
                    notes: Vec::new(),
                };
                proof {
                    assert(step@.notes =~= Seq::<Seq<char>>::empty());
                }
                step
            },
            Waiting::Listing(path) => match reply {
                Reply::Listing(entries) => {
                    let notes: Vec<String> = Vec::new();
                    proof {
                        assert(texts(notes@) =~= Seq::<Seq<char>>::empty());
                    }
                    go_on(target, walker.descend(entries), notes)
                },
                Reply::Failed(reason) => go_on(
                    target,
                    walker,
                    one_note(unreadable(path.as_str(), reason.as_str())),
                ),
                Reply::Content(_) => go_on(target, walker, one_note(unexpected_reply(path.as_str()))),
            },
            Waiting::Content(path) => match reply {
                Reply::Content(raw) => match transcode(raw.as_slice()) {
                    None => go_on(target, walker, one_note(undecodable_file(path.as_str()))),
                    Some(content) => {
                        let scan = scan_lines(content.as_slice(), &chars_of(target.as_str()));
                        let Scan { hit, undecodable } = scan;
                        let notes = notes_of(path.as_str(), &undecodable);
                        match hit {
                            Some(h) => {
                                let record = MatchRecord {
                                    target: target.clone(),
                                    path,
                                    row: h.row,
                                    text: h.text,
                                };
                                Step {
                                    search: Search {
                                        target,
                                        walker: Walker::empty(),
                                        waiting: Waiting::Nothing,
                                        outcome: Some(record.duplicate()),
                                    },
                                    action: Action::Done(Some(record)),
                                    notes,
                                }
                            },
                            None => go_on(target, walker, notes),
                        }
                    },
                },
                Reply::Failed(reason) => go_on(
                    target,
                    walker,
                    one_note(unreadable(path.as_str(), reason.as_str())),
                ),
                Reply::Listing(_) => go_on(target, walker, one_note(unexpected_reply(path.as_str()))),
            },
        }
    }
}

} // verus!
