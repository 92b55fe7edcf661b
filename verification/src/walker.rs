//! The directory walker: which entries of a directory tree are still to be
//! visited, and in which order. Entries of a directory are visited in the
//! order of its listing, and the content of a directory before the entries
//! that follow it, so the walk is depth-first. The walker reads nothing
//! itself: it names the directory to list next and takes the listing in.

use vstd::prelude::*;

verus! {

/// What kind of thing a directory entry is.
#[derive(Clone, Copy, PartialEq, Eq, Structural)]
pub enum EntryKind {
    Directory,
    File,
    Other,
}

/// An entry of a directory: its path, its kind, and the extension of its
/// name, if it has one.
pub struct Entry {
    pub path: String,
    pub kind: EntryKind,
    pub extension: Option<String>,
}

/// What an entry stands for.
pub struct EntryView {
    pub path: Seq<char>,
    pub kind: EntryKind,
    pub extension: Option<Seq<char>>,
}

impl View for Entry {
    type V = EntryView;

    open spec fn view(&self) -> EntryView {
        EntryView {
            path: self.path@,
            kind: self.kind,
            extension: match self.extension {
                Some(e) => Some(e@),
                None => None,
            },
        }
    }
}

/// The views of a sequence of entries.
pub open spec fn entry_views(entries: Seq<Entry>) -> Seq<EntryView> {
    entries.map_values(|e: Entry| e@)
}

/// The extension of the files that are searched.
pub open spec fn candidate_extension() -> Seq<char> {
    seq!['c', 's', 'v']
}

/// Whether an entry is a file to search: a file with the extension `csv`,
/// in exactly this spelling.
pub open spec fn is_candidate(e: EntryView) -> bool {
    e.kind == EntryKind::File && e.extension == Some(candidate_extension())
}

/// Where a walk goes next.
pub enum Visit {
    /// A directory, which is to be listed.
    Directory(String),
    /// A file to search.
    Candidate(String),
    /// Nothing is left.
    Done,
}

/// What a visit stands for.
pub enum VisitView {
    Directory(Seq<char>),
    Candidate(Seq<char>),
    Done,
}

impl View for Visit {
    type V = VisitView;

    open spec fn view(&self) -> VisitView {
        match self {
            Visit::Directory(p) => VisitView::Directory(p@),
            Visit::Candidate(p) => VisitView::Candidate(p@),
            Visit::Done => VisitView::Done,
        }
    }
}

/// The next visit of a walk with the entries `todo` ahead, and the entries
/// that are ahead after it. Entries that are neither directories nor files
/// to search are passed over.
pub open spec fn next_visit(todo: Seq<EntryView>) -> (Seq<EntryView>, VisitView)
    decreases todo.len(),
{
    if todo.len() == 0 {
        (todo, VisitView::Done)
    } else if todo[0].kind == EntryKind::Directory {
        (todo.drop_first(), VisitView::Directory(todo[0].path))
    } else if is_candidate(todo[0]) {
        (todo.drop_first(), VisitView::Candidate(todo[0].path))
    } else {
        next_visit(todo.drop_first())
    }
}

/// A visit never adds entries to a walk, and one that is not the end
/// removes at least one.
pub proof fn lemma_next_visit_shrinks(todo: Seq<EntryView>)
    ensures
        next_visit(todo).0.len() <= todo.len(),
        !(next_visit(todo).1 is Done) ==> next_visit(todo).0.len() < todo.len(),
        next_visit(todo).1 is Done ==> next_visit(todo).0.len() == 0,
    decreases todo.len(),
{
    if todo.len() > 0 && todo[0].kind != EntryKind::Directory && !is_candidate(todo[0]) {
        lemma_next_visit_shrinks(todo.drop_first());
    }
}

/// Whether a walk stops at an entry: at a directory, to list it, and at a
/// file to search.
pub open spec fn is_stop(e: EntryView) -> bool {
    e.kind == EntryKind::Directory || is_candidate(e)
}

/// The number of entries at the head of `todo` at which a walk does not
/// stop.
pub open spec fn passed_over(todo: Seq<EntryView>) -> int
    decreases todo.len(),
{
    if todo.len() == 0 || is_stop(todo[0]) {
        0
    } else {
        1 + passed_over(todo.drop_first())
    }
}

/// A walk passes over nothing that it should stop at: the next visit is
/// the first directory or file to search among the entries ahead, all
/// entries after it stay ahead in their order, and the walk is done only
/// when no such entry is left.
pub proof fn lemma_next_visit_is_first_stop(todo: Seq<EntryView>)
    ensures
        ({
            let k = passed_over(todo);
            let (rest, visit) = next_visit(todo);
            &&& 0 <= k <= todo.len()
            &&& forall|j: int| 0 <= j < k ==> !is_stop(todo[j])
            &&& k == todo.len() ==> visit is Done && rest.len() == 0
            &&& k < todo.len() ==> {
                &&& rest == todo.skip(k + 1)
                &&& todo[k].kind == EntryKind::Directory ==> visit == VisitView::Directory(
                    todo[k].path,
                )
                &&& todo[k].kind != EntryKind::Directory ==> is_candidate(todo[k]) && visit
                    == VisitView::Candidate(todo[k].path)
            }
        }),
    decreases todo.len(),
{
    if todo.len() == 0 {
    } else if is_stop(todo[0]) {
        assert(todo.drop_first() =~= todo.skip(1));
    } else {
        let tail = todo.drop_first();
        lemma_next_visit_is_first_stop(tail);
        let k = passed_over(tail);
        assert forall|j: int| 0 <= j < k + 1 implies !is_stop(todo[j]) by {
            if j > 0 {
                assert(todo[j] == tail[j - 1]);
            }
        }
        if k < tail.len() {
            assert(tail.skip(k + 1) =~= todo.skip(k + 2));
            assert(tail[k] == todo[k + 1]);
        }
    }
}

/// The entries of a walk that are still to be visited.
pub struct Walker {
    stack: Vec<Entry>,
}

impl View for Walker {
    type V = Seq<EntryView>;

    /// The entries ahead, the next one first.
    closed spec fn view(&self) -> Seq<EntryView> {
        entry_views(self.stack@.reverse())
    }
}

impl Entry {
    /// Whether this entry is a file to search.
    pub fn is_candidate(&self) -> (b: bool)
        ensures
            b == is_candidate(self@),
    {
        match self.kind {
            EntryKind::File => match &self.extension {
                Some(ext) => {
                    let e = crate::text::chars_of(ext.as_str());
                    let b = e.len() == 3 && e[0] == 'c' && e[1] == 's' && e[2] == 'v';
                    proof {
                        if b {
                            assert(e@ =~= candidate_extension());
                        }
                    }
                    b
                },
                None => false,
            },
            _ => false,
        }
    }
}

impl Walker {
    /// A walk that has the directory `root` ahead and nothing else.
    pub fn new(root: &str) -> (w: Self)
        ensures
            w@ == seq![EntryView { path: root@, kind: EntryKind::Directory, extension: None }],
    {
        let mut stack: Vec<Entry> = Vec::new();
        stack.push(Entry { path: root.to_owned(), kind: EntryKind::Directory, extension: None });
        let w = Walker { stack };
        proof {
            assert(w@ =~= seq![
                EntryView { path: root@, kind: EntryKind::Directory, extension: None },
            ]);
        }
        w
    }

    /// A walk with nothing ahead.
    pub fn empty() -> (w: Self)
        ensures
            w@ == Seq::<EntryView>::empty(),
    {
        let w = Walker { stack: Vec::new() };
        proof {
            assert(w@ =~= Seq::<EntryView>::empty());
        }
        w
    }

    /// The number of entries ahead.
    pub fn remaining(&self) -> (n: usize)
        ensures
            n == self@.len(),
    {
        self.stack.len()
    }

    /// Takes the next visit off the walk.
    pub fn next(self) -> (out: (Walker, Visit))
        ensures
            (out.0@, out.1@) == next_visit(self@),
    {
        let ghost todo = self@;
        let mut stack = self.stack;
        loop
            invariant
                todo == self@,
                next_visit(entry_views(stack@.reverse())) == next_visit(todo),
            decreases stack.len(),
        {
            let ghost before = stack@;
            match stack.pop() {
                None => {
                    let w = Walker { stack };
                    proof {
                        assert(w@.len() == 0);
                    }
                    return (w, Visit::Done);
                },
                Some(entry) => {
                    proof {
                        let ahead = entry_views(before.reverse());
                        assert(ahead[0] == entry@);
                        assert(ahead.drop_first() =~= entry_views(stack@.reverse()));
                    }
                    match entry.kind {
                        EntryKind::Directory => {
                            return (Walker { stack }, Visit::Directory(entry.path));
                        },
                        _ => {
                            if entry.is_candidate() {
                                return (Walker { stack }, Visit::Candidate(entry.path));
                            }
                        },
                    }
                },
            }
        }
    }

    /// Puts the entries of a directory ahead of everything else, in the
    /// order of the listing.
    pub fn descend(self, listing: Vec<Entry>) -> (w: Walker)
        ensures
            w@ == entry_views(listing@) + self@,
    {
        let ghost todo = self@;
        let ghost all = entry_views(listing@);
        let mut stack = self.stack;
        let mut rest = listing;
        loop
            invariant
                todo == self@,
                all == entry_views(listing@),
                entry_views(rest@) + entry_views(stack@.reverse()) == all + todo,
            decreases rest.len(),
        {
            let ghost before = rest@;
            let ghost under = stack@;
            match rest.pop() {
                None => {
                    let w = Walker { stack };
                    proof {
                        assert(entry_views(rest@) + w@ =~= w@);
                    }
                    return w;
                },
                Some(entry) => {
                    stack.push(entry);
                    proof {
                        assert(entry_views(before) =~= entry_views(rest@).push(entry@));
                        assert(entry_views(stack@.reverse()) =~= seq![entry@] + entry_views(
                            under.reverse(),
                        ));
                        assert(entry_views(rest@) + entry_views(stack@.reverse())
                            =~= entry_views(before) + entry_views(under.reverse()));
                    }
                },
            }
        }
    }
}

} // verus!
