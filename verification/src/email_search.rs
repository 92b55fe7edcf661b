//! The state of the search tool between runs: the targets that are loaded,
//! what has been chosen, and whether a run is under way.

use vstd::prelude::*;
use crate::messages::{
    in_progress, in_progress_text, results_file_failed, results_file_failed_text,
    selection_missing, selection_missing_text,
};
use crate::row::texts;
use crate::targets::{load_targets, targets_of};

verus! {

/// What is chosen and loaded for a search, and whether one is running.
pub struct EmailSearchTab {
    pub emails: Vec<String>,
    pub folder_path: Option<String>,
    pub email_list_path: Option<String>,
    pub search_in_progress: bool,
    pub results_file_path: Option<String>,
}

/// What a request to search meets.
#[derive(Clone, Copy, PartialEq, Eq, Structural)]
pub enum Readiness {
    /// A run is under way; the request is ignored.
    Busy,
    /// The folder or the list is not chosen yet.
    Missing,
    /// A run can start once the results file is created.
    Ready,
}

/// The name of the results file, which lies in the folder that is searched.
pub open spec fn results_file_name() -> Seq<char> {
    "search_results.csv"@
}

impl EmailSearchTab {
    /// The state before anything is chosen.
    pub fn new() -> (tab: Self)
        ensures
            tab.emails@.len() == 0,
            tab.folder_path is None,
            tab.email_list_path is None,
            !tab.search_in_progress,
            tab.results_file_path is None,
    {
        EmailSearchTab {
            emails: Vec::new(),
            folder_path: None,
            email_list_path: None,
            search_in_progress: false,
            results_file_path: None,
        }
    }

    /// Loads the targets from the content of the chosen list file. Without
    /// a chosen list nothing is loaded.
    pub fn load_emails(&mut self, content: &[u8])
        ensures
            old(self).email_list_path is Some ==> texts(final(self).emails@) == targets_of(content@),
            old(self).email_list_path is None ==> final(self).emails == old(self).emails,
            final(self).folder_path == old(self).folder_path,
            final(self).email_list_path == old(self).email_list_path,
            final(self).search_in_progress == old(self).search_in_progress,
            final(self).results_file_path == old(self).results_file_path,
    {
        if self.email_list_path.is_some() {
            self.emails = load_targets(content);
        }
    }

    /// What a request to search meets in this state.
    pub fn readiness(&self) -> (r: Readiness)
        ensures
            r == if self.search_in_progress {
                Readiness::Busy
            } else if self.folder_path is Some && self.email_list_path is Some {
                Readiness::Ready
            } else {
                Readiness::Missing
            },
    {
        if self.search_in_progress {
            Readiness::Busy
        } else if self.folder_path.is_some() && self.email_list_path.is_some() {
            Readiness::Ready
        } else {
            Readiness::Missing
        }
    }

    /// The name of the results file.
    pub fn results_file_name() -> (name: String)
        ensures
            name@ == results_file_name(),
    {
        String::from_str("search_results.csv")
    }

    /// Takes note of the attempt to create the results file at
    /// `results_path`, and returns the status to show. With the file
    /// created the run is under way; with a failure it is not, since there
    /// is nowhere to put matches.
    pub fn begin(&mut self, results_path: String, failure: Option<String>) -> (status: String)
        ensures
            final(self).results_file_path == Some(results_path),
            final(self).search_in_progress == (old(self).search_in_progress || failure is None),
            status@ == match failure {
                None => in_progress_text(),
                Some(reason) => results_file_failed_text(reason@),
            },
            final(self).emails == old(self).emails,
            final(self).folder_path == old(self).folder_path,
            final(self).email_list_path == old(self).email_list_path,
    {
        self.results_file_path = Some(results_path);
        match failure {
            None => {
                self.search_in_progress = true;
                in_progress()
            },
            Some(reason) => results_file_failed(reason.as_str()),
        }
    }

    /// The status to show when a search is asked for before the folder
    /// and the list are chosen.
    pub fn missing_selection() -> (status: String)
        ensures
            status@ == selection_missing_text(),
    {
        selection_missing()
    }
}

} // verus!
