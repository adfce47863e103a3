//! The state of an interactive lookup: the query being searched, the results
//! it gave, which one is selected, and the messages shown beside them.
//!
//! The front end performs the searches and copies text to the clipboard; the
//! decisions around them (when a search may start, what its outcome shows,
//! what the preview holds, which actions are available) are made here.
use vstd::prelude::*;
use vstd::string::StringExecFns;
use crate::bibtex::{bibtex_of, format_bibtex};
use crate::metadata::{RecordView, WorkRecord, external_url_of, opt_text};
use crate::words::{trim, trim_str};

verus! {

/// Results, selection, progress and messages of one lookup window.
pub struct SearchSession {
    pub results: Vec<WorkRecord>,
    pub selected: Option<usize>,
    pub loading: bool,
    pub error: Option<String>,
    pub status: Option<String>,
}

/// The model of a `SearchSession`.
pub struct SessionView {
    pub results: Seq<RecordView>,
    pub selected: Option<usize>,
    pub loading: bool,
    pub error: Option<Seq<char>>,
    pub status: Option<Seq<char>>,
}

pub open spec fn records_view(rs: Seq<WorkRecord>) -> Seq<RecordView> {
    rs.map_values(|r: WorkRecord| r@)
}

impl View for SearchSession {
    type V = SessionView;

    open spec fn view(&self) -> SessionView {
        SessionView {
            results: records_view(self.results@),
            selected: self.selected,
            loading: self.loading,
            error: opt_text(self.error),
            status: opt_text(self.status),
        }
    }
}

/// What a finished search handed back: the records it found, or the text of
/// its failure.
pub open spec fn outcome_view(o: Result<Vec<WorkRecord>, String>) -> Result<Seq<RecordView>, Seq<char>> {
    match o {
        Ok(rs) => Ok(records_view(rs@)),
        Err(e) => Err(e@),
    }
}

pub open spec fn empty_query_message() -> Seq<char> {
    "Enter a DOI, title, author, or arXiv ID."@
}

pub open spec fn no_match_message() -> Seq<char> {
    "No matching literature found."@
}

pub open spec fn copied_message() -> Seq<char> {
    "Copied BibTeX to clipboard."@
}

pub open spec fn preview_placeholder() -> Seq<char> {
    "Select a search result to preview BibTeX."@
}

/// The session before any search.
pub open spec fn fresh_session() -> SessionView {
    SessionView {
        results: Seq::empty(),
        selected: None,
        loading: false,
        error: None,
        status: None,
    }
}

/// The selection points at one of the results, or there is none.
pub open spec fn session_wf(s: SessionView) -> bool {
    match s.selected {
        Some(i) => i < s.results.len(),
        None => true,
    }
}

/// Whether a query may be searched: it holds more than white space.
pub open spec fn query_accepted(q: Seq<char>) -> bool {
    trim(q).len() > 0
}

/// A search asked for: a blank query only sets the message; any other clears
/// results, selection and messages and marks the session busy.
pub open spec fn began(s: SessionView, q: Seq<char>) -> SessionView {
    if query_accepted(q) {
        SessionView {
            results: Seq::empty(),
            selected: None,
            loading: true,
            error: None,
            status: None,
        }
    } else {
        SessionView { error: Some(empty_query_message()), ..s }
    }
}

/// A search finished: records found replace the results and select the
/// first; none found, or a failure, leaves a message.
pub open spec fn finished(s: SessionView, o: Result<Seq<RecordView>, Seq<char>>) -> SessionView {
    match o {
        Ok(rs) => if rs.len() == 0 {
            SessionView { loading: false, error: Some(no_match_message()), ..s }
        } else {
            SessionView { loading: false, selected: Some(0), results: rs, ..s }
        },
        Err(e) => SessionView { loading: false, error: Some(e), ..s },
    }
}

/// A result picked: it becomes the selection and the status is cleared.
pub open spec fn selected_at(s: SessionView, i: usize) -> SessionView {
    SessionView { selected: Some(i), status: None, ..s }
}

/// The messages cleared.
pub open spec fn cleared(s: SessionView) -> SessionView {
    SessionView { error: None, status: None, ..s }
}

/// The record the selection points at, if it points at one.
pub open spec fn selected_record(s: SessionView) -> Option<RecordView> {
    match s.selected {
        Some(i) => if i < s.results.len() {
            Some(s.results[i as int])
        } else {
            None
        },
        None => None,
    }
}

/// The BibTeX entry of the selected record.
pub open spec fn selected_bibtex_of(s: SessionView) -> Option<Seq<char>> {
    match selected_record(s) {
        Some(r) => Some(bibtex_of(r)),
        None => None,
    }
}

/// The page the selected record links to.
pub open spec fn open_target_of(s: SessionView) -> Option<Seq<char>> {
    match selected_record(s) {
        Some(r) => external_url_of(r),
        None => None,
    }
}

/// The text of the preview pane.
pub open spec fn preview_of(s: SessionView) -> Seq<char> {
    match selected_bibtex_of(s) {
        Some(b) => b,
        None => preview_placeholder(),
    }
}

/// After a copy: the status tells that the entry was copied, when there was
/// one to copy.
pub open spec fn copied(s: SessionView) -> SessionView {
    if selected_bibtex_of(s) is Some {
        SessionView { status: Some(copied_message()), ..s }
    } else {
        s
    }
}

/// Every action keeps the selection on one of the results; a pick does so
/// when the picked index is one of them.
pub proof fn law_selection_stays_valid(
    s: SessionView,
    q: Seq<char>,
    o: Result<Seq<RecordView>, Seq<char>>,
    i: usize,
)
    requires
        session_wf(s),
    ensures
        session_wf(began(s, q)),
        session_wf(finished(s, o)),
        session_wf(cleared(s)),
        session_wf(copied(s)),
        i < s.results.len() ==> session_wf(selected_at(s, i)),
{
}

/// While the selection is on a result, the copy action is available exactly
/// when there is an entry to copy.
pub proof fn law_copy_available(s: SessionView)
    requires
        session_wf(s),
    ensures
        (s.selected is Some) <==> (selected_bibtex_of(s) is Some),
{
}

/// What a copy puts on the clipboard is what the preview shows.
pub proof fn law_copy_is_preview(s: SessionView)
    ensures
        selected_bibtex_of(s) is Some ==> selected_bibtex_of(s) == Some(preview_of(s)),
{
}

/// A search that finds records ends with no message, selects the first
/// record and previews its entry.
pub proof fn law_found_previews_first(s: SessionView, q: Seq<char>, rs: Seq<RecordView>)
    requires
        query_accepted(q),
        rs.len() > 0,
    ensures
        ({
            let t = finished(began(s, q), Ok(rs));
            &&& !t.loading
            &&& t.error is None
            &&& t.selected == Some(0usize)
            &&& preview_of(t) == bibtex_of(rs[0])
        }),
{
}

/// A search that finds nothing says so and leaves nothing selected.
pub proof fn law_nothing_found(s: SessionView, q: Seq<char>)
    requires
        query_accepted(q),
    ensures
        ({
            let t = finished(began(s, q), Ok(Seq::<RecordView>::empty()));
            &&& !t.loading
            &&& t.error == Some(no_match_message())
            &&& t.results.len() == 0
            &&& preview_of(t) == preview_placeholder()
        }),
{
}

/// A blank query starts nothing and changes nothing but the message.
pub proof fn law_blank_query_refused(s: SessionView, q: Seq<char>)
    requires
        !query_accepted(q),
    ensures
        began(s, q) == (SessionView { error: Some(empty_query_message()), ..s }),
        preview_of(began(s, q)) == preview_of(s),
{
}

impl SearchSession {
    pub fn new() -> (r: SearchSession)
        ensures
            r@ == fresh_session(),
    {
        let r = SearchSession { results: Vec::new(), selected: None, loading: false, error: None, status: None };
        proof {
            assert(records_view(r.results@) =~= Seq::<RecordView>::empty());
        }
        r
    }

    /// Starts a search for `query`; returns whether the search is to be run.
    pub fn begin_search(&mut self, query: &str) -> (start: bool)
        ensures
            start == query_accepted(query@),
            final(self)@ == began(old(self)@, query@),
    {
        let trimmed = trim_str(query);
        if trimmed.len() == 0 {
            self.error = Some(String::from_str("Enter a DOI, title, author, or arXiv ID."));
            return false;
        }
        self.loading = true;
        self.error = None;
        self.status = None;
        self.results = Vec::new();
        self.selected = None;
        proof {
            assert(records_view(self.results@) =~= Seq::<RecordView>::empty());
        }
        true
    }

    /// Takes in what the search handed back.
    pub fn finish_search(&mut self, outcome: Result<Vec<WorkRecord>, String>)
        ensures
            final(self)@ == finished(old(self)@, outcome_view(outcome)),
    {
        self.loading = false;
        match outcome {
            Ok(records) => {
                if records.len() == 0 {
                    self.error = Some(String::from_str("No matching literature found."));
                } else {
                    self.selected = Some(0);
                    self.results = records;
                }
            },
            Err(message) => {
                self.error = Some(message);
            },
        }
    }

    pub fn select(&mut self, index: usize)
        ensures
            final(self)@ == selected_at(old(self)@, index),
    {
        self.selected = Some(index);
        self.status = None;
    }

    pub fn clear(&mut self)
        ensures
            final(self)@ == cleared(old(self)@),
    {
        self.error = None;
        self.status = None;
    }

    pub fn selected_bibtex(&self) -> (r: Option<String>)
        ensures
            opt_text(r) == selected_bibtex_of(self@),
    {
        match self.selected {
            Some(index) => {
                if index < self.results.len() {
                    Some(format_bibtex(&self.results[index]))
                } else {
                    None
                }
            },
            None => None,
        }
    }

    /// The page to open for the selected record.
    pub fn open_target(&self) -> (r: Option<String>)
        ensures
            opt_text(r) == open_target_of(self@),
    {
        match self.selected {
            Some(index) => {
                if index < self.results.len() {
                    self.results[index].external_url()
                } else {
                    None
                }
            },
            None => None,
        }
    }

    /// The entry to put on the clipboard, noting in the status that it was
    /// copied.
    pub fn copy_selected(&mut self) -> (r: Option<String>)
        ensures
            opt_text(r) == selected_bibtex_of(old(self)@),
            final(self)@ == copied(old(self)@),
    {
        let bibtex = self.selected_bibtex();
        if bibtex.is_some() {
            self.status = Some(String::from_str("Copied BibTeX to clipboard."));
        }
        bibtex
    }

    pub fn preview(&self) -> (r: String)
        ensures
            r@ == preview_of(self@),
    {
        match self.selected_bibtex() {
            Some(bibtex) => bibtex,
            None => String::from_str("Select a search result to preview BibTeX."),
        }
    }

    /// Whether the open action is available.
    pub fn can_open(&self) -> (r: bool)
        ensures
            r == open_target_of(self@) is Some,
    {
        self.open_target().is_some()
    }

    /// Whether the copy action is available.
    pub fn can_copy(&self) -> (r: bool)
        ensures
            r == self@.selected is Some,
    {
        self.selected.is_some()
    }

    /// The label of the search action.
    pub fn search_label(&self) -> (r: String)
        ensures
            r@ == (if self@.loading { "Searching"@ } else { "Search"@ }),
    {
        if self.loading {
            String::from_str("Searching")
        } else {
            String::from_str("Search")
        }
    }
}

} // verus!
