//! What the server remembers, as mathematical values, and how each message changes it.
use crate::diagnostic::DiagnosticView;
use crate::document::DocumentView;
use crate::workspace::{
    discovered, discovery_due, fallback_rulesets, preferred, ConfigFileView,
};
use vstd::arithmetic::div_mod::{
    lemma_add_mod_noop, lemma_mod_add_multiples_vanish, lemma_mod_bound, lemma_mod_twice,
    lemma_small_mod, lemma_sub_mod_noop,
};
use vstd::prelude::*;

verus! {

/// A path in the file system, which the server carries and does not look into.
#[verifier::external_type_specification]
#[verifier::external_body]
pub struct ExPathBuf(std::path::PathBuf);

/// The results of an analysis.
#[verifier::ext_equal]
pub struct ResultsView {
    pub diagnostics: Seq<DiagnosticView>,
    /// The checksum of the text that was analyzed, by which the editor knows the results.
    pub result_id: Seq<char>,
    /// The checksum of the text that was analyzed, to detect changes; "unknown" where the
    /// document was closed before the analysis ended.
    pub content_checksum: Seq<char>,
}

/// What the server remembers.
#[verifier::ext_equal]
pub struct ServerView {
    /// The documents, by their addresses.
    pub documents: Map<Seq<char>, DocumentView>,
    /// The results of analyses, by the addresses of the documents.
    pub results: Map<Seq<char>, ResultsView>,
    /// The tracked size of the compressed documents.
    pub memory: int,
    pub rulesets: Option<Seq<char>>,
    pub phpmd_path: Option<Seq<char>>,
    pub workspace_root: Option<std::path::PathBuf>,
    /// Changes with every change of the configuration or the workspace, to tell the analyses
    /// that began before it from those that began after it.
    pub generation: u64,
}

/// An answer to a request for diagnostics.
pub enum ReportView {
    /// The editor has the current diagnostics; they carry this identifier.
    Unchanged(Seq<char>),
    /// All diagnostics, with their identifier.
    Full(Option<Seq<char>>, Seq<DiagnosticView>),
}

/// What comes next in answering a request for diagnostics.
pub enum StepView {
    /// The answer is known.
    Reply(ReportView),
    /// The text is to be analyzed; the results carry the identifier, and belong to the
    /// generation.
    Analyze(Seq<char>, Seq<char>, u64),
    /// The document is not held and has to be read from the file with this path.
    ReadFile(Seq<char>),
}

/// A number as a counter of the size `usize` holds it, which starts again at 0.
pub open spec fn wrapped(n: int) -> int {
    n % (usize::MAX + 1)
}

/// The answer where no diagnostics can be given.
pub open spec fn empty_report() -> ReportView {
    ReportView::Full(None, Seq::empty())
}

impl ServerView {
    /// What the server remembers at the start.
    pub open spec fn initial() -> ServerView {
        ServerView {
            documents: Map::empty(),
            results: Map::empty(),
            memory: 0,
            rulesets: None,
            phpmd_path: None,
            workspace_root: None,
            generation: 0,
        }
    }

    /// Whether this can be what a server remembers: there are finitely many documents, each
    /// of them can be read back, and the counter is in its range.
    pub open spec fn valid(self) -> bool {
        &&& self.documents.dom().finite()
        &&& forall|uri: Seq<char>| #[trigger]
            self.documents.contains_key(uri) ==> self.documents[uri].intact()
        &&& 0 <= self.memory <= usize::MAX
    }

    /// The text of a document that is held.
    pub open spec fn text(self, uri: Seq<char>) -> Option<Seq<char>> {
        if self.documents.contains_key(uri) {
            Some(self.documents[uri].read()->Ok_0)
        } else {
            None
        }
    }

    /// How much of the counter a document takes: nothing where it is not held.
    pub open spec fn held_size(self, uri: Seq<char>) -> int {
        if self.documents.contains_key(uri) {
            self.documents[uri].data.len() as int
        } else {
            0
        }
    }

    /// A document is put in, and counted.
    pub open spec fn loaded(self, uri: Seq<char>, document: DocumentView) -> ServerView {
        ServerView {
            documents: self.documents.insert(uri, document),
            memory: wrapped(self.memory + document.data.len()),
            ..self
        }
    }

    /// A document was opened: it is put in, and counted, and results for it are dropped.
    pub open spec fn opened(self, uri: Seq<char>, document: DocumentView) -> ServerView {
        ServerView { results: self.results.remove(uri), ..self.loaded(uri, document) }
    }

    /// A document was changed: it takes the place of the one that is held, if any, and
    /// results for it are dropped.
    pub open spec fn changed(self, uri: Seq<char>, document: DocumentView) -> ServerView {
        ServerView { memory: wrapped(self.memory - self.held_size(uri)), ..self }.opened(
            uri,
            document,
        )
    }

    /// A document was closed: it is forgotten, with the results for it.
    pub open spec fn closed(self, uri: Seq<char>) -> ServerView {
        ServerView {
            documents: self.documents.remove(uri),
            results: self.results.remove(uri),
            memory: wrapped(self.memory - self.held_size(uri)),
            ..self
        }
    }

    /// The server was shut down: no document and no results are left.
    pub open spec fn stopped(self) -> ServerView {
        ServerView { documents: Map::empty(), results: Map::empty(), memory: 0, ..self }
    }

    /// The workspace changed: the executable has to be found again, no results are left, and
    /// a new generation begins.
    pub open spec fn moved(self) -> ServerView {
        ServerView {
            results: Map::empty(),
            phpmd_path: None,
            generation: self.generation.wrapping_add(1),
            ..self
        }
    }

    /// The configuration changed: as `moved`, and the rule sets are those that are configured
    /// directly, else those of the section for PHPMD, else as before.
    pub open spec fn reconfigured(
        self,
        section: Option<Seq<char>>,
        direct: Option<Seq<char>>,
    ) -> ServerView {
        ServerView {
            rulesets: match (direct, section) {
                (Some(names), _) => Some(names),
                (None, Some(names)) => Some(names),
                (None, None) => self.rulesets,
            },
            ..self.moved()
        }
    }

    /// The rule sets are those that the configuration files give.
    pub open spec fn with_discovered(self, files: Seq<ConfigFileView>) -> ServerView {
        ServerView { rulesets: Some(discovered(files)), ..self }
    }

    /// The server was started in a workspace with the root `root`: the rule sets are those
    /// that the editor names, else those that the configuration files in the root give, else
    /// all of PHPMD's.
    pub open spec fn initialized(
        self,
        root: Option<std::path::PathBuf>,
        rulesets: Option<Seq<char>>,
        files: Seq<ConfigFileView>,
    ) -> ServerView {
        ServerView {
            workspace_root: root,
            rulesets: Some(
                match rulesets {
                    Some(names) => names,
                    None => if root is Some {
                        discovered(files)
                    } else {
                        fallback_rulesets()
                    },
                },
            ),
            ..self
        }
    }

    /// An analysis begins: configuration files are looked at where that is due.
    pub open spec fn prepared(self, files: Seq<ConfigFileView>) -> ServerView {
        if discovery_due(self.rulesets) {
            self.with_discovered(files)
        } else {
            self
        }
    }

    /// The executable of PHPMD to use, where `project` is the one in the workspace and
    /// `bundled` the one beside the server, as far as they exist. Without a root of the
    /// workspace there is none in it.
    pub open spec fn best_executable(
        self,
        project: Option<Seq<char>>,
        bundled: Option<Seq<char>>,
    ) -> Seq<char> {
        preferred(
            if self.workspace_root is Some {
                project
            } else {
                None
            },
            bundled,
        )
    }

    /// The executable of PHPMD, once found, is kept.
    pub open spec fn located(
        self,
        project: Option<Seq<char>>,
        bundled: Option<Seq<char>>,
    ) -> ServerView {
        match self.phpmd_path {
            Some(_) => self,
            None => ServerView {
                phpmd_path: Some(self.best_executable(project, bundled)),
                ..self
            },
        }
    }

    /// Whether results for a document are held that were found for its present text, as far
    /// as checksums tell texts apart.
    pub open spec fn has_current_results(self, uri: Seq<char>) -> bool {
        &&& self.results.contains_key(uri)
        &&& self.documents.contains_key(uri)
        &&& self.results[uri].content_checksum == self.documents[uri].checksum
    }

    /// What comes next where the editor asks for the diagnostics of a document, whose file
    /// has the path `path`, and has those with the identifier `previous`. Where the address
    /// names no file there are none.
    pub open spec fn next_step(
        self,
        uri: Seq<char>,
        path: Option<Seq<char>>,
        previous: Option<Seq<char>>,
    ) -> StepView {
        match path {
            None => StepView::Reply(empty_report()),
            Some(file) => if self.has_current_results(uri) {
                let results = self.results[uri];
                if previous == Some(results.result_id) {
                    StepView::Reply(ReportView::Unchanged(results.result_id))
                } else {
                    StepView::Reply(ReportView::Full(Some(results.result_id), results.diagnostics))
                }
            } else {
                match self.text(uri) {
                    Some(text) => StepView::Analyze(
                        text,
                        self.documents[uri].checksum,
                        self.generation,
                    ),
                    None => StepView::ReadFile(file),
                }
            },
        }
    }

    /// The editor asked for the diagnostics of a document: results that are not current are
    /// dropped.
    pub open spec fn asked(self, uri: Seq<char>, path: Option<Seq<char>>) -> ServerView {
        if path is None || self.has_current_results(uri) {
            self
        } else {
            ServerView { results: self.results.remove(uri), ..self }
        }
    }

    /// An analysis of the text with the checksum `version`, which began in the generation
    /// `generation`, ended with results: they are kept with that checksum, so that a change
    /// of the text since then is detected. Where the document was closed meanwhile the
    /// checksum is not known, and where the configuration or the workspace changed meanwhile
    /// nothing is kept.
    pub open spec fn analyzed(
        self,
        uri: Seq<char>,
        version: Seq<char>,
        generation: u64,
        diagnostics: Seq<DiagnosticView>,
    ) -> ServerView {
        let results = ResultsView {
            diagnostics,
            result_id: version,
            content_checksum: if self.documents.contains_key(uri) {
                version
            } else {
                "unknown"@
            },
        };
        if generation == self.generation {
            ServerView { results: self.results.insert(uri, results), ..self }
        } else {
            self
        }
    }

    /// Whether the results that are held are kept with the checksum of the text that was
    /// analyzed, or with none.
    pub open spec fn marked(self) -> bool {
        forall|uri: Seq<char>| #[trigger]
            self.results.contains_key(uri) ==> self.results[uri].content_checksum
                == self.results[uri].result_id || self.results[uri].content_checksum == "unknown"@
    }

    /// Whether the counter shows the size of the compressed documents.
    pub open spec fn accounted(self) -> bool {
        self.memory == wrapped(size_sum(self.documents, compressed_size()) as int)
    }
}

/// The size of a document's compressed data.
pub open spec fn compressed_size() -> spec_fn(DocumentView) -> nat {
    |document: DocumentView| document.data.len()
}

/// The size of a document's text.
pub open spec fn original_size() -> spec_fn(DocumentView) -> nat {
    |document: DocumentView| document.original_size
}

/// The sum of the sizes of finitely many documents.
pub open spec fn size_sum(
    documents: Map<Seq<char>, DocumentView>,
    size: spec_fn(DocumentView) -> nat,
) -> nat
    decreases documents.dom().len(),
    when documents.dom().finite()
{
    if documents.dom().len() == 0 {
        0
    } else {
        let uri = documents.dom().choose();
        size(documents[uri]) + size_sum(documents.remove(uri), size)
    }
}

/// Any document can be taken out of the sum first.
pub proof fn lemma_size_sum_remove(
    documents: Map<Seq<char>, DocumentView>,
    size: spec_fn(DocumentView) -> nat,
    uri: Seq<char>,
)
    requires
        documents.dom().finite(),
        documents.contains_key(uri),
    ensures
        size_sum(documents, size) == size(documents[uri]) + size_sum(documents.remove(uri), size),
    decreases documents.dom().len(),
{
    let first = documents.dom().choose();
    if first != uri {
        let rest = documents.remove(first);
        lemma_size_sum_remove(rest, size, uri);
        lemma_size_sum_remove(documents.remove(uri), size, first);
        assert(rest.remove(uri) =~= documents.remove(uri).remove(first));
    }
}

/// The sum after a document was put in.
pub proof fn lemma_size_sum_insert(
    documents: Map<Seq<char>, DocumentView>,
    size: spec_fn(DocumentView) -> nat,
    uri: Seq<char>,
    document: DocumentView,
)
    requires
        documents.dom().finite(),
    ensures
        size_sum(documents.insert(uri, document), size) == size(document) + size_sum(
            documents.remove(uri),
            size,
        ),
{
    let more = documents.insert(uri, document);
    lemma_size_sum_remove(more, size, uri);
    assert(more.remove(uri) =~= documents.remove(uri));
}

/// Wrapping twice is wrapping once.
proof fn lemma_wrapped(a: int, b: int)
    ensures
        wrapped(wrapped(a) + b) == wrapped(a + b),
        wrapped(wrapped(a) - b) == wrapped(a - b),
{
    let m = usize::MAX + 1;
    lemma_mod_twice(a, m);
    lemma_add_mod_noop(a, b, m);
    lemma_add_mod_noop(a % m, b, m);
    lemma_sub_mod_noop(a, b, m);
    lemma_sub_mod_noop(a % m, b, m);
}

/// What happens to a server, one message or one end of outside work at a time.
pub enum Event {
    Opened(Seq<char>, DocumentView),
    Loaded(Seq<char>, DocumentView),
    Changed(Seq<char>, DocumentView),
    Closed(Seq<char>),
    Stopped,
    Moved,
    Reconfigured(Option<Seq<char>>, Option<Seq<char>>),
    Initialized(Option<std::path::PathBuf>, Option<Seq<char>>, Seq<ConfigFileView>),
    Prepared(Seq<ConfigFileView>),
    Located(Option<Seq<char>>, Option<Seq<char>>),
    Asked(Seq<char>, Option<Seq<char>>),
    Analyzed(Seq<char>, Seq<char>, u64, Seq<DiagnosticView>),
}

impl ServerView {
    /// What an event makes of the server.
    pub open spec fn after(self, event: Event) -> ServerView {
        match event {
            Event::Opened(uri, document) => self.opened(uri, document),
            Event::Loaded(uri, document) => self.loaded(uri, document),
            Event::Changed(uri, document) => self.changed(uri, document),
            Event::Closed(uri) => self.closed(uri),
            Event::Stopped => self.stopped(),
            Event::Moved => self.moved(),
            Event::Reconfigured(section, direct) => self.reconfigured(section, direct),
            Event::Initialized(root, rulesets, files) => self.initialized(root, rulesets, files),
            Event::Prepared(files) => self.prepared(files),
            Event::Located(project, bundled) => self.located(project, bundled),
            Event::Asked(uri, path) => self.asked(uri, path),
            Event::Analyzed(uri, version, generation, diagnostics) => self.analyzed(
                uri,
                version,
                generation,
                diagnostics,
            ),
        }
    }

    /// What a sequence of events makes of the server.
    pub open spec fn after_all(self, events: Seq<Event>) -> ServerView
        decreases events.len(),
    {
        if events.len() == 0 {
            self
        } else {
            self.after_all(events.drop_last()).after(events.last())
        }
    }

    /// Whether an event puts in no document that is held already, other than by a change.
    pub open spec fn puts_in_anew(self, event: Event) -> bool {
        match event {
            Event::Opened(uri, _) => !self.documents.contains_key(uri),
            Event::Loaded(uri, _) => !self.documents.contains_key(uri),
            _ => true,
        }
    }

    /// Whether none of the events, each at its time, puts in a document that is held already.
    pub open spec fn all_put_in_anew(self, events: Seq<Event>) -> bool {
        forall|i: int|
            0 <= i < events.len() ==> self.after_all(events.take(i)).puts_in_anew(
                #[trigger] events[i],
            )
    }
}

/// Whether the documents that events put in can be read back, as those of the server can.
pub open spec fn intact_events(events: Seq<Event>) -> bool {
    forall|i: int|
        0 <= i < events.len() ==> match #[trigger] events[i] {
            Event::Opened(_, document) => document.intact(),
            Event::Loaded(_, document) => document.intact(),
            Event::Changed(_, document) => document.intact(),
            _ => true,
        }
}

/// One event keeps the documents readable and the counter in its range.
proof fn lemma_valid_after(s: ServerView, event: Event)
    requires
        s.valid(),
        intact_events(seq![event]),
    ensures
        s.after(event).valid(),
{
    assert(seq![event][0] == event);
    assert forall|n: int| 0 <= #[trigger] wrapped(n) <= usize::MAX by {
        lemma_mod_bound(n, usize::MAX + 1);
    }
}

/// After any events every document can be read back and the counter is in its range.
pub proof fn law_documents_stay_readable(events: Seq<Event>)
    requires
        intact_events(events),
    ensures
        ServerView::initial().after_all(events).valid(),
    decreases events.len(),
{
    if events.len() > 0 {
        assert forall|i: int| 0 <= i < events.drop_last().len() implies match #[trigger]
        events.drop_last()[i] {
            Event::Opened(_, document) => document.intact(),
            Event::Loaded(_, document) => document.intact(),
            Event::Changed(_, document) => document.intact(),
            _ => true,
        } by {
            assert(events.drop_last()[i] == events[i]);
        }
        law_documents_stay_readable(events.drop_last());
        assert(events.last() == events[events.len() - 1]);
        lemma_valid_after(ServerView::initial().after_all(events.drop_last()), events.last());
    }
}

/// One event keeps the counter at the size of the compressed documents, unless it puts in a
/// document that is held already: then the counter shows the size of the document that was
/// replaced on top.
pub proof fn law_event_is_accounted(s: ServerView, event: Event)
    requires
        s.documents.dom().finite(),
        s.accounted(),
    ensures
        s.puts_in_anew(event) ==> s.after(event).accounted(),
        s.after(event).documents.dom().finite(),
        match event {
            Event::Opened(uri, _) => s.after(event).memory == wrapped(
                size_sum(s.after(event).documents, compressed_size()) + s.held_size(uri),
            ),
            Event::Loaded(uri, _) => s.after(event).memory == wrapped(
                size_sum(s.after(event).documents, compressed_size()) + s.held_size(uri),
            ),
            _ => true,
        },
{
    match event {
        Event::Opened(uri, document) => {
            lemma_accounting(s, uri, document);
        },
        Event::Loaded(uri, document) => {
            lemma_accounting(s, uri, document);
        },
        Event::Changed(uri, document) => {
            lemma_accounting(s, uri, document);
        },
        Event::Closed(uri) => {
            lemma_accounting(s, uri, s.documents[uri]);
        },
        _ => {
            lemma_nothing_is_accounted();
        },
    }
}

/// A server without documents counts nothing.
proof fn lemma_nothing_is_accounted()
    ensures
        ServerView::initial().accounted(),
        Map::<Seq<char>, DocumentView>::empty().dom().finite(),
{
    assert(Map::<Seq<char>, DocumentView>::empty().dom() =~= Set::empty());
    lemma_small_mod(0, (usize::MAX + 1) as nat);
}

/// How the counter follows a document that is put in, replaced or taken out.
proof fn lemma_accounting(s: ServerView, uri: Seq<char>, document: DocumentView)
    requires
        s.documents.dom().finite(),
        s.accounted(),
    ensures
        s.loaded(uri, document).memory == wrapped(
            size_sum(s.documents.insert(uri, document), compressed_size()) + s.held_size(uri),
        ),
        s.changed(uri, document).accounted(),
        s.closed(uri).accounted(),
{
    let size = compressed_size();
    let total = size_sum(s.documents, size) as int;
    let rest = size_sum(s.documents.remove(uri), size) as int;
    let held = s.held_size(uri);
    let added = document.data.len() as int;
    assert(total == held + rest) by {
        if s.documents.contains_key(uri) {
            lemma_size_sum_remove(s.documents, size, uri);
        } else {
            assert(s.documents.remove(uri) =~= s.documents);
        }
    }
    lemma_size_sum_insert(s.documents, size, uri, document);
    lemma_wrapped(total, held);
    lemma_wrapped(total, added);
    lemma_wrapped(total - held, added);
}

/// After any events, none of which puts in a document that is held already other than by a
/// change, the counter shows the size of the compressed documents; exactly so where that is
/// in its range. In particular it shows 0 once no document is left.
pub proof fn law_memory_is_accounted(events: Seq<Event>)
    requires
        ServerView::initial().all_put_in_anew(events),
    ensures
        ({
            let s = ServerView::initial().after_all(events);
            let size = size_sum(s.documents, compressed_size());
            &&& s.documents.dom().finite()
            &&& s.memory == wrapped(size as int)
            &&& size <= usize::MAX ==> s.memory == size
            &&& s.documents.dom().len() == 0 ==> s.memory == 0
        }),
    decreases events.len(),
{
    let s = ServerView::initial().after_all(events);
    lemma_nothing_is_accounted();
    if events.len() > 0 {
        let front = events.drop_last();
        let before = ServerView::initial().after_all(front);
        assert forall|i: int| 0 <= i < front.len() implies ServerView::initial().after_all(
            front.take(i),
        ).puts_in_anew(#[trigger] front[i]) by {
            assert(front[i] == events[i]);
            assert(front.take(i) =~= events.take(i));
        }
        law_memory_is_accounted(front);
        assert(events.take(events.len() - 1) =~= front);
        assert(before.puts_in_anew(events[events.len() - 1]));
        law_event_is_accounted(before, events.last());
    }
    let size = size_sum(s.documents, compressed_size());
    if size <= usize::MAX {
        lemma_small_mod(size, (usize::MAX + 1) as nat);
    }
}

/// Replaces the text of a document again and again.
pub open spec fn changed_often(
    s: ServerView,
    uri: Seq<char>,
    documents: Seq<DocumentView>,
) -> ServerView
    decreases documents.len(),
{
    if documents.len() == 0 {
        s
    } else {
        changed_often(s, uri, documents.drop_last()).changed(uri, documents.last())
    }
}

/// What changes to an open document leave for its closing.
proof fn lemma_changed_often(s: ServerView, uri: Seq<char>, documents: Seq<DocumentView>)
    requires
        s.documents.contains_key(uri),
    ensures
        ({
            let t = changed_often(s, uri, documents);
            &&& t.documents.contains_key(uri)
            &&& t.documents.remove(uri) == s.documents.remove(uri)
            &&& wrapped(t.memory - t.held_size(uri)) == wrapped(s.memory - s.held_size(uri))
        }),
    decreases documents.len(),
{
    if documents.len() > 0 {
        let before = changed_often(s, uri, documents.drop_last());
        let after = changed_often(s, uri, documents);
        let added = documents.last().data.len() as int;
        lemma_changed_often(s, uri, documents.drop_last());
        let base = before.memory - before.held_size(uri);
        assert(after.documents.remove(uri) =~= before.documents.remove(uri));
        lemma_wrapped(base, added);
        lemma_wrapped(base + added, added);
        assert(base + added - added == base);
    }
}

/// Opening a document that is not held, changing it any number of times and closing it gives
/// back the documents and the counter that were there before.
pub proof fn law_closing_undoes_opening(
    s: ServerView,
    uri: Seq<char>,
    document: DocumentView,
    changes: Seq<DocumentView>,
)
    requires
        s.valid(),
        !s.documents.contains_key(uri),
    ensures
        ({
            let t = changed_often(s.opened(uri, document), uri, changes).closed(uri);
            t.documents == s.documents && t.memory == s.memory
        }),
{
    let opened = s.opened(uri, document);
    let added = document.data.len() as int;
    lemma_changed_often(opened, uri, changes);
    assert(opened.documents.remove(uri) =~= s.documents);
    lemma_wrapped(s.memory + added, added);
    assert(s.memory + added - added == s.memory);
    lemma_small_mod(s.memory as nat, (usize::MAX + 1) as nat);
}

/// Closes documents one after another.
pub open spec fn all_closed(s: ServerView, uris: Seq<Seq<char>>) -> ServerView
    decreases uris.len(),
{
    if uris.len() == 0 {
        s
    } else {
        all_closed(s, uris.drop_last()).closed(uris.last())
    }
}

/// Closing every document, where the counter shows the size of the compressed documents,
/// leaves none and brings the counter to 0.
pub proof fn law_closing_all_frees_all(s: ServerView, uris: Seq<Seq<char>>)
    requires
        s.documents.dom().finite(),
        s.accounted(),
        forall|uri: Seq<char>| #[trigger] s.documents.contains_key(uri) ==> uris.contains(uri),
    ensures
        all_closed(s, uris).documents == Map::<Seq<char>, DocumentView>::empty(),
        all_closed(s, uris).memory == 0,
{
    lemma_all_closed(s, uris);
    let t = all_closed(s, uris);
    assert(t.documents =~= Map::empty());
    assert(t.documents.dom() =~= Set::empty());
    lemma_small_mod(0, (usize::MAX + 1) as nat);
}

/// What closing documents one after another leaves.
proof fn lemma_all_closed(s: ServerView, uris: Seq<Seq<char>>)
    requires
        s.documents.dom().finite(),
        s.accounted(),
    ensures
        all_closed(s, uris).documents.dom().finite(),
        all_closed(s, uris).accounted(),
        forall|uri: Seq<char>| #[trigger]
            all_closed(s, uris).documents.contains_key(uri) ==> s.documents.contains_key(uri)
                && !uris.contains(uri),
    decreases uris.len(),
{
    if uris.len() > 0 {
        let front = uris.drop_last();
        let before = all_closed(s, front);
        lemma_all_closed(s, front);
        lemma_accounting(before, uris.last(), before.documents[uris.last()]);
        assert forall|uri: Seq<char>| #[trigger]
            all_closed(s, uris).documents.contains_key(uri) implies s.documents.contains_key(uri)
            && !uris.contains(uri) by {
            assert(before.documents.contains_key(uri));
            if uris.contains(uri) {
                let i = choose|i: int| 0 <= i < uris.len() && uris[i] == uri;
                assert(i < front.len());
                assert(front[i] == uri);
            }
        }
    }
}

/// A text that was opened, changed or read from a file is read back as it was given.
pub proof fn law_text_reads_back(
    s: ServerView,
    uri: Seq<char>,
    document: DocumentView,
    text: Seq<char>,
)
    requires
        document.holds(text),
    ensures
        s.opened(uri, document).text(uri) == Some(text),
        s.changed(uri, document).text(uri) == Some(text),
        s.loaded(uri, document).text(uri) == Some(text),
        s.closed(uri).text(uri) is None,
        s.stopped().text(uri) is None,
{
}

/// What is done to one document leaves the text of every other document, and the results
/// for it, as they were.
pub proof fn law_other_documents_stay(
    s: ServerView,
    uri: Seq<char>,
    other: Seq<char>,
    document: DocumentView,
    version: Seq<char>,
    generation: u64,
    diagnostics: Seq<DiagnosticView>,
    path: Option<Seq<char>>,
    other_path: Option<Seq<char>>,
    previous: Option<Seq<char>>,
)
    requires
        uri != other,
    ensures
        s.opened(uri, document).text(other) == s.text(other),
        s.changed(uri, document).text(other) == s.text(other),
        s.loaded(uri, document).text(other) == s.text(other),
        s.closed(uri).text(other) == s.text(other),
        s.asked(uri, path).text(other) == s.text(other),
        s.analyzed(uri, version, generation, diagnostics).text(other) == s.text(other),
        s.opened(uri, document).next_step(other, other_path, previous) == s.next_step(
            other,
            other_path,
            previous,
        ),
        s.changed(uri, document).next_step(other, other_path, previous) == s.next_step(
            other,
            other_path,
            previous,
        ),
        s.loaded(uri, document).next_step(other, other_path, previous) == s.next_step(
            other,
            other_path,
            previous,
        ),
        s.closed(uri).next_step(other, other_path, previous) == s.next_step(
            other,
            other_path,
            previous,
        ),
        s.asked(uri, path).next_step(other, other_path, previous) == s.next_step(
            other,
            other_path,
            previous,
        ),
        s.analyzed(uri, version, generation, diagnostics).next_step(other, other_path, previous)
            == s.next_step(other, other_path, previous),
{
}

/// Once the present text of a document was analyzed, the next request for its diagnostics is
/// answered with the results, or with the word that they are unchanged where the editor has
/// them, and that as often as it is repeated.
pub proof fn law_results_are_reused(
    s: ServerView,
    uri: Seq<char>,
    version: Seq<char>,
    diagnostics: Seq<DiagnosticView>,
    path: Seq<char>,
    previous: Option<Seq<char>>,
)
    requires
        s.documents.contains_key(uri),
        version == s.documents[uri].checksum,
    ensures
        ({
            let t = s.analyzed(uri, version, s.generation, diagnostics);
            &&& t.asked(uri, Some(path)) == t
            &&& t.next_step(uri, Some(path), previous) == if previous == Some(version) {
                StepView::Reply(ReportView::Unchanged(version))
            } else {
                StepView::Reply(ReportView::Full(Some(version), diagnostics))
            }
        }),
{
}

/// After a document was opened, changed or closed, and after the configuration or the
/// workspace changed, no request is answered with results from before.
pub proof fn law_results_are_invalidated(
    s: ServerView,
    uri: Seq<char>,
    document: DocumentView,
    section: Option<Seq<char>>,
    direct: Option<Seq<char>>,
    path: Seq<char>,
    previous: Option<Seq<char>>,
)
    ensures
        !(s.opened(uri, document).next_step(uri, Some(path), previous) is Reply),
        !(s.changed(uri, document).next_step(uri, Some(path), previous) is Reply),
        !(s.closed(uri).next_step(uri, Some(path), previous) is Reply),
        !(s.stopped().next_step(uri, Some(path), previous) is Reply),
        !(s.moved().next_step(uri, Some(path), previous) is Reply),
        !(s.reconfigured(section, direct).next_step(uri, Some(path), previous) is Reply),
{
}

/// Results of the analysis of one text are not given for another text with another checksum:
/// neither for a text that the document has when the analysis ends, nor for one that is read
/// from its file later. The other text is analyzed.
pub proof fn law_results_belong_to_the_text(
    s: ServerView,
    uri: Seq<char>,
    version: Seq<char>,
    diagnostics: Seq<DiagnosticView>,
    document: DocumentView,
    path: Seq<char>,
    previous: Option<Seq<char>>,
)
    ensures
        s.documents.contains_key(uri) && s.documents[uri].checksum != version ==> {
            let t = s.analyzed(uri, version, s.generation, diagnostics);
            &&& !(t.next_step(uri, Some(path), previous) is Reply)
            &&& t.next_step(uri, Some(path), previous) == StepView::Analyze(
                s.documents[uri].read()->Ok_0,
                s.documents[uri].checksum,
                s.generation,
            )
            &&& !t.asked(uri, Some(path)).results.contains_key(uri)
        },
        s.documents.contains_key(uri) && document.checksum != version ==> {
            let t = s.analyzed(uri, version, s.generation, diagnostics).loaded(uri, document);
            &&& !(t.next_step(uri, Some(path), previous) is Reply)
            &&& !t.asked(uri, Some(path)).results.contains_key(uri)
        },
{
}

/// A change of the text during its analysis is detected: whatever the analysis of the former
/// text finds, the next request has the new text analyzed.
pub proof fn law_change_during_analysis_is_detected(
    s: ServerView,
    uri: Seq<char>,
    document: DocumentView,
    version: Seq<char>,
    generation: u64,
    diagnostics: Seq<DiagnosticView>,
    path: Seq<char>,
    previous: Option<Seq<char>>,
)
    requires
        document.checksum != version,
    ensures
        s.changed(uri, document).analyzed(uri, version, generation, diagnostics).next_step(
            uri,
            Some(path),
            previous,
        ) == StepView::Analyze(document.read()->Ok_0, document.checksum, s.generation),
{
}

/// Results of an analysis that began before the configuration or the workspace changed are
/// not kept, so that the document is analyzed again.
pub proof fn law_results_of_an_old_configuration_are_not_kept(
    s: ServerView,
    uri: Seq<char>,
    version: Seq<char>,
    diagnostics: Seq<DiagnosticView>,
    section: Option<Seq<char>>,
    direct: Option<Seq<char>>,
    path: Seq<char>,
    previous: Option<Seq<char>>,
)
    ensures
        s.moved().analyzed(uri, version, s.generation, diagnostics) == s.moved(),
        s.reconfigured(section, direct).analyzed(uri, version, s.generation, diagnostics)
            == s.reconfigured(section, direct),
        !(s.reconfigured(section, direct).analyzed(
            uri,
            version,
            s.generation,
            diagnostics,
        ).next_step(uri, Some(path), previous) is Reply),
{
}

/// Results of an analysis during which the document was closed are never given, whatever is
/// read from its file later.
pub proof fn law_results_of_a_closed_document_are_not_given(
    s: ServerView,
    uri: Seq<char>,
    version: Seq<char>,
    diagnostics: Seq<DiagnosticView>,
    document: DocumentView,
    path: Seq<char>,
    previous: Option<Seq<char>>,
)
    requires
        !s.documents.contains_key(uri),
        document.intact(),
    ensures
        s.analyzed(uri, version, s.generation, diagnostics).next_step(uri, Some(path), previous)
            == StepView::ReadFile(path),
        !(s.analyzed(uri, version, s.generation, diagnostics).loaded(uri, document).next_step(
            uri,
            Some(path),
            previous,
        ) is Reply),
{
    reveal_strlit("unknown");
}

/// One event keeps the results marked with the checksum of the text that was analyzed.
proof fn lemma_marked_after(s: ServerView, event: Event)
    requires
        s.marked(),
    ensures
        s.after(event).marked(),
{
    assert forall|uri: Seq<char>| #[trigger]
        s.after(event).results.contains_key(uri) implies s.after(
        event,
    ).results[uri].content_checksum == s.after(event).results[uri].result_id || s.after(
        event,
    ).results[uri].content_checksum == "unknown"@ by {
        if s.results.contains_key(uri) {
        }
    }
}

/// After any events whatever, an answer from kept results carries the checksum of the text
/// that the document has at that time.
pub proof fn law_answers_fit_the_text(
    events: Seq<Event>,
    uri: Seq<char>,
    path: Seq<char>,
    previous: Option<Seq<char>>,
)
    requires
        intact_events(events),
    ensures
        ({
            let s = ServerView::initial().after_all(events);
            match s.next_step(uri, Some(path), previous) {
                StepView::Reply(ReportView::Unchanged(id)) => s.documents.contains_key(uri) && id
                    == s.documents[uri].checksum && previous == Some(id),
                StepView::Reply(ReportView::Full(id, _)) => s.documents.contains_key(uri) && id
                    == Some(s.documents[uri].checksum),
                StepView::Analyze(text, id, generation) => s.text(uri) == Some(text) && id
                    == s.documents[uri].checksum && generation == s.generation,
                StepView::ReadFile(file) => s.text(uri) is None && file == path,
            }
        }),
{
    lemma_marked_after_all(events);
    law_documents_stay_readable(events);
    reveal_strlit("unknown");
}

/// After any events the results are marked with the checksum of the text that was analyzed.
proof fn lemma_marked_after_all(events: Seq<Event>)
    ensures
        ServerView::initial().after_all(events).marked(),
    decreases events.len(),
{
    if events.len() > 0 {
        lemma_marked_after_all(events.drop_last());
        lemma_marked_after(ServerView::initial().after_all(events.drop_last()), events.last());
    }
}

/// The identifier of results depends on the text alone: the same text gives the same one.
pub proof fn law_same_text_same_version(
    a: ServerView,
    b: ServerView,
    uri: Seq<char>,
    other: Seq<char>,
)
    requires
        a.valid(),
        b.valid(),
        a.documents.contains_key(uri),
        b.documents.contains_key(other),
        a.text(uri) == b.text(other),
    ensures
        a.documents[uri].checksum == b.documents[other].checksum,
{
}

/// The executable of PHPMD is looked for once, and again only after the configuration or the
/// workspace changed. It is that of the workspace where there is a root and it exists, else
/// the bundled one where that exists, else the one that the system finds.
pub proof fn law_executable_is_kept(
    s: ServerView,
    project: Option<Seq<char>>,
    bundled: Option<Seq<char>>,
    later_project: Option<Seq<char>>,
    later_bundled: Option<Seq<char>>,
    section: Option<Seq<char>>,
    direct: Option<Seq<char>>,
)
    ensures
        s.phpmd_path is Some ==> s.located(project, bundled) == s,
        s.phpmd_path is None ==> s.located(project, bundled).phpmd_path == Some(
            match (s.workspace_root, project, bundled) {
                (Some(_), Some(path), _) => path,
                (_, _, Some(path)) => path,
                _ => "phpmd"@,
            },
        ),
        s.located(project, bundled).located(later_project, later_bundled) == s.located(
            project,
            bundled,
        ),
        s.moved().located(later_project, later_bundled).phpmd_path == Some(
            s.best_executable(later_project, later_bundled),
        ),
        s.reconfigured(section, direct).located(later_project, later_bundled).phpmd_path == Some(
            s.best_executable(later_project, later_bundled),
        ),
{
}

/// Starting the server fixes the root of the workspace and the rule sets: those that the
/// editor names, even an empty list of them and whatever files there are, else those of the
/// first usable configuration file in the root, else all of PHPMD's.
pub proof fn law_start_fixes_root_and_rulesets(
    s: ServerView,
    root: Option<std::path::PathBuf>,
    names: Seq<char>,
    files: Seq<ConfigFileView>,
    other_files: Seq<ConfigFileView>,
)
    ensures
        s.initialized(root, Some(names), files).workspace_root == root,
        s.initialized(root, Some(names), files).rulesets == Some(names),
        s.initialized(root, Some(names), files) == s.initialized(root, Some(names), other_files),
        s.initialized(root, None, files).workspace_root == root,
        root is Some ==> s.initialized(root, None, files).rulesets == s.with_discovered(
            files,
        ).rulesets,
        root is None ==> s.initialized(root, None, files).rulesets == s.with_discovered(
            Seq::empty(),
        ).rulesets,
{
    assert(discovered(Seq::empty()) == fallback_rulesets());
}

/// Rule sets that the editor names stay through every analysis, unless they are just the
/// ones that are used where nothing is configured.
pub proof fn law_named_rulesets_stay(
    s: ServerView,
    root: Option<std::path::PathBuf>,
    names: Seq<char>,
    files: Seq<ConfigFileView>,
    later_files: Seq<ConfigFileView>,
)
    requires
        names != fallback_rulesets(),
    ensures
        s.initialized(root, Some(names), files).prepared(later_files).rulesets == Some(names),
        s.reconfigured(Some(names), None).prepared(later_files).rulesets == Some(names),
        s.reconfigured(None, Some(names)).prepared(later_files).rulesets == Some(names),
{
}

/// Rule sets that are configured directly go before those of the section for PHPMD, and these
/// before the ones that were set.
pub proof fn law_direct_setting_goes_first(
    s: ServerView,
    names: Seq<char>,
    section: Option<Seq<char>>,
)
    ensures
        s.reconfigured(section, Some(names)).rulesets == Some(names),
        s.reconfigured(Some(names), None).rulesets == Some(names),
        s.reconfigured(None, None).rulesets == s.rulesets,
{
}

/// An analysis looks at the configuration files where no rule sets are set or just all of
/// PHPMD's are, and keeps the rule sets else.
pub proof fn law_analysis_looks_for_files_without_a_choice(
    s: ServerView,
    files: Seq<ConfigFileView>,
)
    ensures
        s.rulesets is None || s.rulesets == Some(
            "cleancode,codesize,controversial,design,naming,unusedcode"@,
        ) ==> s.prepared(files).rulesets == Some(discovered(files)),
        !(s.rulesets is None || s.rulesets == Some(
            "cleancode,codesize,controversial,design,naming,unusedcode"@,
        )) ==> s.prepared(files) == s,
        s.with_discovered(files).rulesets == Some(discovered(files)),
{
}

/// What is done to a document leaves the rule sets, the executable, the root of the workspace
/// and the generation as they are; so do a request and the end of an analysis.
pub proof fn law_documents_leave_the_configuration(
    s: ServerView,
    uri: Seq<char>,
    document: DocumentView,
    path: Option<Seq<char>>,
    version: Seq<char>,
    generation: u64,
    diagnostics: Seq<DiagnosticView>,
    t: ServerView,
)
    requires
        ({
            ||| t == s.opened(uri, document)
            ||| t == s.loaded(uri, document)
            ||| t == s.changed(uri, document)
            ||| t == s.closed(uri)
            ||| t == s.stopped()
            ||| t == s.asked(uri, path)
            ||| t == s.analyzed(uri, version, generation, diagnostics)
        }),
    ensures
        t.rulesets == s.rulesets,
        t.phpmd_path == s.phpmd_path,
        t.workspace_root == s.workspace_root,
        t.generation == s.generation,
{
}

/// A change of the configuration or the workspace, the start, the preparation of an analysis
/// and the search for the executable leave the documents and the counter as they are; the
/// last three leave the results too.
pub proof fn law_configuration_leaves_the_documents(
    s: ServerView,
    section: Option<Seq<char>>,
    direct: Option<Seq<char>>,
    root: Option<std::path::PathBuf>,
    files: Seq<ConfigFileView>,
    t: ServerView,
)
    requires
        ({
            ||| t == s.moved()
            ||| t == s.reconfigured(section, direct)
            ||| t == s.initialized(root, direct, files)
            ||| t == s.prepared(files)
            ||| t == s.located(section, direct)
        }),
    ensures
        t.documents == s.documents,
        t.memory == s.memory,
        t == s.initialized(root, direct, files) || t == s.prepared(files) || t == s.located(
            section,
            direct,
        ) ==> t.results == s.results && t.generation == s.generation,
        t == s.prepared(files) || t == s.located(section, direct) ==> t.workspace_root
            == s.workspace_root,
        s.moved().results == Map::<Seq<char>, ResultsView>::empty(),
        s.moved().phpmd_path is None,
        s.moved().rulesets == s.rulesets,
        s.moved().workspace_root == s.workspace_root,
        s.located(section, direct).rulesets == s.rulesets,
        s.prepared(files).phpmd_path == s.phpmd_path,
        s.initialized(root, direct, files).phpmd_path == s.phpmd_path,
{
}

/// Opening, changing and reading a document put in just that document; closing one takes out
/// just that one; stopping takes out all, and with them all results.
pub proof fn law_documents_are_put_in_and_taken_out(
    s: ServerView,
    uri: Seq<char>,
    document: DocumentView,
)
    ensures
        s.opened(uri, document).documents == s.documents.insert(uri, document),
        s.loaded(uri, document).documents == s.documents.insert(uri, document),
        s.changed(uri, document).documents == s.documents.insert(uri, document),
        s.closed(uri).documents == s.documents.remove(uri),
        s.stopped().documents == Map::<Seq<char>, DocumentView>::empty(),
        s.stopped().results == Map::<Seq<char>, ResultsView>::empty(),
        s.stopped().memory == 0,
        s.opened(uri, document).results == s.results.remove(uri),
        s.changed(uri, document).results == s.results.remove(uri),
        s.closed(uri).results == s.results.remove(uri),
        s.loaded(uri, document).results == s.results,
{
}

/// A request names no file, or is answered from results for the present text, or has that
/// text analyzed, or has the file read: in this order.
pub proof fn law_request_is_answered(
    s: ServerView,
    uri: Seq<char>,
    path: Seq<char>,
    previous: Option<Seq<char>>,
)
    ensures
        s.next_step(uri, None, previous) == StepView::Reply(
            ReportView::Full(None, Seq::<DiagnosticView>::empty()),
        ),
        s.asked(uri, None) == s,
        s.documents.contains_key(uri) && s.results.contains_key(uri)
            && s.results[uri].content_checksum == s.documents[uri].checksum ==> s.next_step(
            uri,
            Some(path),
            previous,
        ) == if previous == Some(s.results[uri].result_id) {
            StepView::Reply(ReportView::Unchanged(s.results[uri].result_id))
        } else {
            StepView::Reply(
                ReportView::Full(Some(s.results[uri].result_id), s.results[uri].diagnostics),
            )
        },
        s.documents.contains_key(uri) && !(s.results.contains_key(uri)
            && s.results[uri].content_checksum == s.documents[uri].checksum) ==> s.next_step(
            uri,
            Some(path),
            previous,
        ) == StepView::Analyze(
            s.documents[uri].read()->Ok_0,
            s.documents[uri].checksum,
            s.generation,
        ),
        !s.documents.contains_key(uri) ==> s.next_step(uri, Some(path), previous)
            == StepView::ReadFile(path),
        s.asked(uri, Some(path)).documents == s.documents,
        s.asked(uri, Some(path)).memory == s.memory,
        s.next_step(uri, Some(path), previous) is Reply <==> s.asked(
            uri,
            Some(path),
        ).results.contains_key(uri),
{
}

/// A valid server reads every document that it holds back as the text that it has.
pub proof fn law_held_documents_read_back(s: ServerView, uri: Seq<char>)
    requires
        s.valid(),
        s.documents.contains_key(uri),
    ensures
        s.text(uri) is Some,
        s.documents[uri].holds(s.text(uri)->Some_0),
        s.documents[uri].checksum.len() == 64,
{
}

/// The counter shows numbers in its range as they are and starts again at 0 behind them.
pub proof fn law_counter_starts_again(n: int)
    ensures
        0 <= n <= usize::MAX ==> wrapped(n) == n,
        wrapped(n + usize::MAX + 1) == wrapped(n),
        0 <= wrapped(n) <= usize::MAX,
{
    let m = usize::MAX + 1;
    if 0 <= n <= usize::MAX {
        lemma_small_mod(n as nat, m as nat);
    }
    lemma_mod_add_multiples_vanish(n, m);
    lemma_mod_bound(n, m);
    assert(n + usize::MAX + 1 == m + n);
}

/// Sizes add up over the documents: those of their compressed data, and those of their texts.
pub proof fn law_sizes_add_up(
    documents: Map<Seq<char>, DocumentView>,
    uri: Seq<char>,
    document: DocumentView,
)
    requires
        documents.dom().finite(),
        !documents.contains_key(uri),
    ensures
        size_sum(documents.insert(uri, document), compressed_size()) == size_sum(
            documents,
            compressed_size(),
        ) + document.data.len(),
        size_sum(documents.insert(uri, document), original_size()) == size_sum(
            documents,
            original_size(),
        ) + document.original_size,
        size_sum(Map::empty(), compressed_size()) == 0,
        size_sum(Map::empty(), original_size()) == 0,
{
    lemma_size_sum_insert(documents, compressed_size(), uri, document);
    lemma_size_sum_insert(documents, original_size(), uri, document);
    assert(documents.remove(uri) =~= documents);
    assert(Map::<Seq<char>, DocumentView>::empty().dom() =~= Set::empty());
}

/// The end of an analysis touches no document; where the configuration is still the one that
/// it began under, the results that are kept are just those that it found.
pub proof fn law_analysis_keeps_what_it_found(
    s: ServerView,
    uri: Seq<char>,
    version: Seq<char>,
    generation: u64,
    diagnostics: Seq<DiagnosticView>,
)
    ensures
        s.analyzed(uri, version, generation, diagnostics).documents == s.documents,
        s.analyzed(uri, version, generation, diagnostics).memory == s.memory,
        generation == s.generation ==> {
            let kept = s.analyzed(uri, version, generation, diagnostics).results[uri];
            &&& s.analyzed(uri, version, generation, diagnostics).results.contains_key(uri)
            &&& kept.diagnostics == diagnostics
            &&& kept.result_id == version
            &&& s.documents.contains_key(uri) ==> kept.content_checksum == version
        },
        generation != s.generation ==> s.analyzed(uri, version, generation, diagnostics) == s,
{
}

} // verus!
