//! The server: what it remembers between the messages of an editor, and how it answers them.
use crate::diagnostic::{
    copy_diagnostics, copy_text, diagnostic_views, output_diagnostics, parse_phpmd_output,
    Diagnostic, DiagnosticView,
};
use crate::document::{
    compress_document, compressible, decompress_document, CompressedDocument, DocumentView,
};
use crate::json::Json;
use crate::output::{decode_output, extract_json_from_output, json_object, lossy_text};
use crate::state::{
    compressed_size, empty_report, lemma_size_sum_insert, original_size, size_sum, wrapped,
    ReportView, ResultsView, ServerView, StepView,
};
use crate::text::{byte_len, same_text, text_of, texts};
use crate::uri_map::{distinct, lemma_map_of, map_of, UriMap};
use crate::workspace::{
    all_rulesets, args_after, args_before, choose_phpmd, config_views, discovery_due,
    find_project_root, found_views, is_random_uuid, new_temp_file_name, phpmd_command,
    program_for, project_root, rulesets_in, should_discover, temp_file_for, ConfigFile,
    PhpmdCommand, PhpmdLocations, ProjectRoot,
};
use vstd::arithmetic::div_mod::{
    lemma_mod_add_multiples_vanish, lemma_mod_sub_multiples_vanish, lemma_small_mod,
};
use vstd::prelude::*;

verus! {

/// What an editor may say when it starts the server.
pub struct InitializationOptions {
    pub rulesets: Option<String>,
}

/// The rule sets that the editor names when it starts the server.
pub open spec fn named_rulesets(options: Option<InitializationOptions>) -> Option<Seq<char>> {
    match options {
        Some(o) => text_of(o.rulesets),
        None => None,
    }
}

/// Whether configuration files are looked for when the server is started: where the editor
/// names no rule sets.
pub fn discovers_at_start(options: &Option<InitializationOptions>) -> (r: bool)
    ensures
        r == (named_rulesets(*options) is None),
{
    match options {
        Some(o) => o.rulesets.is_none(),
        None => true,
    }
}

/// The section for PHPMD in the settings of an editor.
pub struct PhpmdSettings {
    pub rulesets: Option<String>,
}

/// The results of an analysis, kept to answer later requests.
pub struct CachedResults {
    pub diagnostics: Vec<Diagnostic>,
    /// The checksum of the text that was analyzed, by which the editor knows the results.
    pub result_id: String,
    /// The checksum of the text that was analyzed, to detect changes; "unknown" where the
    /// document was closed before the analysis ended.
    pub content_checksum: String,
}

impl View for CachedResults {
    type V = ResultsView;

    open spec fn view(&self) -> ResultsView {
        ResultsView {
            diagnostics: diagnostic_views(self.diagnostics@),
            result_id: self.result_id@,
            content_checksum: self.content_checksum@,
        }
    }
}

/// An answer to a request for diagnostics.
pub enum DiagnosticReport {
    /// The editor has the current diagnostics; they carry this identifier.
    Unchanged(String),
    /// All diagnostics, with their identifier.
    Full(Option<String>, Vec<Diagnostic>),
}

impl View for DiagnosticReport {
    type V = ReportView;

    open spec fn view(&self) -> ReportView {
        match self {
            DiagnosticReport::Unchanged(id) => ReportView::Unchanged(id@),
            DiagnosticReport::Full(id, items) => ReportView::Full(
                text_of(*id),
                diagnostic_views(items@),
            ),
        }
    }
}

/// What comes next in answering a request for diagnostics.
pub enum DiagnosticStep {
    /// The answer is known.
    Reply(DiagnosticReport),
    /// The text `content` is to be analyzed; the results carry the identifier `version_id`
    /// and belong to the configuration that `generation` stands for.
    Analyze { content: String, version_id: String, generation: u64 },
    /// The document is not held and has to be read from the file with this path.
    ReadFile(String),
}

impl View for DiagnosticStep {
    type V = StepView;

    open spec fn view(&self) -> StepView {
        match self {
            DiagnosticStep::Reply(report) => StepView::Reply(report@),
            DiagnosticStep::Analyze { content, version_id, generation } => StepView::Analyze(
                content@,
                version_id@,
                *generation,
            ),
            DiagnosticStep::ReadFile(path) => StepView::ReadFile(path@),
        }
    }
}

/// What an analysis has to do: write the text to a temporary file and call PHPMD on it.
pub struct AnalysisPlan {
    pub command: PhpmdCommand,
    pub temp_file_name: String,
}

/// How running PHPMD on a temporary file ended.
pub enum AnalysisOutcome {
    /// The temporary file could not be written.
    NotWritten,
    /// The process could not be started.
    NotStarted,
    /// The output of the process could not be read.
    ProcessFailed,
    /// The process took too long.
    TimedOut,
    /// The bytes that the process wrote to its standard output.
    Output(Vec<u8>),
}

/// What running PHPMD wrote, where it came to an end.
pub open spec fn written(outcome: AnalysisOutcome) -> Option<Seq<u8>> {
    match outcome {
        AnalysisOutcome::Output(bytes) => Some(bytes@),
        _ => None,
    }
}

/// Whether the temporary file is removed at once: after the process ended, and where it
/// could not be started.
pub fn removes_temp_file(outcome: &AnalysisOutcome) -> (r: bool)
    ensures
        r == (*outcome is Output || *outcome is NotStarted),
{
    match outcome {
        AnalysisOutcome::Output(_) => true,
        AnalysisOutcome::NotStarted => true,
        _ => false,
    }
}

/// The sizes of the documents that are held.
pub struct MemoryStats {
    /// How many documents there are.
    pub documents: usize,
    /// The size of all texts.
    pub original: u128,
    /// The size of all compressed data.
    pub compressed: u128,
    /// For each document the size of its compressed data and of its text.
    pub sizes: Vec<(usize, usize)>,
    /// How many documents have results.
    pub cached_results: usize,
}

/// Whether `sizes` holds, for each of the documents once, the size of its compressed data and
/// of its text.
pub open spec fn lists_sizes(
    sizes: Seq<(usize, usize)>,
    documents: Map<Seq<char>, DocumentView>,
) -> bool {
    exists|order: Seq<Seq<char>>| #[trigger] lists_sizes_in(sizes, documents, order)
}

/// Whether `sizes` holds the sizes of the documents in the order of the addresses `order`.
pub open spec fn lists_sizes_in(
    sizes: Seq<(usize, usize)>,
    documents: Map<Seq<char>, DocumentView>,
    order: Seq<Seq<char>>,
) -> bool {
    &&& order.no_duplicates()
    &&& order.to_set() == documents.dom()
    &&& sizes.len() == order.len()
    &&& forall|i: int|
        0 <= i < order.len() ==> {
            let document = documents[#[trigger] order[i]];
            sizes[i].0 == document.data.len() && sizes[i].1 == document.original_size
        }
}

/// How often the sizes are logged where `n` documents are held: once at every multiple of
/// 25, and once at every multiple of 10.
pub open spec fn reports_due(n: nat) -> nat {
    (if n % 25 == 0 {
        1nat
    } else {
        0
    }) + (if n % 10 == 0 {
        1nat
    } else {
        0
    })
}

/// What the server remembers between messages.
pub struct PhpmdLanguageServer {
    open_docs: UriMap<CompressedDocument>,
    results_cache: UriMap<CachedResults>,
    total_memory_usage: usize,
    rulesets: Option<String>,
    phpmd_path: Option<String>,
    workspace_root: Option<std::path::PathBuf>,
    generation: u64,
}

/// What a document holds.
spec fn document_view() -> spec_fn(CompressedDocument) -> DocumentView {
    |document: CompressedDocument| document@
}

/// What results hold.
spec fn results_view() -> spec_fn(CachedResults) -> ResultsView {
    |results: CachedResults| results@
}

/// Adding to a counter that starts again at 0.
proof fn lemma_counter_add(a: usize, b: usize)
    ensures
        a.wrapping_add(b) == wrapped(a + b),
{
    let m = usize::MAX + 1;
    if a + b > usize::MAX {
        lemma_mod_sub_multiples_vanish(a + b, m);
        lemma_small_mod((a + b - m) as nat, m as nat);
    } else {
        lemma_small_mod((a + b) as nat, m as nat);
    }
}

/// Subtracting from a counter that starts again at 0.
proof fn lemma_counter_sub(a: usize, b: usize)
    ensures
        a.wrapping_sub(b) == wrapped(a - b),
{
    let m = usize::MAX + 1;
    if a < b {
        lemma_mod_add_multiples_vanish(a - b, m);
        lemma_small_mod((a - b + m) as nat, m as nat);
    } else {
        lemma_small_mod((a - b) as nat, m as nat);
    }
}

/// What a list of documents holds, by their addresses.
spec fn documents_in(list: Seq<(String, CompressedDocument)>) -> Map<Seq<char>, DocumentView> {
    map_of(list).map_values(document_view())
}

/// How the sums over a list of documents grow with the next one.
proof fn lemma_documents_grow(list: Seq<(String, CompressedDocument)>, i: int)
    requires
        distinct(list),
        0 <= i < list.len(),
        documents_in(list.take(i)).dom().finite(),
    ensures
        documents_in(list.take(i + 1)).dom().finite(),
        forall|size: spec_fn(DocumentView) -> nat| #[trigger]
            size_sum(documents_in(list.take(i + 1)), size) == size(list[i].1@) + size_sum(
                documents_in(list.take(i)),
                size,
            ),
{
    let before = list.take(i);
    let after = list.take(i + 1);
    let uri = list[i].0@;
    assert(after.drop_last() =~= before);
    lemma_map_of(before);
    if map_of(before).contains_key(uri) {
        let j = choose|j: int| 0 <= j < before.len() && (#[trigger] before[j]).0@ == uri;
        assert(list[j].0@ == uri);
    }
    assert(documents_in(after) =~= documents_in(before).insert(uri, list[i].1@));
    assert(documents_in(before).remove(uri) =~= documents_in(before));
    assert forall|size: spec_fn(DocumentView) -> nat| #[trigger]
        size_sum(documents_in(after), size) == size(list[i].1@) + size_sum(
            documents_in(before),
            size,
        ) by {
        lemma_size_sum_insert(documents_in(before), size, uri, list[i].1@);
    }
}

impl PhpmdLanguageServer {
    /// What the server remembers.
    pub closed spec fn view(&self) -> ServerView {
        ServerView {
            documents: self.open_docs@.map_values(document_view()),
            results: self.results_cache@.map_values(results_view()),
            memory: self.total_memory_usage as int,
            rulesets: text_of(self.rulesets),
            phpmd_path: text_of(self.phpmd_path),
            workspace_root: self.workspace_root,
            generation: self.generation,
        }
    }

    /// No document is held twice, nor are results, and every document can be read back.
    #[verifier::type_invariant]
    spec fn well_formed(self) -> bool {
        &&& self.open_docs.wf()
        &&& self.results_cache.wf()
        &&& forall|uri: Seq<char>| #[trigger]
            self.open_docs@.contains_key(uri) ==> self.open_docs@[uri]@.intact()
    }

    /// The invariant makes the view valid.
    proof fn lemma_valid(&self)
        requires
            self.well_formed(),
        ensures
            self@.valid(),
    {
        self.open_docs.lemma_view();
        assert(self@.documents.dom() =~= self.open_docs@.dom());
    }

    /// A server that remembers nothing yet.
    pub fn new() -> (r: Self)
        ensures
            r@ == ServerView::initial(),
            r@.valid(),
    {
        let r = PhpmdLanguageServer {
            open_docs: UriMap::new(),
            results_cache: UriMap::new(),
            total_memory_usage: 0,
            rulesets: None,
            phpmd_path: None,
            workspace_root: None,
            generation: 0,
        };
        proof {
            r.lemma_valid();
            assert(r@ =~= ServerView::initial());
        }
        r
    }

    /// Puts a document in.
    fn put_document(&mut self, uri: String, document: CompressedDocument)
        requires
            document@.intact(),
        ensures
            final(self)@ == (ServerView {
                documents: old(self)@.documents.insert(uri@, document@),
                ..old(self)@
            }),
    {
        proof {
            use_type_invariant(&*self);
        }
        let mut docs: UriMap<CompressedDocument> = UriMap::new();
        std::mem::swap(&mut docs, &mut self.open_docs);
        docs.insert(uri, document);
        self.open_docs = docs;
        assert(self@ =~= (ServerView {
            documents: old(self)@.documents.insert(uri@, document@),
            ..old(self)@
        }));
    }

    /// Takes a document out.
    fn take_document(&mut self, uri: &str) -> (r: Option<CompressedDocument>)
        ensures
            final(self)@ == (ServerView {
                documents: old(self)@.documents.remove(uri@),
                ..old(self)@
            }),
            match r {
                Some(document) => old(self)@.documents.contains_key(uri@) && document@ == old(
                    self,
                )@.documents[uri@],
                None => !old(self)@.documents.contains_key(uri@),
            },
    {
        proof {
            use_type_invariant(&*self);
        }
        let mut docs: UriMap<CompressedDocument> = UriMap::new();
        std::mem::swap(&mut docs, &mut self.open_docs);
        let r = docs.remove(uri);
        self.open_docs = docs;
        assert(self@ =~= (ServerView {
            documents: old(self)@.documents.remove(uri@),
            ..old(self)@
        }));
        r
    }

    /// Keeps the results for a document.
    fn put_results(&mut self, uri: String, results: CachedResults)
        ensures
            final(self)@ == (ServerView {
                results: old(self)@.results.insert(uri@, results@),
                ..old(self)@
            }),
    {
        proof {
            use_type_invariant(&*self);
        }
        let mut cache: UriMap<CachedResults> = UriMap::new();
        std::mem::swap(&mut cache, &mut self.results_cache);
        cache.insert(uri, results);
        self.results_cache = cache;
        assert(self@ =~= (ServerView {
            results: old(self)@.results.insert(uri@, results@),
            ..old(self)@
        }));
    }

    /// Drops the results for a document.
    fn drop_results(&mut self, uri: &str)
        ensures
            final(self)@ == (ServerView {
                results: old(self)@.results.remove(uri@),
                ..old(self)@
            }),
    {
        proof {
            use_type_invariant(&*self);
        }
        let mut cache: UriMap<CachedResults> = UriMap::new();
        std::mem::swap(&mut cache, &mut self.results_cache);
        let _ = cache.remove(uri);
        self.results_cache = cache;
        assert(self@ =~= (ServerView {
            results: old(self)@.results.remove(uri@),
            ..old(self)@
        }));
    }

    /// Adds to the tracked size.
    fn count_up(&mut self, size: usize)
        ensures
            final(self)@ == (ServerView {
                memory: wrapped(old(self)@.memory + size),
                ..old(self)@
            }),
    {
        proof {
            use_type_invariant(&*self);
            lemma_counter_add(self.total_memory_usage, size);
        }
        self.total_memory_usage = self.total_memory_usage.wrapping_add(size);
    }

    /// Subtracts from the tracked size.
    fn count_down(&mut self, size: usize)
        ensures
            final(self)@ == (ServerView {
                memory: wrapped(old(self)@.memory - size),
                ..old(self)@
            }),
    {
        proof {
            use_type_invariant(&*self);
            lemma_counter_sub(self.total_memory_usage, size);
        }
        self.total_memory_usage = self.total_memory_usage.wrapping_sub(size);
    }

    /// The size of a document's compressed data.
    fn document_size(&self, uri: &str) -> (r: Option<usize>)
        ensures
            match r {
                Some(size) => self@.documents.contains_key(uri@) && size
                    == self@.documents[uri@].data.len(),
                None => !self@.documents.contains_key(uri@),
            },
    {
        proof {
            use_type_invariant(self);
        }
        match self.open_docs.get(uri) {
            Some(document) => Some(document.compressed_data.len()),
            None => None,
        }
    }

    /// The checksum of a document.
    pub fn document_checksum(&self, uri: &str) -> (r: Option<String>)
        ensures
            match r {
                Some(checksum) => self@.documents.contains_key(uri@) && checksum@
                    == self@.documents[uri@].checksum,
                None => !self@.documents.contains_key(uri@),
            },
    {
        proof {
            use_type_invariant(self);
        }
        match self.open_docs.get(uri) {
            Some(document) => Some(document.checksum.clone()),
            None => None,
        }
    }

    /// The text of a document.
    pub fn document_text(&self, uri: &str) -> (r: Option<String>)
        ensures
            text_of(r) == self@.text(uri@),
    {
        proof {
            use_type_invariant(self);
        }
        match self.open_docs.get(uri) {
            Some(document) => match decompress_document(document) {
                Ok(text) => Some(text),
                Err(_) => None,
            },
            None => None,
        }
    }

    /// A document was opened.
    pub fn did_open(&mut self, uri: String, text: &str)
        requires
            compressible(byte_len(text@)),
        ensures
            final(self)@.documents.contains_key(uri@),
            final(self)@.documents[uri@].holds(text@),
            final(self)@ == old(self)@.opened(uri@, final(self)@.documents[uri@]),
            final(self)@.valid(),
    {
        let key = uri.clone();
        self.load(uri, text);
        self.drop_results(key.as_str());
        proof {
            use_type_invariant(&*self);
            self.lemma_valid();
        }
    }

    /// Puts a document in, and counts it.
    fn load(&mut self, uri: String, text: &str)
        requires
            compressible(byte_len(text@)),
        ensures
            final(self)@.documents.contains_key(uri@),
            final(self)@.documents[uri@].holds(text@),
            final(self)@ == old(self)@.loaded(uri@, final(self)@.documents[uri@]),
    {
        let document = compress_document(text);
        self.count_up(document.compressed_data.len());
        self.put_document(uri, document);
    }

    /// A document was changed. Each of the changes holds the whole text, and the first one
    /// counts; without any, nothing changes.
    pub fn did_change(&mut self, uri: String, changes: &Vec<String>)
        requires
            changes@.len() > 0 ==> compressible(byte_len(changes@[0]@)),
        ensures
            changes@.len() == 0 ==> final(self)@ == old(self)@,
            changes@.len() > 0 ==> {
                &&& final(self)@.documents.contains_key(uri@)
                &&& final(self)@.documents[uri@].holds(changes@[0]@)
                &&& final(self)@ == old(self)@.changed(uri@, final(self)@.documents[uri@])
            },
            final(self)@.valid(),
    {
        if changes.len() > 0 {
            if let Some(size) = self.document_size(uri.as_str()) {
                self.count_down(size);
            } else {
                proof {
                    use_type_invariant(&*self);
                    lemma_small_mod(self.total_memory_usage as nat, (usize::MAX + 1) as nat);
                }
            }
            assert(self@ =~= (ServerView {
                memory: wrapped(old(self)@.memory - old(self)@.held_size(uri@)),
                ..old(self)@
            }));
            self.did_open(uri, changes[0].as_str());
        }
        proof {
            use_type_invariant(&*self);
            self.lemma_valid();
        }
    }

    /// A document was closed. The result is the size that its compressed data had.
    pub fn did_close(&mut self, uri: &str) -> (r: Option<usize>)
        ensures
            final(self)@ == old(self)@.closed(uri@),
            match r {
                Some(size) => old(self)@.documents.contains_key(uri@) && size == old(
                    self,
                )@.documents[uri@].data.len(),
                None => !old(self)@.documents.contains_key(uri@),
            },
            final(self)@.valid(),
    {
        let r = match self.take_document(uri) {
            Some(document) => {
                let size: usize = document.compressed_data.len();
                self.count_down(size);
                Some(size)
            },
            None => {
                proof {
                    use_type_invariant(&*self);
                    lemma_small_mod(self.total_memory_usage as nat, (usize::MAX + 1) as nat);
                }
                None
            },
        };
        self.drop_results(uri);
        proof {
            use_type_invariant(&*self);
            self.lemma_valid();
            assert(self@ =~= old(self)@.closed(uri@));
        }
        r
    }

    /// The server is shut down.
    pub fn shutdown(&mut self)
        ensures
            final(self)@ == old(self)@.stopped(),
            final(self)@.valid(),
    {
        proof {
            use_type_invariant(&*self);
        }
        self.open_docs = UriMap::new();
        self.results_cache = UriMap::new();
        self.total_memory_usage = 0;
        proof {
            self.lemma_valid();
            assert(self@ =~= old(self)@.stopped());
        }
    }

    /// The folders of the workspace changed.
    pub fn did_change_workspace_folders(&mut self)
        ensures
            final(self)@ == old(self)@.moved(),
            final(self)@.valid(),
    {
        proof {
            use_type_invariant(&*self);
        }
        self.phpmd_path = None;
        self.results_cache = UriMap::new();
        self.generation = self.generation.wrapping_add(1);
        proof {
            self.lemma_valid();
            assert(self@ =~= old(self)@.moved());
        }
    }

    /// The configuration changed to `settings`, in which `section` is the section for PHPMD.
    pub fn did_change_configuration(&mut self, settings: &Json, section: Option<PhpmdSettings>)
        ensures
            final(self)@ == old(self)@.reconfigured(
                match section {
                    Some(s) => text_of(s.rulesets),
                    None => None,
                },
                settings@.member_text("rulesets"@),
            ),
            final(self)@.valid(),
    {
        self.did_change_workspace_folders();
        proof {
            use_type_invariant(&*self);
        }
        if let Some(names) = settings.member_text("rulesets") {
            self.rulesets = Some(names);
        } else if let Some(PhpmdSettings { rulesets: Some(names) }) = section {
            self.rulesets = Some(names);
        }
        proof {
            self.lemma_valid();
        }
    }

    /// The server is started in a workspace with the root `root`, with the options that the
    /// editor gives, where the root holds the configuration files `files`.
    pub fn initialize(
        &mut self,
        root: Option<std::path::PathBuf>,
        options: Option<InitializationOptions>,
        files: &Vec<ConfigFile>,
    )
        ensures
            final(self)@ == old(self)@.initialized(
                root,
                named_rulesets(options),
                config_views(files@),
            ),
            final(self)@.workspace_root == root,
            final(self)@.rulesets is Some,
            final(self)@.valid(),
    {
        proof {
            use_type_invariant(&*self);
        }
        let rulesets = match options {
            Some(InitializationOptions { rulesets: Some(names) }) => names,
            _ => if root.is_some() {
                rulesets_in(files)
            } else {
                all_rulesets()
            },
        };
        self.workspace_root = root;
        self.rulesets = Some(rulesets);
        proof {
            self.lemma_valid();
        }
    }

    /// The root of the workspace.
    pub fn workspace_root(&self) -> (r: &Option<std::path::PathBuf>)
        ensures
            *r == self@.workspace_root,
    {
        &self.workspace_root
    }

    /// Finds the root of a project. `found` tells, for the directory of a file and each one
    /// above it, which of the markers stand in it.
    pub fn find_project_root(&self, found: &Vec<Vec<bool>>) -> (r: ProjectRoot)
        ensures
            r == project_root(found_views(found@), self@.workspace_root is Some),
    {
        find_project_root(found, self.workspace_root.is_some())
    }

    /// Takes the rule sets from the configuration files of a project.
    pub fn discover_rulesets(&mut self, files: &Vec<ConfigFile>)
        ensures
            final(self)@ == old(self)@.with_discovered(config_views(files@)),
            final(self)@.valid(),
    {
        proof {
            use_type_invariant(&*self);
        }
        self.rulesets = Some(rulesets_in(files));
        proof {
            self.lemma_valid();
        }
    }

    /// Whether to look for configuration files before an analysis.
    pub fn needs_discovery(&self) -> (r: bool)
        ensures
            r == discovery_due(self@.rulesets),
    {
        should_discover(&self.rulesets)
    }

    /// Prepares an analysis in a project with the configuration files `files`.
    pub fn prepare_rulesets(&mut self, files: &Vec<ConfigFile>)
        ensures
            final(self)@ == old(self)@.prepared(config_views(files@)),
            final(self)@.valid(),
    {
        if self.needs_discovery() {
            self.discover_rulesets(files);
        }
        proof {
            use_type_invariant(&*self);
            self.lemma_valid();
        }
    }

    /// The rule sets.
    pub fn rulesets(&self) -> (r: Option<String>)
        ensures
            text_of(r) == self@.rulesets,
    {
        copy_text(&self.rulesets)
    }

    /// The executable of PHPMD, where it was found before.
    pub fn cached_phpmd_path(&self) -> (r: Option<String>)
        ensures
            text_of(r) == self@.phpmd_path,
    {
        copy_text(&self.phpmd_path)
    }

    /// The executable of PHPMD: the one that was found before, else the best of `locations`.
    pub fn get_phpmd_path(&mut self, locations: PhpmdLocations) -> (r: String)
        ensures
            final(self)@ == old(self)@.located(
                text_of(locations.project),
                text_of(locations.bundled),
            ),
            final(self)@.phpmd_path == Some(r@),
            r@ == match old(self)@.phpmd_path {
                Some(path) => path,
                None => old(self)@.best_executable(
                    text_of(locations.project),
                    text_of(locations.bundled),
                ),
            },
            final(self)@.valid(),
    {
        proof {
            use_type_invariant(&*self);
            self.lemma_valid();
        }
        if let Some(path) = &self.phpmd_path {
            return path.clone();
        }
        let project = if self.workspace_root.is_some() { locations.project } else { None };
        let path = choose_phpmd(PhpmdLocations { project, bundled: locations.bundled });
        self.phpmd_path = Some(path.clone());
        proof {
            self.lemma_valid();
        }
        path
    }

    /// The call of PHPMD for an analysis.
    pub fn analysis_command(&self, phpmd_path: &str) -> (r: PhpmdCommand)
        ensures
            r.program@ == program_for(phpmd_path@),
            texts(r.args_before_file@) == args_before(phpmd_path@),
            texts(r.args_after_file@) == args_after(self@.rulesets),
    {
        phpmd_command(phpmd_path, &self.rulesets)
    }

    /// Prepares an analysis with the executable `phpmd_path`, in a project with the
    /// configuration files `files`.
    pub fn prepare_analysis(&mut self, phpmd_path: &str, files: &Vec<ConfigFile>) -> (r:
        AnalysisPlan)
        ensures
            final(self)@ == old(self)@.prepared(config_views(files@)),
            r.command.program@ == program_for(phpmd_path@),
            texts(r.command.args_before_file@) == args_before(phpmd_path@),
            texts(r.command.args_after_file@) == args_after(final(self)@.rulesets),
            exists|id: Seq<char>|
                is_random_uuid(id) && r.temp_file_name@ == #[trigger] temp_file_for(id),
            final(self)@.valid(),
    {
        self.prepare_rulesets(files);
        AnalysisPlan {
            command: self.analysis_command(phpmd_path),
            temp_file_name: new_temp_file_name(),
        }
    }

    /// The tracked size of the compressed documents.
    pub fn total_memory_usage(&self) -> (r: usize)
        ensures
            r == self@.memory,
    {
        self.total_memory_usage
    }

    /// The sizes of the documents that are held.
    pub fn memory_stats(&self) -> (r: MemoryStats)
        ensures
            r.documents == self@.documents.dom().len(),
            r.original == size_sum(self@.documents, original_size()),
            r.compressed == size_sum(self@.documents, compressed_size()),
            lists_sizes(r.sizes@, self@.documents),
            r.cached_results == self@.results.dom().len(),
    {
        proof {
            use_type_invariant(self);
            self.open_docs.lemma_view();
            self.results_cache.lemma_view();
        }
        let ghost list = self.open_docs.list();
        let documents: usize = self.open_docs.len();
        let mut original: u128 = 0;
        let mut compressed: u128 = 0;
        let mut sizes: Vec<(usize, usize)> = Vec::new();
        let mut i: usize = 0;
        assert(documents_in(list.take(0)) =~= Map::empty());
        while i < documents
            invariant
                i <= documents,
                documents == list.len(),
                list == self.open_docs.list(),
                distinct(list),
                documents_in(list.take(i as int)).dom().finite(),
                original == size_sum(documents_in(list.take(i as int)), original_size()),
                compressed == size_sum(documents_in(list.take(i as int)), compressed_size()),
                original <= i * usize::MAX,
                compressed <= i * usize::MAX,
                sizes@.len() == i,
                forall|j: int|
                    0 <= j < i ==> (#[trigger] sizes@[j]).0 == list[j].1@.data.len() && sizes@[j].1
                        == list[j].1@.original_size,
            decreases documents - i,
        {
            let document = self.open_docs.value_at(i);
            proof {
                lemma_documents_grow(list, i as int);
                assert(i * usize::MAX + usize::MAX == (i + 1) * usize::MAX <= u128::MAX)
                    by (nonlinear_arith)
                    requires
                        i < usize::MAX <= u64::MAX,
                ;
            }
            original = original + document.original_size as u128;
            compressed = compressed + document.compressed_data.len() as u128;
            sizes.push((document.compressed_data.len(), document.original_size));
            i = i + 1;
        }
        proof {
            assert(list.take(i as int) =~= list);
            assert(self@.documents =~= documents_in(list));
            assert(self@.documents.dom() =~= self.open_docs@.dom());
            assert(self@.results.dom() =~= self.results_cache@.dom());
            lemma_map_of(list);
            let order = Seq::new(list.len(), |j: int| list[j].0@);
            assert forall|k: Seq<char>|
                order.to_set().contains(k) <==> self@.documents.dom().contains(k) by {
                if self@.documents.dom().contains(k) {
                    let j = choose|j: int| 0 <= j < list.len() && (#[trigger] list[j]).0@ == k;
                    assert(order[j] == k);
                }
                if order.contains(k) {
                    let j = choose|j: int| 0 <= j < order.len() && order[j] == k;
                    assert(list[j].0@ == k);
                }
            }
            assert(order.to_set() =~= self@.documents.dom());
            assert forall|j: int| 0 <= j < order.len() implies {
                let document = self@.documents[#[trigger] order[j]];
                sizes@[j].0 == document.data.len() && sizes@[j].1 == document.original_size
            } by {
                assert(map_of(list)[list[j].0@] == list[j].1);
                assert(sizes@[j].0 == list[j].1@.data.len());
            }
            assert(lists_sizes_in(sizes@, self@.documents, order));
        }
        MemoryStats {
            documents,
            original,
            compressed,
            sizes,
            cached_results: self.results_cache.len(),
        }
    }

    /// How often the sizes are logged after a document was opened.
    pub fn memory_reports_due(&self) -> (r: usize)
        ensures
            r == reports_due(self@.documents.dom().len()),
    {
        proof {
            use_type_invariant(self);
            assert(self@.documents.dom() =~= self.open_docs@.dom());
        }
        let n: usize = self.open_docs.len();
        let at_25: usize = if n % 25 == 0 { 1 } else { 0 };
        let at_10: usize = if n % 10 == 0 { 1 } else { 0 };
        at_25 + at_10
    }

    /// The results for a document that were found for its present text, as far as checksums
    /// tell texts apart.
    fn current_results(&self, uri: &str) -> (r: Option<&CachedResults>)
        ensures
            match r {
                Some(results) => self@.has_current_results(uri@) && results@
                    == self@.results[uri@],
                None => !self@.has_current_results(uri@),
            },
    {
        proof {
            use_type_invariant(self);
        }
        match (self.results_cache.get(uri), self.open_docs.get(uri)) {
            (Some(results), Some(document)) => {
                if same_text(results.content_checksum.as_str(), document.checksum.as_str()) {
                    Some(results)
                } else {
                    None
                }
            },
            _ => None,
        }
    }

    /// The editor asks for the diagnostics of a document, whose file has the path `path`; it
    /// has those with the identifier `previous_result_id`.
    pub fn diagnostic(
        &mut self,
        uri: &str,
        path: Option<String>,
        previous_result_id: &Option<String>,
    ) -> (r: DiagnosticStep)
        ensures
            r@ == old(self)@.next_step(uri@, text_of(path), text_of(*previous_result_id)),
            final(self)@ == old(self)@.asked(uri@, text_of(path)),
            final(self)@.valid(),
    {
        proof {
            use_type_invariant(&*self);
            self.lemma_valid();
        }
        let file: String = match path {
            Some(file) => file,
            None => {
                return DiagnosticStep::Reply(no_diagnostics());
            },
        };
        if let Some(results) = self.current_results(uri) {
            if let Some(previous) = previous_result_id {
                if same_text(previous.as_str(), results.result_id.as_str()) {
                    return DiagnosticStep::Reply(
                        DiagnosticReport::Unchanged(results.result_id.clone()),
                    );
                }
            }
            return DiagnosticStep::Reply(
                DiagnosticReport::Full(
                    Some(results.result_id.clone()),
                    copy_diagnostics(&results.diagnostics),
                ),
            );
        }
        self.drop_results(uri);
        proof {
            use_type_invariant(&*self);
            self.lemma_valid();
        }
        match (self.document_text(uri), self.document_checksum(uri)) {
            (Some(content), Some(version_id)) => DiagnosticStep::Analyze {
                content,
                version_id,
                generation: self.generation,
            },
            _ => DiagnosticStep::ReadFile(file),
        }
    }

    /// The file of a document that is not held was read, or could not be read.
    pub fn diagnostic_from_file(&mut self, uri: &str, content: Option<String>) -> (r:
        DiagnosticStep)
        requires
            content is Some ==> compressible(byte_len(content->Some_0@)),
        ensures
            match content {
                Some(text) => {
                    &&& final(self)@.documents.contains_key(uri@)
                    &&& final(self)@.documents[uri@].holds(text@)
                    &&& final(self)@ == old(self)@.loaded(uri@, final(self)@.documents[uri@])
                    &&& r@ == StepView::Analyze(
                        text@,
                        final(self)@.documents[uri@].checksum,
                        old(self)@.generation,
                    )
                },
                None => final(self)@ == old(self)@ && r@ == StepView::Reply(empty_report()),
            },
            final(self)@.valid(),
    {
        match content {
            Some(text) => {
                self.load(uri.to_owned(), text.as_str());
                proof {
                    use_type_invariant(&*self);
                    self.lemma_valid();
                }
                match self.document_checksum(uri) {
                    Some(version_id) => DiagnosticStep::Analyze {
                        content: text,
                        version_id,
                        generation: self.generation,
                    },
                    None => DiagnosticStep::Reply(no_diagnostics()),
                }
            },
            None => {
                proof {
                    use_type_invariant(&*self);
                    self.lemma_valid();
                }
                DiagnosticStep::Reply(no_diagnostics())
            },
        }
    }

    /// The diagnostics that PHPMD's output gives for a document, placed on the lines of the
    /// text that is held.
    pub fn analysis_diagnostics(&self, uri: &str, output: &str) -> (r: Vec<Diagnostic>)
        ensures
            diagnostic_views(r@) == output_diagnostics(json_object(output@), self@.text(uri@)),
    {
        let json_output = extract_json_from_output(output);
        let content = self.document_text(uri);
        match &content {
            Some(text) => parse_phpmd_output(json_output.as_str(), Some(text.as_str())),
            None => parse_phpmd_output(json_output.as_str(), None),
        }
    }

    /// The analysis of a document that carries the identifier `version_id`, and belongs to
    /// the configuration that `generation` stands for, ended.
    pub fn diagnostic_from_analysis(
        &mut self,
        uri: &str,
        version_id: String,
        generation: u64,
        outcome: AnalysisOutcome,
    ) -> (r: DiagnosticReport)
        ensures
            match written(outcome) {
                Some(output) => {
                    let diagnostics = output_diagnostics(
                        json_object(lossy_text(output)),
                        old(self)@.text(uri@),
                    );
                    &&& r@ == ReportView::Full(Some(version_id@), diagnostics)
                    &&& final(self)@ == old(self)@.analyzed(
                        uri@,
                        version_id@,
                        generation,
                        diagnostics,
                    )
                },
                None => r@ == empty_report() && final(self)@ == old(self)@,
            },
            final(self)@.valid(),
    {
        match outcome {
            AnalysisOutcome::Output(output) => {
                let diagnostics = self.analysis_diagnostics(uri, decode_output(&output).as_str());
                if generation == self.generation {
                    let content_checksum = match self.document_size(uri) {
                        Some(_) => version_id.clone(),
                        None => "unknown".to_owned(),
                    };
                    let results = CachedResults {
                        diagnostics: copy_diagnostics(&diagnostics),
                        result_id: version_id.clone(),
                        content_checksum,
                    };
                    self.put_results(uri.to_owned(), results);
                }
                proof {
                    use_type_invariant(&*self);
                    self.lemma_valid();
                }
                DiagnosticReport::Full(Some(version_id), diagnostics)
            },
            _ => {
                proof {
                    use_type_invariant(&*self);
                    self.lemma_valid();
                }
                no_diagnostics()
            },
        }
    }
}

/// The answer where no diagnostics can be given.
pub fn no_diagnostics() -> (r: DiagnosticReport)
    ensures
        r@ == empty_report(),
{
    let items: Vec<Diagnostic> = Vec::new();
    assert(diagnostic_views(items@) =~= Seq::<DiagnosticView>::empty());
    DiagnosticReport::Full(None, items)
}

/// The sizes are logged at the multiples of 25 and at those of 10, twice where both meet.
pub proof fn law_sizes_are_logged_at_round_numbers(n: nat)
    ensures
        reports_due(50 * n) == 2,
        reports_due(50 * n + 25) == 1,
        n % 10 == 0 && n % 25 != 0 ==> reports_due(n) == 1,
        n % 10 != 0 && n % 25 != 0 ==> reports_due(n) == 0,
{
}

/// The rule sets that the editor names are just those in its options, even an empty text.
pub proof fn law_named_rulesets_are_those_of_the_options(options: InitializationOptions)
    ensures
        match options.rulesets {
            Some(names) => named_rulesets(Some(options)) == Some(names@),
            None => named_rulesets(Some(options)) is None,
        },
        named_rulesets(None) is None,
{
}

/// What a run wrote counts, even nothing; a run that failed wrote nothing that counts.
pub proof fn law_output_counts_where_the_run_ended(bytes: Vec<u8>)
    ensures
        written(AnalysisOutcome::Output(bytes)) == Some(bytes@),
        written(AnalysisOutcome::NotWritten) is None,
        written(AnalysisOutcome::NotStarted) is None,
        written(AnalysisOutcome::ProcessFailed) is None,
        written(AnalysisOutcome::TimedOut) is None,
{
}

/// A list of sizes has the size of the compressed data and of the text of every document, and
/// as many entries as there are documents.
pub proof fn law_every_size_is_listed(
    sizes: Seq<(usize, usize)>,
    documents: Map<Seq<char>, DocumentView>,
    uri: Seq<char>,
)
    requires
        lists_sizes(sizes, documents),
        documents.contains_key(uri),
    ensures
        sizes.len() == documents.dom().len(),
        exists|i: int|
            0 <= i < sizes.len() && (#[trigger] sizes[i]).0 == documents[uri].data.len()
                && sizes[i].1 == documents[uri].original_size,
{
    let order = choose|order: Seq<Seq<char>>| #[trigger]
        lists_sizes_in(sizes, documents, order);
    order.unique_seq_to_set();
    assert(order.to_set().contains(uri));
    assert(order.contains(uri));
    let i = choose|i: int| 0 <= i < order.len() && order[i] == uri;
    assert(sizes[i].0 == documents[order[i]].data.len());
}

/// An answer and a step hold what is in them.
pub proof fn law_answers_hold_what_is_in_them(
    id: String,
    known: Option<String>,
    items: Vec<Diagnostic>,
    content: String,
    generation: u64,
)
    ensures
        DiagnosticReport::Unchanged(id)@ == ReportView::Unchanged(id@),
        DiagnosticReport::Full(known, items)@ == ReportView::Full(
            text_of(known),
            diagnostic_views(items@),
        ),
        (DiagnosticStep::Analyze { content, version_id: id, generation })@ == StepView::Analyze(
            content@,
            id@,
            generation,
        ),
        DiagnosticStep::ReadFile(id)@ == StepView::ReadFile(id@),
{
}

} // verus!
