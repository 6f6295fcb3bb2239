use phpmd_lsp::document::compress_document;
use phpmd_lsp::json::parse_json;
use phpmd_lsp::server::{
    discovers_at_start, no_diagnostics, removes_temp_file, AnalysisOutcome, DiagnosticReport,
    DiagnosticStep, InitializationOptions, PhpmdLanguageServer, PhpmdSettings,
};
use phpmd_lsp::workspace::{ConfigFile, PhpmdLocations, ProjectRoot};
use std::path::PathBuf;

const FALLBACK: &str = "cleancode,codesize,controversial,design,naming,unusedcode";
const A: &str = "file:///a.php";
const B: &str = "file:///b.php";
const OUTPUT: &str = r#"Notice: x
{"files": [{"violations": [
    {"beginLine": 2, "endLine": 2, "description": "short", "rule": "ShortVariable", "priority": 1}
]}]}"#;

fn open(server: &mut PhpmdLanguageServer, uri: &str, text: &str) {
    server.did_open(uri.to_string(), text);
}

fn ask(server: &mut PhpmdLanguageServer, uri: &str, previous: Option<&str>) -> DiagnosticStep {
    let path = uri.strip_prefix("file://").map(str::to_string);
    server.diagnostic(uri, path, &previous.map(str::to_string))
}

fn begin(step: DiagnosticStep) -> (String, String, u64) {
    match step {
        DiagnosticStep::Analyze { content, version_id, generation } => {
            (content, version_id, generation)
        }
        _ => panic!("no analysis"),
    }
}

fn output() -> AnalysisOutcome {
    AnalysisOutcome::Output(OUTPUT.as_bytes().to_vec())
}

fn analyze(server: &mut PhpmdLanguageServer, uri: &str) -> String {
    let (_, version_id, generation) = begin(ask(server, uri, None));
    server.diagnostic_from_analysis(uri, version_id.clone(), generation, output());
    version_id
}

#[test]
fn texts_read_back() {
    let mut server = PhpmdLanguageServer::new();
    assert_eq!(server.document_text(A), None);
    open(&mut server, A, "<?php\n");
    open(&mut server, B, "");
    assert_eq!(server.document_text(A).as_deref(), Some("<?php\n"));
    assert_eq!(server.document_text(B).as_deref(), Some(""));
    server.did_change(A.to_string(), &vec!["new".to_string(), "ignored".to_string()]);
    assert_eq!(server.document_text(A).as_deref(), Some("new"));
    server.did_change(A.to_string(), &vec![]);
    assert_eq!(server.document_text(A).as_deref(), Some("new"));
    server.did_close(A);
    assert_eq!(server.document_text(A), None);
    assert_eq!(server.document_text(B).as_deref(), Some(""));
}

#[test]
fn memory_is_tracked() {
    let size = |text: &str| compress_document(text).compressed_data.len();
    let mut server = PhpmdLanguageServer::new();
    assert_eq!(server.total_memory_usage(), 0);
    open(&mut server, A, "one");
    open(&mut server, B, "another");
    assert_eq!(server.total_memory_usage(), size("one") + size("another"));
    server.did_change(A.to_string(), &vec!["something else".to_string()]);
    assert_eq!(server.total_memory_usage(), size("something else") + size("another"));
    assert_eq!(server.did_close(A), Some(size("something else")));
    assert_eq!(server.did_close(A), None);
    assert_eq!(server.total_memory_usage(), size("another"));
    server.did_change("file:///c.php".to_string(), &vec!["third".to_string()]);
    assert_eq!(server.total_memory_usage(), size("another") + size("third"));
    server.shutdown();
    assert_eq!(server.total_memory_usage(), 0);
    assert_eq!(server.document_text(B), None);
}

#[test]
fn opening_twice_counts_twice() {
    let size = compress_document("one").compressed_data.len();
    let mut server = PhpmdLanguageServer::new();
    open(&mut server, A, "one");
    open(&mut server, A, "one");
    assert_eq!(server.total_memory_usage(), 2 * size);
    server.did_close(A);
    assert_eq!(server.total_memory_usage(), size);
}

#[test]
fn sizes_are_summed() {
    let mut server = PhpmdLanguageServer::new();
    open(&mut server, A, "12345");
    open(&mut server, B, "123");
    analyze(&mut server, B);
    let stats = server.memory_stats();
    assert_eq!(stats.documents, 2);
    assert_eq!(stats.original, 8);
    assert_eq!(stats.compressed, server.total_memory_usage() as u128);
    assert_eq!(stats.cached_results, 1);
    let mut originals: Vec<usize> = stats.sizes.iter().map(|s| s.1).collect();
    originals.sort();
    assert_eq!(originals, [3, 5]);
}

#[test]
fn sizes_are_logged_at_round_numbers() {
    let mut server = PhpmdLanguageServer::new();
    let mut due = vec![];
    for i in 1..=50 {
        open(&mut server, &format!("file:///{i}.php"), "x");
        due.push(server.memory_reports_due());
    }
    for (i, n) in due.iter().enumerate() {
        let expected = match i + 1 {
            50 => 2,
            10 | 20 | 25 | 30 | 40 => 1,
            _ => 0,
        };
        assert_eq!(*n, expected, "{}", i + 1);
    }
}

#[test]
fn results_are_reused_for_the_same_text() {
    let mut server = PhpmdLanguageServer::new();
    open(&mut server, A, "<?php\n$x;\n");
    let (content, version_id, generation) = begin(ask(&mut server, A, None));
    assert_eq!(content, "<?php\n$x;\n");
    assert_eq!(Some(version_id.clone()), server.document_checksum(A));
    match server.diagnostic_from_analysis(A, version_id.clone(), generation, output()) {
        DiagnosticReport::Full(Some(id), items) => {
            assert_eq!(id, version_id);
            assert_eq!(items.len(), 1);
            assert_eq!(items[0].message, "short");
            assert_eq!(items[0].end.character, 3);
        }
        _ => panic!("no results"),
    }
    for _ in 0..2 {
        match ask(&mut server, A, Some("older")) {
            DiagnosticStep::Reply(DiagnosticReport::Full(Some(id), items)) => {
                assert_eq!(id, version_id);
                assert_eq!(items.len(), 1);
            }
            _ => panic!("no results"),
        }
        match ask(&mut server, A, Some(&version_id)) {
            DiagnosticStep::Reply(DiagnosticReport::Unchanged(id)) => assert_eq!(id, version_id),
            _ => panic!("no results"),
        }
    }
}

#[test]
fn changes_drop_the_results() {
    let mut server = PhpmdLanguageServer::new();
    let settings = parse_json("{}").unwrap();
    for i in 0..5 {
        open(&mut server, A, "a");
        open(&mut server, B, "b");
        analyze(&mut server, A);
        analyze(&mut server, B);
        match i {
            0 => server.did_change(A.to_string(), &vec!["a".to_string()]),
            1 => open(&mut server, A, "a"),
            2 => server.did_change_workspace_folders(),
            3 => server.did_change_configuration(&settings, None),
            _ => server.shutdown(),
        }
        assert!(!matches!(ask(&mut server, A, None), DiagnosticStep::Reply(_)), "{i}");
        let kept = matches!(ask(&mut server, B, None), DiagnosticStep::Reply(_));
        assert_eq!(kept, i < 2, "{i}");
    }
}

#[test]
fn the_same_text_has_the_same_version() {
    let mut server = PhpmdLanguageServer::new();
    open(&mut server, A, "text");
    open(&mut server, B, "text");
    assert_eq!(begin(ask(&mut server, A, None)).1, begin(ask(&mut server, B, None)).1);
    server.did_change(B.to_string(), &vec!["text ".to_string()]);
    assert_ne!(begin(ask(&mut server, A, None)).1, begin(ask(&mut server, B, None)).1);
}

#[test]
fn documents_are_read_from_their_files() {
    let mut server = PhpmdLanguageServer::new();
    let step = ask(&mut server, A, None);
    assert!(matches!(step, DiagnosticStep::ReadFile(path) if path == "/a.php"));
    let step = server.diagnostic_from_file(A, None);
    assert!(matches!(
        step,
        DiagnosticStep::Reply(DiagnosticReport::Full(None, items)) if items.is_empty()
    ));
    let (content, version_id, _) =
        begin(server.diagnostic_from_file(A, Some("from disk".to_string())));
    assert_eq!(content, "from disk");
    assert_eq!(version_id, compress_document("from disk").checksum);
    assert_eq!(server.document_text(A).as_deref(), Some("from disk"));
    assert!(server.total_memory_usage() > 0);
}

#[test]
fn failed_analyses_give_no_diagnostics() {
    let mut server = PhpmdLanguageServer::new();
    open(&mut server, A, "a");
    for outcome in [
        AnalysisOutcome::NotWritten,
        AnalysisOutcome::NotStarted,
        AnalysisOutcome::ProcessFailed,
        AnalysisOutcome::TimedOut,
    ] {
        let (_, version_id, generation) = begin(ask(&mut server, A, None));
        let report = server.diagnostic_from_analysis(A, version_id, generation, outcome);
        assert!(matches!(report, DiagnosticReport::Full(None, items) if items.is_empty()));
        assert!(matches!(ask(&mut server, A, None), DiagnosticStep::Analyze { .. }));
    }
    assert!(matches!(no_diagnostics(), DiagnosticReport::Full(None, items) if items.is_empty()));
}

#[test]
fn temporary_files_are_removed_at_the_end() {
    assert!(removes_temp_file(&AnalysisOutcome::Output(vec![])));
    assert!(removes_temp_file(&AnalysisOutcome::NotStarted));
    assert!(!removes_temp_file(&AnalysisOutcome::NotWritten));
    assert!(!removes_temp_file(&AnalysisOutcome::ProcessFailed));
    assert!(!removes_temp_file(&AnalysisOutcome::TimedOut));
}

#[test]
fn results_of_a_closed_document_are_not_given() {
    let mut server = PhpmdLanguageServer::new();
    open(&mut server, A, "a");
    let (_, version_id, generation) = begin(ask(&mut server, A, None));
    server.did_close(A);
    server.diagnostic_from_analysis(A, version_id, generation, output());
    server.diagnostic_from_file(A, Some("a".to_string()));
    assert!(matches!(ask(&mut server, A, None), DiagnosticStep::Analyze { .. }));
}

#[test]
fn a_change_during_an_analysis_is_detected() {
    let mut server = PhpmdLanguageServer::new();
    open(&mut server, A, "first");
    let (_, version_id, generation) = begin(ask(&mut server, A, None));
    server.did_change(A.to_string(), &vec!["second".to_string()]);
    match server.diagnostic_from_analysis(A, version_id.clone(), generation, output()) {
        DiagnosticReport::Full(id, items) => {
            assert_eq!(id.as_deref(), Some(version_id.as_str()));
            assert_eq!(items.len(), 1);
        }
        _ => panic!("no results"),
    }
    let (content, second, _) = begin(ask(&mut server, A, Some(&version_id)));
    assert_eq!(content, "second");
    assert_ne!(second, version_id);
    assert_eq!(server.memory_stats().cached_results, 0);
}

#[test]
fn results_for_another_file_text_are_dropped() {
    let mut server = PhpmdLanguageServer::new();
    open(&mut server, A, "first");
    analyze(&mut server, A);
    server.diagnostic_from_file(A, Some("third".to_string()));
    assert_eq!(begin(ask(&mut server, A, None)).0, "third");
}

#[test]
fn results_of_an_old_configuration_are_not_kept() {
    let settings = parse_json(r#"{"rulesets": "design"}"#).unwrap();
    for i in 0..2 {
        let mut server = PhpmdLanguageServer::new();
        open(&mut server, A, "text");
        let (_, version_id, generation) = begin(ask(&mut server, A, None));
        if i == 0 {
            server.did_change_configuration(&settings, None);
        } else {
            server.did_change_workspace_folders();
        }
        let report =
            server.diagnostic_from_analysis(A, version_id.clone(), generation, output());
        assert!(matches!(report, DiagnosticReport::Full(Some(id), _) if id == version_id));
        let (_, again, later) = begin(ask(&mut server, A, None));
        assert_eq!(again, version_id);
        assert_ne!(later, generation);
        analyze(&mut server, A);
        assert!(matches!(ask(&mut server, A, None), DiagnosticStep::Reply(_)));
    }
}

#[test]
fn addresses_without_a_file_have_no_diagnostics() {
    let mut server = PhpmdLanguageServer::new();
    open(&mut server, "untitled:1", "text");
    let step = server.diagnostic("untitled:1", None, &None);
    assert!(matches!(
        step,
        DiagnosticStep::Reply(DiagnosticReport::Full(None, items)) if items.is_empty()
    ));
    assert_eq!(server.document_text("untitled:1").as_deref(), Some("text"));
}

#[test]
fn closing_gives_back_what_opening_took() {
    let mut server = PhpmdLanguageServer::new();
    open(&mut server, B, "other");
    let before = server.total_memory_usage();
    open(&mut server, A, "one");
    for text in ["two", "", "three and more"] {
        server.did_change(A.to_string(), &vec![text.to_string()]);
    }
    server.did_close(A);
    assert_eq!(server.total_memory_usage(), before);
    assert_eq!(server.memory_stats().documents, 1);
    server.did_close(B);
    assert_eq!(server.total_memory_usage(), 0);
}

#[test]
fn output_is_read_against_the_text() {
    let mut server = PhpmdLanguageServer::new();
    open(&mut server, A, "<?php\n   $x = 1;");
    let items = server.analysis_diagnostics(A, OUTPUT);
    assert_eq!((items[0].start.line, items[0].start.character), (1, 3));
    assert_eq!((items[0].end.line, items[0].end.character), (1, 10));
    let items = server.analysis_diagnostics(B, OUTPUT);
    assert_eq!((items[0].start.character, items[0].end.character), (0, 999));
    assert!(server.analysis_diagnostics(A, "PHP is missing").is_empty());
}

fn config() -> Vec<ConfigFile> {
    vec![ConfigFile {
        path: Some("/p/phpmd.xml".to_string()),
        contents: Some("<ruleset></ruleset>".to_string()),
    }]
}

#[test]
fn named_rulesets_win_over_files() {
    let mut server = PhpmdLanguageServer::new();
    assert_eq!(server.rulesets(), None);
    let options = InitializationOptions { rulesets: Some("design".to_string()) };
    let options = Some(options);
    assert!(!discovers_at_start(&options));
    server.initialize(Some(PathBuf::from("/p")), options, &config());
    assert_eq!(server.workspace_root(), &Some(PathBuf::from("/p")));
    assert_eq!(server.rulesets().as_deref(), Some("design"));
    assert!(!server.needs_discovery());
    server.prepare_rulesets(&config());
    assert_eq!(server.rulesets().as_deref(), Some("design"));
}

#[test]
fn files_are_looked_for_until_one_is_found() {
    let mut server = PhpmdLanguageServer::new();
    let options = Some(InitializationOptions { rulesets: None });
    assert!(discovers_at_start(&options) && discovers_at_start(&None));
    server.initialize(Some(PathBuf::from("/p")), options, &vec![]);
    assert_eq!(server.rulesets().as_deref(), Some(FALLBACK));
    assert!(server.needs_discovery());
    server.prepare_rulesets(&config());
    assert_eq!(server.rulesets().as_deref(), Some("/p/phpmd.xml"));
    server.prepare_rulesets(&vec![]);
    assert_eq!(server.rulesets().as_deref(), Some("/p/phpmd.xml"));
    server.discover_rulesets(&vec![]);
    assert_eq!(server.rulesets().as_deref(), Some(FALLBACK));
    server.initialize(Some(PathBuf::from("/p")), None, &config());
    assert_eq!(server.rulesets().as_deref(), Some("/p/phpmd.xml"));
}

#[test]
fn without_a_root_all_rulesets_are_used() {
    let mut server = PhpmdLanguageServer::new();
    server.initialize(None, None, &config());
    assert_eq!(server.workspace_root(), &None);
    assert_eq!(server.rulesets().as_deref(), Some(FALLBACK));
    let options = InitializationOptions { rulesets: Some(String::new()) };
    server.initialize(None, Some(options), &vec![]);
    assert_eq!(server.rulesets().as_deref(), Some(""));
}

#[test]
fn the_root_of_the_workspace_is_the_last_resort() {
    let mut server = PhpmdLanguageServer::new();
    let unmarked = vec![vec![false; 5], vec![]];
    assert_eq!(server.find_project_root(&unmarked), ProjectRoot::Current);
    server.initialize(Some(PathBuf::from("/p")), None, &vec![]);
    assert_eq!(server.find_project_root(&unmarked), ProjectRoot::Workspace);
    assert_eq!(server.find_project_root(&vec![vec![true]]), ProjectRoot::Ancestor(0));
}

#[test]
fn settings_name_the_rulesets() {
    let mut server = PhpmdLanguageServer::new();
    let section = |names: Option<&str>| Some(PhpmdSettings { rulesets: names.map(str::to_string) });
    let both = parse_json(r#"{"rulesets": "naming", "phpmd": {"rulesets": "design"}}"#).unwrap();
    let none = parse_json(r#"{"rulesets": 7}"#).unwrap();
    server.did_change_configuration(&both, section(Some("design")));
    assert_eq!(server.rulesets().as_deref(), Some("naming"));
    server.did_change_configuration(&none, section(Some("design")));
    assert_eq!(server.rulesets().as_deref(), Some("design"));
    server.did_change_configuration(&none, section(None));
    assert_eq!(server.rulesets().as_deref(), Some("design"));
    server.did_change_configuration(&parse_json("\"rulesets\"").unwrap(), None);
    assert_eq!(server.rulesets().as_deref(), Some("design"));
    let command = server.analysis_command("phpmd");
    assert_eq!(command.args_after_file, ["json", "--error-file", "/dev/null", "design"]);
}

#[test]
fn the_executable_is_kept() {
    let locations = |path: Option<&str>| PhpmdLocations {
        project: path.map(str::to_string),
        bundled: None,
    };
    let mut server = PhpmdLanguageServer::new();
    assert_eq!(server.cached_phpmd_path(), None);
    assert_eq!(server.get_phpmd_path(locations(Some("p"))), "phpmd");
    server.initialize(Some(PathBuf::from("/p")), None, &vec![]);
    server.did_change_workspace_folders();
    assert_eq!(server.get_phpmd_path(locations(Some("p"))), "p");
    assert_eq!(server.get_phpmd_path(locations(None)), "p");
    assert_eq!(server.cached_phpmd_path().as_deref(), Some("p"));
    server.did_change_workspace_folders();
    assert_eq!(server.get_phpmd_path(locations(None)), "phpmd");
    server.did_change_configuration(&parse_json("null").unwrap(), None);
    assert_eq!(server.get_phpmd_path(locations(Some("q"))), "q");
}

#[test]
fn an_analysis_is_prepared() {
    let mut server = PhpmdLanguageServer::new();
    let plan = server.prepare_analysis("/x/phpmd.phar", &config());
    assert_eq!(plan.command.program, "php");
    assert_eq!(plan.command.args_before_file.last().map(|a| a.as_str()), Some("/x/phpmd.phar"));
    assert_eq!(plan.command.args_after_file.last().map(|a| a.as_str()), Some("/p/phpmd.xml"));
    assert!(plan.temp_file_name.starts_with("phpmd-") && plan.temp_file_name.ends_with(".php"));
    assert_eq!(server.rulesets().as_deref(), Some("/p/phpmd.xml"));
    let next = server.prepare_analysis("phpmd", &vec![]);
    assert_eq!(next.command.program, "phpmd");
    assert_eq!(next.command.args_after_file, plan.command.args_after_file);
    assert_ne!(next.temp_file_name, plan.temp_file_name);
}
