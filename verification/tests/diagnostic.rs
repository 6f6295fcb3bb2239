use phpmd_lsp::diagnostic::{
    convert_violation_to_diagnostic, count_severity, diagnostic_of, diagnostics_of_report,
    page_address_of, parse_phpmd_output, read_violation, rule_page_of, severity_of, slug_of,
    DiagnosticSeverity, Position, Violation,
};
use phpmd_lsp::json::parse_json;

const VIOLATION: &str = r#"{
    "beginLine": 3,
    "endLine": 20,
    "package": null,
    "function": null,
    "class": "Some",
    "method": "run",
    "description": "The method run() has a Cyclomatic Complexity of 11.",
    "rule": "CyclomaticComplexity",
    "ruleSet": "Code Size Rules",
    "priority": 3
}"#;

#[test]
fn a_violation_becomes_a_diagnostic() {
    let content = "<?php\nclass Some {\n    function run() {\n";
    let json = parse_json(VIOLATION).unwrap();
    let d = convert_violation_to_diagnostic(&json, Some(content)).unwrap();
    assert_eq!(d.start, Position { line: 2, character: 4 });
    assert_eq!(d.end, Position { line: 2, character: 20 });
    assert_eq!(d.severity, DiagnosticSeverity::Warning);
    assert_eq!(d.code.as_deref(), Some("CyclomaticComplexity"));
    assert_eq!(
        d.code_description.as_deref(),
        Some("https://phpmd.org/rules/codesize.html#cyclomaticcomplexity")
    );
    assert_eq!(d.source, "phpmd");
    assert_eq!(d.message, "The method run() has a Cyclomatic Complexity of 11.");
    assert_eq!(d.data.rule_set, "Code Size Rules");
    assert_eq!(d.data.priority, 3);
    assert_eq!(d.data.class.as_ref().and_then(|c| c.text()).map(|t| t.as_str()), Some("Some"));
    assert!(d.data.function.is_some());
}

#[test]
fn without_the_text_the_columns_are_open() {
    let json = parse_json(VIOLATION).unwrap();
    let d = convert_violation_to_diagnostic(&json, None).unwrap();
    assert_eq!(d.start, Position { line: 2, character: 0 });
    assert_eq!(d.end, Position { line: 2, character: 999 });
}

#[test]
fn missing_members_have_defaults() {
    let json = parse_json(r#"{"beginLine": 4, "description": "d", "rule": 7}"#).unwrap();
    let v = read_violation(&json).unwrap();
    assert_eq!((v.begin_line, v.end_line, v.priority), (4, 4, 3));
    assert_eq!((v.rule.as_str(), v.rule_set.as_str()), ("", ""));
    assert!(v.class.is_none() && v.method.is_none() && v.function.is_none());
    let d = convert_violation_to_diagnostic(&json, None).unwrap();
    assert!(d.code.is_none() && d.code_description.is_none());
}

#[test]
fn required_members_are_required() {
    for text in [
        r#"{"description": "d", "rule": "r"}"#,
        r#"{"beginLine": "4", "description": "d", "rule": "r"}"#,
        r#"{"beginLine": -4, "description": "d", "rule": "r"}"#,
        r#"{"beginLine": 4, "rule": "r"}"#,
        r#"{"beginLine": 4, "description": 1, "rule": "r"}"#,
        r#"{"beginLine": 4, "description": "d"}"#,
        "[]",
        "null",
    ] {
        assert!(convert_violation_to_diagnostic(&parse_json(text).unwrap(), None).is_none());
    }
}

#[test]
fn line_numbers_keep_their_low_bits() {
    let text = r#"{"beginLine": 4294967297, "endLine": 4294967298, "description": "", "rule": ""}"#;
    let v = read_violation(&parse_json(text).unwrap()).unwrap();
    assert_eq!((v.begin_line, v.end_line), (1, 2));
}

#[test]
fn priorities_map_to_severities() {
    assert_eq!(severity_of(1), DiagnosticSeverity::Error);
    assert_eq!(severity_of(2), DiagnosticSeverity::Error);
    assert_eq!(severity_of(3), DiagnosticSeverity::Warning);
    assert_eq!(severity_of(4), DiagnosticSeverity::Warning);
    assert_eq!(severity_of(5), DiagnosticSeverity::Information);
    assert_eq!(severity_of(0), DiagnosticSeverity::Information);
    assert_eq!(severity_of(u64::MAX), DiagnosticSeverity::Information);
}

#[test]
fn slugs_lose_spaces_and_the_word_rules() {
    assert_eq!(slug_of("code size rules"), "codesize");
    assert_eq!(slug_of("clean code rules"), "cleancode");
    assert_eq!(slug_of("rules rules"), "");
    assert_eq!(slug_of("unused code"), "unusedcode");
    assert_eq!(slug_of("rulesrule"), "rulesrule");
}

#[test]
fn addresses_name_the_rule() {
    assert_eq!(
        page_address_of("design rules", Some("gotostatement")),
        "https://phpmd.org/rules/design.html#gotostatement"
    );
    assert_eq!(page_address_of("design rules", None), "https://phpmd.org/rules/design.html");
}

#[test]
fn addresses_are_brought_into_normal_form() {
    assert_eq!(rule_page_of("", "X"), Ok(None));
    assert_eq!(
        rule_page_of("Naming Rules", "ShortVariable"),
        Ok(Some("https://phpmd.org/rules/naming.html#shortvariable".to_string()))
    );
    assert_eq!(
        rule_page_of("Clean Code Rules", ""),
        Ok(Some("https://phpmd.org/rules/cleancode.html".to_string()))
    );
    assert_eq!(
        rule_page_of("a/../b", ""),
        Ok(Some("https://phpmd.org/rules/b.html".to_string()))
    );
    assert_eq!(
        rule_page_of("\u{c9}t\u{e9}", "\u{c0}"),
        Ok(Some("https://phpmd.org/rules/%C3%A9t%C3%A9.html#%C3%A0".to_string()))
    );
}

#[test]
fn a_given_page_is_shown() {
    let v = Violation {
        begin_line: 0,
        end_line: 0,
        description: "d".to_string(),
        rule: "R".to_string(),
        rule_set: "S".to_string(),
        priority: 1,
        class: None,
        method: None,
        function: None,
    };
    let d = diagnostic_of(v, Some("x"), Some("page".to_string()));
    assert_eq!(d.code_description.as_deref(), Some("page"));
    assert_eq!(d.start, Position { line: 0, character: 0 });
    assert_eq!(d.end, Position { line: 0, character: 999 });
    assert_eq!(d.clone().message, "d");
}

fn violation(line: u32, priority: u32) -> String {
    format!(
        r#"{{"beginLine": {line}, "description": "d{line}", "rule": "r", "priority": {priority}}}"#
    )
}

#[test]
fn reports_keep_the_order() {
    let report = format!(
        r#"{{"files": [{{"file": "a", "violations": [{}, 7, {}]}}, {{"file": "b"}}, {{"violations": [{}]}}]}}"#,
        violation(9, 1),
        violation(2, 3),
        violation(5, 5)
    );
    let diagnostics = parse_phpmd_output(&report, None);
    let messages: Vec<&str> = diagnostics.iter().map(|d| d.message.as_str()).collect();
    assert_eq!(messages, ["d9", "d2", "d5"]);
    assert_eq!(count_severity(&diagnostics, DiagnosticSeverity::Error), 1);
    assert_eq!(count_severity(&diagnostics, DiagnosticSeverity::Warning), 1);
    assert_eq!(count_severity(&diagnostics, DiagnosticSeverity::Information), 1);
    let again = diagnostics_of_report(&parse_json(&report).unwrap(), None);
    assert_eq!(again.len(), 3);
}

#[test]
fn other_output_gives_no_diagnostics() {
    for output in ["", " \n\t", "no json", "{}", r#"{"files": {}}"#, r#"{"files": []}"#, "[]"] {
        assert!(parse_phpmd_output(output, None).is_empty());
    }
}
