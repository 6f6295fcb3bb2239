use phpmd_lsp::range::{choose_lines, determine_columns, determine_diagnostic_range, to_zero_based};

#[test]
fn class_rules_highlight_the_first_line() {
    for rule in [
        "TooManyPublicMethods",
        "TooManyMethods",
        "TooManyFields",
        "ExcessivePublicCount",
        "ExcessiveClassComplexity",
        "ExcessiveClassLength",
        "CouplingBetweenObjects",
        "NumberOfChildren",
        "DepthOfInheritance",
        "CamelCaseClassName",
        "CamelCaseVariableName",
    ] {
        assert_eq!(determine_diagnostic_range(3, 5, rule, "", None), (3, 3), "{rule}");
    }
}

#[test]
fn method_rules_highlight_the_signature_of_long_methods() {
    for rule in [
        "CyclomaticComplexity",
        "NPathComplexity",
        "ExcessiveMethodLength",
        "ExcessiveParameterList",
        "UnusedFormalParameter",
        "ShortMethodName",
        "ConstructorWithNameAsEnclosingClass",
        "CamelCaseMethodName",
    ] {
        assert_eq!(determine_diagnostic_range(10, 15, rule, "", None), (10, 15), "{rule}");
        assert_eq!(determine_diagnostic_range(10, 16, rule, "", None), (10, 10), "{rule}");
    }
}

#[test]
fn expressions_and_variables_highlight_the_first_line() {
    for rule in [
        "ElseExpression",
        "ShortVariable",
        "LongVariable",
        "GotoStatement",
        "ExitExpression",
        "EvalExpression",
    ] {
        assert_eq!(determine_diagnostic_range(3, 4, rule, "", None), (3, 3), "{rule}");
    }
}

#[test]
fn other_rules_highlight_up_to_eleven_lines() {
    assert_eq!(determine_diagnostic_range(1, 11, "UnusedLocalVariable", "", None), (1, 11));
    assert_eq!(determine_diagnostic_range(1, 12, "UnusedLocalVariable", "", None), (1, 1));
    assert_eq!(determine_diagnostic_range(9, 2, "", "", None), (9, 2));
}

#[test]
fn the_operator_rule_follows_the_description() {
    let rule = "ErrorControlOperator";
    assert_eq!(determine_diagnostic_range(1, 90, rule, "@ on line 44.", None), (44, 44));
    assert_eq!(determine_diagnostic_range(1, 90, rule, "no line", None), (1, 1));
}

#[test]
fn property_rules_follow_the_declaration() {
    let content = "<?php\nclass A\n{\n    private $bad_name;\n}\n";
    let description = "The property $bad_name is not named in camelCase.";
    for rule in ["CamelCasePropertyName", "CamelCaseParameterName"] {
        assert_eq!(determine_diagnostic_range(2, 5, rule, description, Some(content)), (4, 4));
        assert_eq!(determine_diagnostic_range(2, 5, rule, description, None), (2, 2));
        assert_eq!(determine_diagnostic_range(2, 5, rule, "no name", Some(content)), (2, 2));
        assert_eq!(determine_diagnostic_range(2, 5, rule, "$other", Some(content)), (2, 2));
    }
}

#[test]
fn lines_are_chosen_from_what_was_found() {
    assert_eq!(choose_lines(2, 5, "CamelCasePropertyName", Some(4), None), (4, 4));
    assert_eq!(choose_lines(2, 5, "CamelCasePropertyName", None, Some(9)), (2, 2));
    assert_eq!(choose_lines(2, 5, "ErrorControlOperator", Some(4), Some(9)), (9, 9));
    assert_eq!(choose_lines(2, 5, "Anything", Some(4), Some(9)), (2, 5));
}

#[test]
fn highlights_do_not_end_before_they_begin() {
    for end in 7..40 {
        for rule in ["", "TooManyFields", "NPathComplexity", "ErrorControlOperator"] {
            let (first, last) = determine_diagnostic_range(7, end, rule, "on line 3", None);
            assert!(first <= last && last - first <= 10);
        }
    }
}

#[test]
fn columns_skip_the_indent() {
    let content = "<?php\n    $x = @f();\n\t}  \n";
    assert_eq!(determine_columns(2, 2, "ElseExpression", Some(content)), (4, 14));
    assert_eq!(determine_columns(2, 2, "ErrorControlOperator", Some(content)), (9, 14));
    assert_eq!(determine_columns(2, 3, "Any", Some(content)), (4, 4));
    assert_eq!(determine_columns(2, 9, "Any", Some(content)), (4, 999));
    assert_eq!(determine_columns(1, 0, "Any", Some(content)), (0, 5));
    assert_eq!(determine_columns(2, 0, "Any", Some(content)), (4, 999));
    assert_eq!(determine_columns(0, 0, "Any", Some(content)), (0, 999));
    assert_eq!(determine_columns(4, 4, "Any", Some(content)), (0, 999));
    assert_eq!(determine_columns(2, 2, "Any", None), (0, 999));
}

#[test]
fn lines_count_from_zero() {
    assert_eq!(to_zero_based(0), 0);
    assert_eq!(to_zero_based(1), 0);
    assert_eq!(to_zero_based(4294967295), 4294967294);
}
