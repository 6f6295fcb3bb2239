//! Which lines and columns of a document a violation highlights.
//!
//! PHPMD reports many rules with the lines of a whole class or method. Highlighting those
//! would hide the place that the rule is about.
use crate::marker::{
    described_line, error_control_operator_start_char, indent, indent_of,
    law_indent_is_the_white_space_in_front, law_operator_column_is_that_of_the_sign, line_number,
    marked_digits, operator_column, operator_lines, parse_line_from_description, plain_markers,
};
use crate::property::{described_property, find_property_line, property_line, property_name_of};
use crate::text::{
    blank, byte_len, is_whitespace, leading, lemma_encode_concat, lemma_leading, lines, other_than,
    same_text, split_lines, texts,
};
use vstd::prelude::*;

verus! {

/// Rules on properties, which PHPMD reports with the lines of the class.
pub open spec fn is_property_rule(rule: Seq<char>) -> bool {
    rule == "CamelCasePropertyName"@ || rule == "CamelCaseParameterName"@
}

/// Rules on a class as a whole.
pub open spec fn is_class_rule(rule: Seq<char>) -> bool {
    ||| rule == "TooManyPublicMethods"@
    ||| rule == "TooManyMethods"@
    ||| rule == "TooManyFields"@
    ||| rule == "ExcessivePublicCount"@
    ||| rule == "ExcessiveClassComplexity"@
    ||| rule == "ExcessiveClassLength"@
    ||| rule == "CouplingBetweenObjects"@
    ||| rule == "NumberOfChildren"@
    ||| rule == "DepthOfInheritance"@
    ||| rule == "CamelCaseClassName"@
    ||| rule == "CamelCasePropertyName"@
    ||| rule == "CamelCaseParameterName"@
    ||| rule == "CamelCaseVariableName"@
}

/// Rules on a method as a whole.
pub open spec fn is_method_rule(rule: Seq<char>) -> bool {
    ||| rule == "CyclomaticComplexity"@
    ||| rule == "NPathComplexity"@
    ||| rule == "ExcessiveMethodLength"@
    ||| rule == "ExcessiveParameterList"@
    ||| rule == "UnusedFormalParameter"@
    ||| rule == "ShortMethodName"@
    ||| rule == "ConstructorWithNameAsEnclosingClass"@
    ||| rule == "CamelCaseMethodName"@
}

/// Rules on something that stands on the first reported line.
pub open spec fn is_single_line_rule(rule: Seq<char>) -> bool {
    ||| rule == "ElseExpression"@
    ||| rule == "ShortVariable"@
    ||| rule == "LongVariable"@
    ||| rule == "GotoStatement"@
    ||| rule == "ExitExpression"@
    ||| rule == "EvalExpression"@
}

/// The rule on the error control operator `@`.
pub open spec fn is_operator_rule(rule: Seq<char>) -> bool {
    rule == "ErrorControlOperator"@
}

/// The lines that a violation highlights, where `declared` is the line that declares the
/// property it is about and `described` is the line that its description gives.
pub open spec fn lines_for(
    begin_line: u32,
    end_line: u32,
    rule: Seq<char>,
    declared: Option<u32>,
    described: Option<u32>,
) -> (u32, u32) {
    let first = (begin_line, begin_line);
    if is_property_rule(rule) {
        match declared {
            Some(line) => (line, line),
            None => first,
        }
    } else if is_class_rule(rule) {
        first
    } else if is_method_rule(rule) && end_line - begin_line > 5 {
        first
    } else if is_single_line_rule(rule) {
        first
    } else if is_operator_rule(rule) {
        operator_lines(described, begin_line)
    } else if end_line - begin_line > 10 {
        first
    } else {
        (begin_line, end_line)
    }
}

/// The line of `content` that declares the property that a description names.
pub open spec fn declared_line(
    description: Seq<char>,
    content: Option<Seq<char>>,
) -> Option<u32> {
    match (described_property(description), content) {
        (Some(name), Some(text)) => property_line(name, text),
        _ => None,
    }
}

/// The lines that a violation highlights in a document with the text `content`.
pub open spec fn highlighted_lines(
    begin_line: u32,
    end_line: u32,
    rule: Seq<char>,
    description: Seq<char>,
    content: Option<Seq<char>>,
) -> (u32, u32) {
    lines_for(
        begin_line,
        end_line,
        rule,
        declared_line(description, content),
        described_line(description),
    )
}

/// What a borrowed optional text holds.
pub open spec fn str_of(text: Option<&str>) -> Option<Seq<char>> {
    match text {
        Some(t) => Some(t@),
        None => None,
    }
}

/// Tests for a rule on properties.
fn property_rule(rule: &str) -> (r: bool)
    ensures
        r == is_property_rule(rule@),
{
    same_text(rule, "CamelCasePropertyName") || same_text(rule, "CamelCaseParameterName")
}

/// Tests for a rule on a class.
fn class_rule(rule: &str) -> (r: bool)
    ensures
        r == is_class_rule(rule@),
{
    same_text(rule, "TooManyPublicMethods") || same_text(rule, "TooManyMethods") || same_text(
        rule,
        "TooManyFields",
    ) || same_text(rule, "ExcessivePublicCount") || same_text(rule, "ExcessiveClassComplexity")
        || same_text(rule, "ExcessiveClassLength") || same_text(rule, "CouplingBetweenObjects")
        || same_text(rule, "NumberOfChildren") || same_text(rule, "DepthOfInheritance")
        || same_text(rule, "CamelCaseClassName") || same_text(rule, "CamelCasePropertyName")
        || same_text(rule, "CamelCaseParameterName") || same_text(rule, "CamelCaseVariableName")
}

/// Tests for a rule on a method.
fn method_rule(rule: &str) -> (r: bool)
    ensures
        r == is_method_rule(rule@),
{
    same_text(rule, "CyclomaticComplexity") || same_text(rule, "NPathComplexity") || same_text(
        rule,
        "ExcessiveMethodLength",
    ) || same_text(rule, "ExcessiveParameterList") || same_text(rule, "UnusedFormalParameter")
        || same_text(rule, "ShortMethodName") || same_text(
        rule,
        "ConstructorWithNameAsEnclosingClass",
    ) || same_text(rule, "CamelCaseMethodName")
}

/// Tests for a rule on a single line.
fn single_line_rule(rule: &str) -> (r: bool)
    ensures
        r == is_single_line_rule(rule@),
{
    same_text(rule, "ElseExpression") || same_text(rule, "ShortVariable") || same_text(
        rule,
        "LongVariable",
    ) || same_text(rule, "GotoStatement") || same_text(rule, "ExitExpression") || same_text(
        rule,
        "EvalExpression",
    )
}

/// Chooses the lines to highlight, given the line that declares the property and the line
/// that the description gives.
pub fn choose_lines(
    begin_line: u32,
    end_line: u32,
    rule: &str,
    declared: Option<u32>,
    described: Option<u32>,
) -> (r: (u32, u32))
    ensures
        r == lines_for(begin_line, end_line, rule@, declared, described),
{
    if property_rule(rule) {
        return match declared {
            Some(line) => (line, line),
            None => (begin_line, begin_line),
        };
    }
    if class_rule(rule) {
        return (begin_line, begin_line);
    }
    if method_rule(rule) && end_line > begin_line && end_line - begin_line > 5 {
        return (begin_line, begin_line);
    }
    if single_line_rule(rule) {
        return (begin_line, begin_line);
    }
    if same_text(rule, "ErrorControlOperator") {
        return match described {
            Some(line) => (line, line),
            None => (begin_line, begin_line),
        };
    }
    if end_line > begin_line && end_line - begin_line > 10 {
        return (begin_line, begin_line);
    }
    (begin_line, end_line)
}

/// Determines the lines that a violation highlights; `content` is the text of the document,
/// where it is at hand.
pub fn determine_diagnostic_range(
    begin_line: u32,
    end_line: u32,
    rule: &str,
    description: &str,
    content: Option<&str>,
) -> (r: (u32, u32))
    ensures
        r == highlighted_lines(begin_line, end_line, rule@, description@, str_of(content)),
        rule@ == "ErrorControlOperator"@ && plain_markers(description@) ==> r == operator_lines(
            line_number(marked_digits(description@)),
            begin_line,
        ),
{
    proof {
        lemma_operator_rule_stands_apart();
    }
    let mut declared: Option<u32> = None;
    if property_rule(rule) {
        if let Some(name) = property_name_of(description) {
            if let Some(text) = content {
                declared = find_property_line(name.as_str(), text);
            }
        }
    }
    let mut described: Option<u32> = None;
    if same_text(rule, "ErrorControlOperator") {
        described = parse_line_from_description(description);
    }
    choose_lines(begin_line, end_line, rule, declared, described)
}

/// A line number counted from 0, from one counted from 1; 0 stays 0.
pub open spec fn zero_based(line: u32) -> u32 {
    if line > 0 {
        (line - 1) as u32
    } else {
        0
    }
}

/// The byte columns where the highlight of the lines from `begin_line` to `end_line` begins
/// and ends: past the white space of the first line, or at the `@` of an error control
/// operator, and at the end of the last line. The end is 999 where the last line is not in
/// the document, and the columns are 0 and 999 where the first is not.
pub open spec fn highlighted_columns(
    begin_line: u32,
    end_line: u32,
    rule: Seq<char>,
    content: Option<Seq<char>>,
) -> (u32, u32) {
    match content {
        Some(text) => {
            let all = lines(text);
            if 0 < begin_line <= all.len() {
                let first = all[begin_line - 1];
                let start = if is_operator_rule(rule) {
                    operator_column(first)
                } else {
                    indent(first)
                };
                let end = if zero_based(begin_line) == zero_based(end_line) {
                    byte_len(first)
                } else if 0 < end_line <= all.len() {
                    byte_len(all[end_line - 1])
                } else {
                    999
                };
                (start as u32, end as u32)
            } else {
                (0, 999)
            }
        },
        None => (0, 999),
    }
}

/// Counts a line from 0.
pub fn to_zero_based(line: u32) -> (r: u32)
    ensures
        r == zero_based(line),
{
    if line > 0 {
        line - 1
    } else {
        0
    }
}

/// Determines the columns that a violation highlights on its lines.
pub fn determine_columns(
    begin_line: u32,
    end_line: u32,
    rule: &str,
    content: Option<&str>,
) -> (r: (u32, u32))
    ensures
        r == highlighted_columns(begin_line, end_line, rule@, str_of(content)),
{
    match content {
        Some(text) => {
            let all = split_lines(text);
            let n: usize = all.len();
            if begin_line == 0 || begin_line as usize > n {
                return (0, 999);
            }
            let ghost views = texts(all@);
            assert(views == lines(text@));
            let first = all[begin_line as usize - 1].as_str();
            assert(views[begin_line - 1] == first@);
            let start: usize = if same_text(rule, "ErrorControlOperator") {
                error_control_operator_start_char(first)
            } else {
                indent_of(first)
            };
            let end: usize = if to_zero_based(begin_line) == to_zero_based(end_line) {
                first.as_bytes().len()
            } else if end_line > 0 && end_line as usize <= n {
                let last = all[end_line as usize - 1].as_str();
                assert(views[end_line - 1] == last@);
                last.as_bytes().len()
            } else {
                999
            };
            (start as u32, end as u32)
        },
        None => (0, 999),
    }
}

/// A highlight takes one line, or it takes exactly the reported lines and they run over at
/// most eleven lines. It does not end before it begins unless the reported lines do.
pub proof fn law_highlight_is_short(
    begin_line: u32,
    end_line: u32,
    rule: Seq<char>,
    description: Seq<char>,
    content: Option<Seq<char>>,
)
    ensures
        ({
            let (first, last) = highlighted_lines(begin_line, end_line, rule, description, content);
            &&& first == last || (first == begin_line && last == end_line && end_line - begin_line
                <= 10)
            &&& begin_line <= end_line ==> first <= last
        }),
{
}

/// A rule on a class highlights the first reported line alone, unless it is about a property.
pub proof fn law_class_rule_highlights_first_line(
    begin_line: u32,
    end_line: u32,
    rule: Seq<char>,
    description: Seq<char>,
    content: Option<Seq<char>>,
)
    requires
        is_class_rule(rule),
        !is_property_rule(rule),
    ensures
        highlighted_lines(begin_line, end_line, rule, description, content) == (
            begin_line,
            begin_line,
        ),
{
}

/// The first part of a line takes no more bytes than the line.
proof fn lemma_prefix_is_shorter(line: Seq<char>, n: int)
    requires
        0 <= n <= line.len(),
    ensures
        byte_len(line.take(n)) <= byte_len(line),
{
    assert(line =~= line.take(n) + line.skip(n));
    lemma_encode_concat(line.take(n), line.skip(n));
}

/// The highlight of one line that is in the document ends at the end of that line and begins
/// on it.
pub proof fn law_highlight_stays_on_the_line(line: u32, rule: Seq<char>, content: Seq<char>)
    requires
        0 < line <= lines(content).len(),
        byte_len(lines(content)[line - 1]) <= u32::MAX,
    ensures
        ({
            let (start, end) = highlighted_columns(line, line, rule, Some(content));
            start <= end && end == byte_len(lines(content)[line - 1])
        }),
{
    let text = lines(content)[line - 1];
    lemma_leading(text, other_than('@'));
    lemma_leading(text, blank());
    lemma_prefix_is_shorter(text, leading(text, other_than('@')) as int);
    lemma_prefix_is_shorter(text, leading(text, blank()) as int);
}

/// The rules on an expression or a variable highlight the first reported line alone, however
/// many lines were reported.
pub proof fn law_expression_rules_highlight_one_line(
    begin_line: u32,
    end_line: u32,
    rule: Seq<char>,
    description: Seq<char>,
    content: Option<Seq<char>>,
)
    requires
        rule == "ElseExpression"@ || rule == "ShortVariable"@ || rule == "LongVariable"@ || rule
            == "GotoStatement"@ || rule == "ExitExpression"@ || rule == "EvalExpression"@,
    ensures
        highlighted_lines(begin_line, end_line, rule, description, content) == (
            begin_line,
            begin_line,
        ),
{
    lemma_rule_is_none_of_the_property_rules(rule);
}

/// How long the names of the rules are, and what those of one length begin with.
proof fn lemma_rule_names()
    ensures
        "ElseExpression"@.len() == 14,
        "ShortVariable"@.len() == 13,
        "LongVariable"@.len() == 12,
        "GotoStatement"@.len() == 13,
        "ExitExpression"@.len() == 14,
        "EvalExpression"@.len() == 14,
        "TooManyPublicMethods"@.len() == 20,
        "TooManyMethods"@.len() == 14,
        "TooManyFields"@.len() == 13,
        "ExcessivePublicCount"@.len() == 20,
        "ExcessiveClassComplexity"@.len() == 24,
        "ExcessiveClassLength"@.len() == 20,
        "CouplingBetweenObjects"@.len() == 22,
        "NumberOfChildren"@.len() == 16,
        "DepthOfInheritance"@.len() == 18,
        "CamelCaseClassName"@.len() == 18,
        "CamelCasePropertyName"@.len() == 21,
        "CamelCaseParameterName"@.len() == 22,
        "CamelCaseVariableName"@.len() == 21,
        "CyclomaticComplexity"@.len() == 20,
        "NPathComplexity"@.len() == 15,
        "ExcessiveMethodLength"@.len() == 21,
        "ExcessiveParameterList"@.len() == 22,
        "UnusedFormalParameter"@.len() == 21,
        "ShortMethodName"@.len() == 15,
        "ConstructorWithNameAsEnclosingClass"@.len() == 35,
        "CamelCaseMethodName"@.len() == 19,
        "ErrorControlOperator"@.len() == 20,
        "TooManyPublicMethods"@[0] == 'T',
        "TooManyPublicMethods"@[1] == 'o',
        "TooManyPublicMethods"@[9] == 'b',
        "ExcessivePublicCount"@[0] == 'E',
        "ExcessivePublicCount"@[1] == 'x',
        "ExcessivePublicCount"@[9] == 'P',
        "ExcessiveClassLength"@[0] == 'E',
        "ExcessiveClassLength"@[1] == 'x',
        "ExcessiveClassLength"@[9] == 'C',
        "CouplingBetweenObjects"@[0] == 'C',
        "CouplingBetweenObjects"@[1] == 'o',
        "CouplingBetweenObjects"@[9] == 'e',
        "CamelCasePropertyName"@[0] == 'C',
        "CamelCasePropertyName"@[1] == 'a',
        "CamelCasePropertyName"@[9] == 'P',
        "CamelCaseParameterName"@[0] == 'C',
        "CamelCaseParameterName"@[1] == 'a',
        "CamelCaseParameterName"@[9] == 'P',
        "CamelCaseVariableName"@[0] == 'C',
        "CamelCaseVariableName"@[1] == 'a',
        "CamelCaseVariableName"@[9] == 'V',
        "CyclomaticComplexity"@[0] == 'C',
        "CyclomaticComplexity"@[1] == 'y',
        "CyclomaticComplexity"@[9] == 'c',
        "ExcessiveMethodLength"@[0] == 'E',
        "ExcessiveMethodLength"@[1] == 'x',
        "ExcessiveMethodLength"@[9] == 'M',
        "ExcessiveParameterList"@[0] == 'E',
        "ExcessiveParameterList"@[1] == 'x',
        "ExcessiveParameterList"@[9] == 'P',
        "UnusedFormalParameter"@[0] == 'U',
        "UnusedFormalParameter"@[1] == 'n',
        "UnusedFormalParameter"@[9] == 'm',
        "ErrorControlOperator"@[0] == 'E',
        "ErrorControlOperator"@[1] == 'r',
        "ErrorControlOperator"@[9] == 'r',
{
    reveal_strlit("ElseExpression");
    reveal_strlit("ShortVariable");
    reveal_strlit("LongVariable");
    reveal_strlit("GotoStatement");
    reveal_strlit("ExitExpression");
    reveal_strlit("EvalExpression");
    reveal_strlit("TooManyPublicMethods");
    reveal_strlit("TooManyMethods");
    reveal_strlit("TooManyFields");
    reveal_strlit("ExcessivePublicCount");
    reveal_strlit("ExcessiveClassComplexity");
    reveal_strlit("ExcessiveClassLength");
    reveal_strlit("CouplingBetweenObjects");
    reveal_strlit("NumberOfChildren");
    reveal_strlit("DepthOfInheritance");
    reveal_strlit("CamelCaseClassName");
    reveal_strlit("CamelCasePropertyName");
    reveal_strlit("CamelCaseParameterName");
    reveal_strlit("CamelCaseVariableName");
    reveal_strlit("CyclomaticComplexity");
    reveal_strlit("NPathComplexity");
    reveal_strlit("ExcessiveMethodLength");
    reveal_strlit("ExcessiveParameterList");
    reveal_strlit("UnusedFormalParameter");
    reveal_strlit("ShortMethodName");
    reveal_strlit("ConstructorWithNameAsEnclosingClass");
    reveal_strlit("CamelCaseMethodName");
    reveal_strlit("ErrorControlOperator");
}

/// The names of all rules that are treated apart, but for the two on properties, are other
/// than these two.
proof fn lemma_rule_is_none_of_the_property_rules(rule: Seq<char>)
    requires
        ({
            ||| rule == "ElseExpression"@
            ||| rule == "ShortVariable"@
            ||| rule == "LongVariable"@
            ||| rule == "GotoStatement"@
            ||| rule == "ExitExpression"@
            ||| rule == "EvalExpression"@
            ||| rule == "TooManyPublicMethods"@
            ||| rule == "TooManyMethods"@
            ||| rule == "TooManyFields"@
            ||| rule == "ExcessivePublicCount"@
            ||| rule == "ExcessiveClassComplexity"@
            ||| rule == "ExcessiveClassLength"@
            ||| rule == "CouplingBetweenObjects"@
            ||| rule == "NumberOfChildren"@
            ||| rule == "DepthOfInheritance"@
            ||| rule == "CamelCaseClassName"@
            ||| rule == "CamelCaseVariableName"@
            ||| rule == "CyclomaticComplexity"@
            ||| rule == "NPathComplexity"@
            ||| rule == "ExcessiveMethodLength"@
            ||| rule == "ExcessiveParameterList"@
            ||| rule == "UnusedFormalParameter"@
            ||| rule == "ShortMethodName"@
            ||| rule == "ConstructorWithNameAsEnclosingClass"@
            ||| rule == "CamelCaseMethodName"@
            ||| rule == "ErrorControlOperator"@
        }),
    ensures
        rule != "CamelCasePropertyName"@,
        rule != "CamelCaseParameterName"@,
{
    lemma_rule_names();
}

/// The rules on a class highlight the first reported line alone.
pub proof fn law_class_rules_highlight_the_class_line(
    begin_line: u32,
    end_line: u32,
    rule: Seq<char>,
    description: Seq<char>,
    content: Option<Seq<char>>,
)
    requires
        ({
            ||| rule == "TooManyPublicMethods"@
            ||| rule == "TooManyMethods"@
            ||| rule == "TooManyFields"@
            ||| rule == "ExcessivePublicCount"@
            ||| rule == "ExcessiveClassComplexity"@
            ||| rule == "ExcessiveClassLength"@
            ||| rule == "CouplingBetweenObjects"@
            ||| rule == "NumberOfChildren"@
            ||| rule == "DepthOfInheritance"@
            ||| rule == "CamelCaseClassName"@
            ||| rule == "CamelCaseVariableName"@
        }),
    ensures
        highlighted_lines(begin_line, end_line, rule, description, content) == (
            begin_line,
            begin_line,
        ),
{
    lemma_rule_is_none_of_the_property_rules(rule);
}

/// The rules on a method highlight its first line alone where the reported lines run more
/// than five lines past it, and else the reported lines.
pub proof fn law_method_rules_highlight_the_signature(
    begin_line: u32,
    end_line: u32,
    rule: Seq<char>,
    description: Seq<char>,
    content: Option<Seq<char>>,
)
    requires
        ({
            ||| rule == "CyclomaticComplexity"@
            ||| rule == "NPathComplexity"@
            ||| rule == "ExcessiveMethodLength"@
            ||| rule == "ExcessiveParameterList"@
            ||| rule == "UnusedFormalParameter"@
            ||| rule == "ShortMethodName"@
            ||| rule == "ConstructorWithNameAsEnclosingClass"@
            ||| rule == "CamelCaseMethodName"@
        }),
    ensures
        highlighted_lines(begin_line, end_line, rule, description, content) == if end_line
            > begin_line + 5 {
            (begin_line, begin_line)
        } else {
            (begin_line, end_line)
        },
{
    lemma_rule_is_none_of_the_property_rules(rule);
    lemma_method_rules_stand_apart(rule);
}

/// The names of the rules on a method are other than those of the rules on a class, on a
/// single line and on the operator.
proof fn lemma_method_rules_stand_apart(rule: Seq<char>)
    requires
        ({
            ||| rule == "CyclomaticComplexity"@
            ||| rule == "NPathComplexity"@
            ||| rule == "ExcessiveMethodLength"@
            ||| rule == "ExcessiveParameterList"@
            ||| rule == "UnusedFormalParameter"@
            ||| rule == "ShortMethodName"@
            ||| rule == "ConstructorWithNameAsEnclosingClass"@
            ||| rule == "CamelCaseMethodName"@
        }),
    ensures
        !is_class_rule(rule),
        !is_single_line_rule(rule),
        !is_operator_rule(rule),
{
    lemma_rule_names();
    lemma_rule_is_none_of_the_property_rules(rule);
}

/// The names of the rules on a single line and on a class are other than that of the rule on
/// the operator, and so are those of the rules on a method.
proof fn lemma_operator_rule_stands_apart()
    ensures
        !is_property_rule("ErrorControlOperator"@),
        !is_class_rule("ErrorControlOperator"@),
        !is_method_rule("ErrorControlOperator"@),
        !is_single_line_rule("ErrorControlOperator"@),
{
    lemma_rule_names();
    lemma_rule_is_none_of_the_property_rules("ErrorControlOperator"@);
}

/// The rule on the error control operator highlights one line: the one that the description
/// gives, else the first reported one.
pub proof fn law_operator_rule_highlights_the_described_line(
    begin_line: u32,
    end_line: u32,
    description: Seq<char>,
    content: Option<Seq<char>>,
)
    ensures
        highlighted_lines(begin_line, end_line, "ErrorControlOperator"@, description, content)
            == match described_line(description) {
            Some(line) => (line, line),
            None => (begin_line, begin_line),
        },
{
    lemma_operator_rule_stands_apart();
}

/// The rules on a property highlight the line that declares the property which the
/// description names, where the text is at hand and has one, and else the first reported
/// line.
pub proof fn law_property_rules_highlight_the_declaration(
    begin_line: u32,
    end_line: u32,
    rule: Seq<char>,
    description: Seq<char>,
    content: Option<Seq<char>>,
)
    requires
        rule == "CamelCasePropertyName"@ || rule == "CamelCaseParameterName"@,
    ensures
        highlighted_lines(begin_line, end_line, rule, description, content) == match (
            described_property(description),
            content,
        ) {
            (Some(name), Some(text)) => match property_line(name, text) {
                Some(line) => (line, line),
                None => (begin_line, begin_line),
            },
            _ => (begin_line, begin_line),
        },
{
}

/// Every other rule highlights the reported lines, unless they run more than ten lines past
/// the first: then the first alone.
pub proof fn law_other_rules_highlight_the_reported_lines(
    begin_line: u32,
    end_line: u32,
    rule: Seq<char>,
    description: Seq<char>,
    content: Option<Seq<char>>,
)
    requires
        rule != "ElseExpression"@,
        rule != "ShortVariable"@,
        rule != "LongVariable"@,
        rule != "GotoStatement"@,
        rule != "ExitExpression"@,
        rule != "EvalExpression"@,
        rule != "ErrorControlOperator"@,
        rule != "TooManyPublicMethods"@,
        rule != "TooManyMethods"@,
        rule != "TooManyFields"@,
        rule != "ExcessivePublicCount"@,
        rule != "ExcessiveClassComplexity"@,
        rule != "ExcessiveClassLength"@,
        rule != "CouplingBetweenObjects"@,
        rule != "NumberOfChildren"@,
        rule != "DepthOfInheritance"@,
        rule != "CamelCaseClassName"@,
        rule != "CamelCasePropertyName"@,
        rule != "CamelCaseParameterName"@,
        rule != "CamelCaseVariableName"@,
        rule != "CyclomaticComplexity"@,
        rule != "NPathComplexity"@,
        rule != "ExcessiveMethodLength"@,
        rule != "ExcessiveParameterList"@,
        rule != "UnusedFormalParameter"@,
        rule != "ShortMethodName"@,
        rule != "ConstructorWithNameAsEnclosingClass"@,
        rule != "CamelCaseMethodName"@,
    ensures
        highlighted_lines(begin_line, end_line, rule, description, content) == if end_line
            > begin_line + 10 {
            (begin_line, begin_line)
        } else {
            (begin_line, end_line)
        },
{
}

/// Lines that count from 1 come to count from 0.
pub proof fn law_lines_count_from_zero(line: u32)
    ensures
        line > 0 ==> zero_based(line) + 1 == line,
        zero_based(0) == 0,
{
}

/// A highlight begins behind the white space of its first line, or, for the error control
/// operator, at the first `@` of that line; white space in front of that counts in bytes.
pub proof fn law_highlight_begins_behind_the_indent(
    begin_line: u32,
    end_line: u32,
    rule: Seq<char>,
    content: Seq<char>,
    front: Seq<char>,
    rest: Seq<char>,
)
    requires
        0 < begin_line <= lines(content).len(),
        lines(content)[begin_line - 1] == front + rest,
        byte_len(front) <= u32::MAX,
    ensures
        (forall|i: int| 0 <= i < front.len() ==> is_whitespace(#[trigger] front[i])) && (rest.len()
            > 0 ==> !is_whitespace(rest[0])) && (rule != "ErrorControlOperator"@ || !(front
            + rest).contains('@')) ==> highlighted_columns(
            begin_line,
            end_line,
            rule,
            Some(content),
        ).0 == byte_len(front),
        rule == "ErrorControlOperator"@ && !front.contains('@') && rest.len() > 0 && rest[0] == '@'
            ==> highlighted_columns(begin_line, end_line, rule, Some(content)).0 == byte_len(front),
{
    if (forall|i: int| 0 <= i < front.len() ==> is_whitespace(#[trigger] front[i])) && (rest.len()
        > 0 ==> !is_whitespace(rest[0])) {
        law_indent_is_the_white_space_in_front(front, rest);
    }
    if !front.contains('@') && rest.len() > 0 && rest[0] == '@' {
        law_operator_column_is_that_of_the_sign(front, rest.skip(1));
        assert(front + seq!['@'] + rest.skip(1) =~= front + rest);
    }
}

/// A highlight ends at the end of its last line, which is the first one where both count as
/// the same line from 0; where the last line is not in the document it ends at column 999.
pub proof fn law_highlight_ends_at_the_end_of_the_line(
    begin_line: u32,
    end_line: u32,
    rule: Seq<char>,
    content: Seq<char>,
)
    requires
        0 < begin_line <= lines(content).len(),
    ensures
        ({
            let end = highlighted_columns(begin_line, end_line, rule, Some(content)).1;
            &&& 0 < end_line <= lines(content).len() && byte_len(lines(content)[end_line - 1])
                <= u32::MAX ==> end == byte_len(lines(content)[end_line - 1])
            &&& end_line > lines(content).len() ==> end == 999
            &&& end_line == 0 && begin_line > 1 ==> end == 999
            &&& end_line == 0 && begin_line == 1 && byte_len(lines(content)[0]) <= u32::MAX ==> end
                == byte_len(lines(content)[0])
        }),
{
}

/// Where the first line is not in the document, or the text is not at hand, a highlight takes
/// the columns from 0 to 999.
pub proof fn law_highlight_outside_the_document(
    begin_line: u32,
    end_line: u32,
    rule: Seq<char>,
    content: Seq<char>,
)
    ensures
        begin_line == 0 || begin_line > lines(content).len() ==> highlighted_columns(
            begin_line,
            end_line,
            rule,
            Some(content),
        ) == (0u32, 999u32),
        highlighted_columns(begin_line, end_line, rule, None) == (0u32, 999u32),
{
}

} // verus!
