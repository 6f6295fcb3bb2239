//! Violations in PHPMD's report, and the diagnostics that an editor shows for them.
use crate::json::{item_views, json_of, parse_json, parsed_json, Json, JsonView};
use crate::range::{
    determine_columns, determine_diagnostic_range, highlighted_columns, highlighted_lines, str_of,
    to_zero_based, zero_based,
};
use crate::text::{
    blank, copy_range, finishes_with, is_whitespace, joined, law_ends_can_be_split_off,
    law_trimming_takes_off_white_space, leading, lemma_leading, lemma_trim_end_splits, matches_at,
    text_of, to_chars, to_text, trim, trim_start, trimmed,
};
use vstd::prelude::*;
use vstd::utf8::is_ascii_chars;

verus! {

/// A violation as PHPMD reports it.
pub struct Violation {
    pub begin_line: u32,
    pub end_line: u32,
    pub description: String,
    pub rule: String,
    pub rule_set: String,
    pub priority: u64,
    pub class: Option<Json>,
    pub method: Option<Json>,
    pub function: Option<Json>,
}

/// What a violation holds.
pub struct ViolationView {
    pub begin_line: u32,
    pub end_line: u32,
    pub description: Seq<char>,
    pub rule: Seq<char>,
    pub rule_set: Seq<char>,
    pub priority: u64,
    pub class: Option<JsonView>,
    pub method: Option<JsonView>,
    pub function: Option<JsonView>,
}

impl View for Violation {
    type V = ViolationView;

    open spec fn view(&self) -> ViolationView {
        ViolationView {
            begin_line: self.begin_line,
            end_line: self.end_line,
            description: self.description@,
            rule: self.rule@,
            rule_set: self.rule_set@,
            priority: self.priority,
            class: json_of(self.class),
            method: json_of(self.method),
            function: json_of(self.function),
        }
    }
}

/// How severe a diagnostic is.
#[derive(Clone, Copy, Debug, PartialEq, Eq, Structural)]
pub enum DiagnosticSeverity {
    Error,
    Warning,
    Information,
}

/// A place in a document: a line and a column in bytes, both counted from 0.
#[derive(Clone, Copy, Debug, PartialEq, Eq, Structural)]
pub struct Position {
    pub line: u32,
    pub character: u32,
}

/// A diagnostic for an editor to show.
pub struct Diagnostic {
    pub start: Position,
    pub end: Position,
    pub severity: DiagnosticSeverity,
    /// The rule, unless it is empty.
    pub code: Option<String>,
    /// Address of the page that describes the rule.
    pub code_description: Option<String>,
    pub source: String,
    pub message: String,
    /// What PHPMD said of the violation.
    pub data: Violation,
}

/// What a diagnostic holds.
pub struct DiagnosticView {
    pub start: Position,
    pub end: Position,
    pub severity: DiagnosticSeverity,
    pub code: Option<Seq<char>>,
    pub code_description: Option<Seq<char>>,
    pub source: Seq<char>,
    pub message: Seq<char>,
    pub data: ViolationView,
}

impl View for Diagnostic {
    type V = DiagnosticView;

    open spec fn view(&self) -> DiagnosticView {
        DiagnosticView {
            start: self.start,
            end: self.end,
            severity: self.severity,
            code: text_of(self.code),
            code_description: text_of(self.code_description),
            source: self.source@,
            message: self.message@,
            data: self.data@,
        }
    }
}

/// What a list of diagnostics holds.
pub open spec fn diagnostic_views(items: Seq<Diagnostic>) -> Seq<DiagnosticView> {
    Seq::new(items.len(), |i: int| items[i]@)
}

/// An optional text, or the empty one.
pub open spec fn or_empty(text: Option<Seq<char>>) -> Seq<char> {
    match text {
        Some(t) => t,
        None => Seq::empty(),
    }
}

/// The violation that a JSON value describes. It needs a number `beginLine`, a text
/// `description` and a member `rule`. The last line is the first where it is missing, and
/// the priority is 3; line numbers keep their low 32 bits.
pub open spec fn violation_in(json: JsonView) -> Option<ViolationView> {
    match (
        json.member_unsigned("beginLine"@),
        json.member_text("description"@),
        json.member("rule"@),
    ) {
        (Some(begin), Some(description), Some(rule)) => Some(
            ViolationView {
                begin_line: begin as u32,
                end_line: match json.member_unsigned("endLine"@) {
                    Some(end) => end as u32,
                    None => begin as u32,
                },
                description,
                rule: or_empty(rule.text()),
                rule_set: or_empty(json.member_text("ruleSet"@)),
                priority: match json.member_unsigned("priority"@) {
                    Some(priority) => priority,
                    None => 3,
                },
                class: json.member("class"@),
                method: json.member("method"@),
                function: json.member("function"@),
            },
        ),
        _ => None,
    }
}

/// An optional text, or the empty one.
fn text_or_empty(text: Option<String>) -> (r: String)
    ensures
        r@ == or_empty(text_of(text)),
{
    match text {
        Some(t) => t,
        None => String::new(),
    }
}

/// Reads a violation from a JSON value.
pub fn read_violation(json: &Json) -> (r: Option<Violation>)
    ensures
        match r {
            Some(violation) => violation_in(json@) == Some(violation@),
            None => violation_in(json@) is None,
        },
{
    let begin: u64 = match json.member_unsigned("beginLine") {
        Some(n) => n,
        None => {
            return None;
        },
    };
    let description: String = match json.member_text("description") {
        Some(t) => t,
        None => {
            return None;
        },
    };
    match json.member("rule") {
        None => {
            return None;
        },
        Some(_) => {},
    }
    let end_line: u32 = match json.member_unsigned("endLine") {
        Some(n) => n as u32,
        None => begin as u32,
    };
    let priority: u64 = match json.member_unsigned("priority") {
        Some(n) => n,
        None => 3,
    };
    Some(
        Violation {
            begin_line: begin as u32,
            end_line,
            description,
            rule: text_or_empty(json.member_text("rule")),
            rule_set: text_or_empty(json.member_text("ruleSet")),
            priority,
            class: json.member_copy("class"),
            method: json.member_copy("method"),
            function: json.member_copy("function"),
        },
    )
}

/// The severity for a priority: 1 and 2 are errors, 3 and 4 warnings.
pub open spec fn severity_for(priority: u64) -> DiagnosticSeverity {
    if 1 <= priority <= 2 {
        DiagnosticSeverity::Error
    } else if 3 <= priority <= 4 {
        DiagnosticSeverity::Warning
    } else {
        DiagnosticSeverity::Information
    }
}

/// Maps a priority to a severity.
pub fn severity_of(priority: u64) -> (r: DiagnosticSeverity)
    ensures
        r == severity_for(priority),
{
    if 1 <= priority && priority <= 2 {
        DiagnosticSeverity::Error
    } else if 3 <= priority && priority <= 4 {
        DiagnosticSeverity::Warning
    } else {
        DiagnosticSeverity::Information
    }
}

/// A text in lower case.
pub uninterp spec fn lowercase(text: Seq<char>) -> Seq<char>;

/// An ASCII text in lower case.
pub open spec fn ascii_lowercase(text: Seq<char>) -> Seq<char> {
    text.map_values(
        |c: char|
            if 'A' <= c <= 'Z' {
                (c as int + 32) as char
            } else {
                c
            },
    )
}

/// `str::to_lowercase` gives a text in lower case. In ASCII that exchanges the letters from
/// A to Z one for one; for other texts the result is left to the name `lowercase`.
pub assume_specification[ str::to_lowercase ](text: &str) -> (r: String)
    ensures
        r@ == lowercase(text@),
        is_ascii_chars(text@) ==> r@ == ascii_lowercase(text@),
;

/// `s` without the copies of `suffix` that it ends with.
pub open spec fn strip_suffixes(s: Seq<char>, suffix: Seq<char>) -> Seq<char>
    decreases s.len(),
{
    if suffix.len() > 0 && finishes_with(s, suffix) {
        strip_suffixes(s.take(s.len() - suffix.len()), suffix)
    } else {
        s
    }
}

/// The predicate that holds of every character but the space.
pub open spec fn not_space() -> spec_fn(char) -> bool {
    |c: char| c != ' '
}

/// The part of a page's address that stands for a rule set, from the lower case name of the
/// rule set: without spaces and without "rules" at the end.
pub open spec fn slug_for(lower: Seq<char>) -> Seq<char> {
    strip_suffixes(lower.filter(not_space()), "rules"@)
}

/// Address of the page on a rule set, and in it on a rule, from their lower case names.
pub open spec fn page_address(
    lower_rule_set: Seq<char>,
    lower_rule: Option<Seq<char>>,
) -> Seq<char> {
    let page = "https://phpmd.org/rules/"@ + slug_for(lower_rule_set) + ".html"@;
    match lower_rule {
        Some(rule) => page + "#"@ + rule,
        None => page,
    }
}

/// Removes the spaces from a text.
fn without_spaces(text: &str) -> (r: Vec<char>)
    ensures
        r@ == text@.filter(not_space()),
{
    let s = to_chars(text);
    let mut r: Vec<char> = Vec::new();
    let mut i: usize = 0;
    proof {
        assert(s@.take(0) =~= Seq::<char>::empty());
        reveal(Seq::filter);
    }
    while i < s.len()
        invariant
            i <= s@.len(),
            s@ == text@,
            r@ == s@.take(i as int).filter(not_space()),
        decreases s@.len() - i,
    {
        let c = s[i];
        proof {
            reveal(Seq::filter);
            assert(s@.take(i + 1).drop_last() =~= s@.take(i as int));
        }
        if c != ' ' {
            r.push(c);
        }
        i = i + 1;
    }
    assert(s@.take(i as int) =~= s@);
    r
}

/// Makes the part of a page's address that stands for a rule set.
pub fn slug_of(lower_rule_set: &str) -> (r: String)
    ensures
        r@ == slug_for(lower_rule_set@),
{
    let s = without_spaces(lower_rule_set);
    let suffix = to_chars("rules");
    proof {
        reveal_strlit("rules");
    }
    let mut end: usize = s.len();
    assert(s@.take(end as int) =~= s@);
    loop
        invariant
            suffix@ == "rules"@,
            suffix@.len() == 5,
            end <= s@.len(),
            strip_suffixes(s@.take(end as int), suffix@) == slug_for(lower_rule_set@),
        decreases end,
    {
        let kept = copy_range(&s, 0, end);
        assert(kept@ =~= s@.take(end as int));
        if end < suffix.len() || !matches_at(&kept, end - suffix.len(), &suffix) {
            return to_text(&kept);
        }
        assert(s@.take(end as int).take(end - 5) =~= s@.take(end - 5));
        end = end - suffix.len();
    }
}

/// Makes the address of the page on a rule.
pub fn page_address_of(lower_rule_set: &str, lower_rule: Option<&str>) -> (r: String)
    ensures
        r@ == page_address(lower_rule_set@, str_of(lower_rule)),
{
    let slug = slug_of(lower_rule_set);
    let page = joined(joined("https://phpmd.org/rules/", slug.as_str()).as_str(), ".html");
    match lower_rule {
        Some(rule) => joined(joined(page.as_str(), "#").as_str(), rule),
        None => page,
    }
}

/// The normal form of an address, where it is one.
pub uninterp spec fn url_text(address: Seq<char>) -> Option<Seq<char>>;

/// The error with which `url` refuses an address.
#[verifier::external_type_specification]
#[verifier::external_body]
pub struct ExUrlError(url::ParseError);

/// `url::Url::parse` brings an absolute address into its normal form. The name `url_text`
/// stands for it; it is `None` for the texts that are refused.
#[verifier::external_body]
fn parse_url(address: &str) -> (r: Result<String, url::ParseError>)
    ensures
        match r {
            Ok(text) => url_text(address@) == Some(text@),
            Err(_) => url_text(address@) is None,
        },
{
    url::Url::parse(address).map(|url| url.to_string())
}

/// Address of the page on the rule of a violation: none where the violation names no rule
/// set, refused where the address is not a URL.
pub open spec fn rule_page(rule_set: Seq<char>, rule: Seq<char>) -> Result<Option<Seq<char>>, ()> {
    if rule_set.len() == 0 {
        Ok(None)
    } else {
        let lower_rule = if rule.len() == 0 { None } else { Some(lowercase(rule)) };
        match url_text(page_address(lowercase(rule_set), lower_rule)) {
            Some(url) => Ok(Some(url)),
            None => Err(()),
        }
    }
}

/// Finds the address of the page on a rule.
pub fn rule_page_of(rule_set: &str, rule: &str) -> (r: Result<Option<String>, ()>)
    ensures
        match r {
            Ok(page) => rule_page(rule_set@, rule@) == Ok::<Option<Seq<char>>, ()>(text_of(page)),
            Err(_) => rule_page(rule_set@, rule@) is Err,
        },
        rule_set@.len() > 0 && rule@.len() > 0 && is_ascii_chars(rule_set@) && is_ascii_chars(
            rule@,
        ) ==> match r {
            Ok(page) => text_of(page) == url_text(
                page_address(ascii_lowercase(rule_set@), Some(ascii_lowercase(rule@))),
            ),
            Err(_) => url_text(
                page_address(ascii_lowercase(rule_set@), Some(ascii_lowercase(rule@))),
            ) is None,
        },
        rule_set@.len() > 0 && rule@.len() == 0 && is_ascii_chars(rule_set@) ==> match r {
            Ok(page) => text_of(page) == url_text(
                page_address(ascii_lowercase(rule_set@), None),
            ),
            Err(_) => url_text(page_address(ascii_lowercase(rule_set@), None)) is None,
        },
{
    if rule_set.is_empty() {
        return Ok(None);
    }
    let lower_rule_set = rule_set.to_lowercase();
    let address = if rule.is_empty() {
        page_address_of(lower_rule_set.as_str(), None)
    } else {
        let lower_rule = rule.to_lowercase();
        page_address_of(lower_rule_set.as_str(), Some(lower_rule.as_str()))
    };
    match parse_url(address.as_str()) {
        Ok(url) => Ok(Some(url)),
        Err(_) => Err(()),
    }
}

/// The diagnostic for a violation in a document with the text `content`, where `page` is
/// the address of the page on its rule.
pub open spec fn diagnostic_for(
    violation: ViolationView,
    content: Option<Seq<char>>,
    page: Option<Seq<char>>,
) -> DiagnosticView {
    let (first, last) = highlighted_lines(
        violation.begin_line,
        violation.end_line,
        violation.rule,
        violation.description,
        content,
    );
    let (start, end) = highlighted_columns(first, last, violation.rule, content);
    DiagnosticView {
        start: Position { line: zero_based(first), character: start },
        end: Position { line: zero_based(last), character: end },
        severity: severity_for(violation.priority),
        code: if violation.rule.len() == 0 { None } else { Some(violation.rule) },
        code_description: page,
        source: "phpmd"@,
        message: violation.description,
        data: violation,
    }
}

/// Makes the diagnostic for a violation.
pub fn diagnostic_of(
    violation: Violation,
    content: Option<&str>,
    page: Option<String>,
) -> (r: Diagnostic)
    ensures
        r@ == diagnostic_for(violation@, str_of(content), text_of(page)),
{
    let (first, last) = determine_diagnostic_range(
        violation.begin_line,
        violation.end_line,
        violation.rule.as_str(),
        violation.description.as_str(),
        content,
    );
    let (start, end) = determine_columns(first, last, violation.rule.as_str(), content);
    Diagnostic {
        start: Position { line: to_zero_based(first), character: start },
        end: Position { line: to_zero_based(last), character: end },
        severity: severity_of(violation.priority),
        code: if violation.rule.as_str().is_empty() { None } else { Some(violation.rule.clone()) },
        code_description: page,
        source: "phpmd".to_owned(),
        message: violation.description.clone(),
        data: violation,
    }
}

/// What an optional diagnostic holds.
pub open spec fn diagnostic_view(diagnostic: Option<Diagnostic>) -> Option<DiagnosticView> {
    match diagnostic {
        Some(d) => Some(d@),
        None => None,
    }
}

/// The diagnostic for a JSON value: none where it describes no violation, and none where
/// the address of the page on its rule is refused.
pub open spec fn converted(json: JsonView, content: Option<Seq<char>>) -> Option<DiagnosticView> {
    match violation_in(json) {
        Some(violation) => match rule_page(violation.rule_set, violation.rule) {
            Ok(page) => Some(diagnostic_for(violation, content, page)),
            Err(_) => None,
        },
        None => None,
    }
}

/// Converts an entry of PHPMD's report to a diagnostic.
pub fn convert_violation_to_diagnostic(violation: &Json, content: Option<&str>) -> (r: Option<
    Diagnostic,
>)
    ensures
        diagnostic_view(r) == converted(violation@, str_of(content)),
{
    match read_violation(violation) {
        Some(v) => match rule_page_of(v.rule_set.as_str(), v.rule.as_str()) {
            Ok(page) => Some(diagnostic_of(v, content, page)),
            Err(_) => None,
        },
        None => None,
    }
}

/// The diagnostics for a list of JSON values, in order.
pub open spec fn converted_all(
    violations: Seq<JsonView>,
    content: Option<Seq<char>>,
) -> Seq<DiagnosticView>
    decreases violations.len(),
{
    if violations.len() == 0 {
        Seq::empty()
    } else {
        let front = converted_all(violations.drop_last(), content);
        match converted(violations.last(), content) {
            Some(d) => front.push(d),
            None => front,
        }
    }
}

/// The diagnostics for the entry of one file in PHPMD's report.
pub open spec fn file_diagnostics(
    file: JsonView,
    content: Option<Seq<char>>,
) -> Seq<DiagnosticView> {
    match file.member_items("violations"@) {
        Some(violations) => converted_all(violations, content),
        None => Seq::empty(),
    }
}

/// The diagnostics for the entries of several files, in order.
pub open spec fn files_diagnostics(
    files: Seq<JsonView>,
    content: Option<Seq<char>>,
) -> Seq<DiagnosticView>
    decreases files.len(),
{
    if files.len() == 0 {
        Seq::empty()
    } else {
        files_diagnostics(files.drop_last(), content) + file_diagnostics(files.last(), content)
    }
}

/// The diagnostics for PHPMD's report.
pub open spec fn report_diagnostics(
    report: JsonView,
    content: Option<Seq<char>>,
) -> Seq<DiagnosticView> {
    match report.member_items("files"@) {
        Some(files) => files_diagnostics(files, content),
        None => Seq::empty(),
    }
}

/// Adds the diagnostics for the entry of one file.
fn add_file_diagnostics(file: &Json, content: Option<&str>, diagnostics: &mut Vec<Diagnostic>)
    ensures
        diagnostic_views(final(diagnostics)@) == diagnostic_views(old(diagnostics)@)
            + file_diagnostics(file@, str_of(content)),
{
    let ghost before = diagnostic_views(diagnostics@);
    if let Some(member) = file.member("violations") {
        if let Some(violations) = member.items() {
            let ghost all = item_views(violations@);
            let mut i: usize = 0;
            assert(all.take(0) =~= Seq::<JsonView>::empty());
            assert(before + converted_all(all.take(0), str_of(content)) =~= before);
            while i < violations.len()
                invariant
                    i <= violations@.len(),
                    all == item_views(violations@),
                    diagnostic_views(diagnostics@) == before + converted_all(
                        all.take(i as int),
                        str_of(content),
                    ),
                decreases violations@.len() - i,
            {
                let ghost now = diagnostics@;
                proof {
                    assert(all.take(i + 1).drop_last() =~= all.take(i as int));
                    assert(all[i as int] == violations@[i as int]@);
                }
                if let Some(diagnostic) = convert_violation_to_diagnostic(&violations[i], content) {
                    diagnostics.push(diagnostic);
                    assert(diagnostic_views(diagnostics@) =~= diagnostic_views(now).push(
                        diagnostic@,
                    ));
                }
                i = i + 1;
                assert(diagnostic_views(diagnostics@) =~= before + converted_all(
                    all.take(i as int),
                    str_of(content),
                ));
            }
            assert(all.take(i as int) =~= all);
            return ;
        }
    }
    assert(before + Seq::<DiagnosticView>::empty() =~= before);
}

/// Makes the diagnostics for PHPMD's report.
pub fn diagnostics_of_report(report: &Json, content: Option<&str>) -> (r: Vec<Diagnostic>)
    ensures
        diagnostic_views(r@) == report_diagnostics(report@, str_of(content)),
{
    let mut diagnostics: Vec<Diagnostic> = Vec::new();
    assert(diagnostic_views(diagnostics@) =~= Seq::<DiagnosticView>::empty());
    if let Some(member) = report.member("files") {
        if let Some(files) = member.items() {
            let ghost all = item_views(files@);
            let mut i: usize = 0;
            assert(all.take(0) =~= Seq::<JsonView>::empty());
            while i < files.len()
                invariant
                    i <= files@.len(),
                    all == item_views(files@),
                    diagnostic_views(diagnostics@) == files_diagnostics(
                        all.take(i as int),
                        str_of(content),
                    ),
                decreases files@.len() - i,
            {
                proof {
                    assert(all.take(i + 1).drop_last() =~= all.take(i as int));
                    assert(all[i as int] == files@[i as int]@);
                }
                add_file_diagnostics(&files[i], content, &mut diagnostics);
                i = i + 1;
            }
            assert(all.take(i as int) =~= all);
        }
    }
    diagnostics
}

/// The diagnostics for what PHPMD wrote: none where that is blank or not JSON.
pub open spec fn output_diagnostics(
    json_output: Seq<char>,
    content: Option<Seq<char>>,
) -> Seq<DiagnosticView> {
    if trim(json_output).len() == 0 {
        Seq::empty()
    } else {
        match parsed_json(json_output) {
            Some(report) => report_diagnostics(report, content),
            None => Seq::empty(),
        }
    }
}

/// Makes the diagnostics for the JSON text that PHPMD wrote about a document with the text
/// `content`.
pub fn parse_phpmd_output(json_output: &str, content: Option<&str>) -> (r: Vec<Diagnostic>)
    ensures
        diagnostic_views(r@) == output_diagnostics(json_output@, str_of(content)),
{
    if trimmed(&to_chars(json_output)).len() == 0 {
        let none: Vec<Diagnostic> = Vec::new();
        assert(diagnostic_views(none@) =~= Seq::<DiagnosticView>::empty());
        return none;
    }
    match parse_json(json_output) {
        Some(report) => diagnostics_of_report(&report, content),
        None => {
            let none: Vec<Diagnostic> = Vec::new();
            assert(diagnostic_views(none@) =~= Seq::<DiagnosticView>::empty());
            none
        },
    }
}

/// The predicate that holds of the diagnostics of one severity.
pub open spec fn of_severity(severity: DiagnosticSeverity) -> spec_fn(DiagnosticView) -> bool {
    |diagnostic: DiagnosticView| diagnostic.severity == severity
}

/// Counts the diagnostics of one severity.
pub fn count_severity(items: &Vec<Diagnostic>, severity: DiagnosticSeverity) -> (r: usize)
    ensures
        r == diagnostic_views(items@).filter(of_severity(severity)).len(),
{
    let ghost all = diagnostic_views(items@);
    let mut r: usize = 0;
    let mut i: usize = 0;
    proof {
        reveal(Seq::filter);
        assert(all.take(0).filter(of_severity(severity)) =~= Seq::empty());
    }
    while i < items.len()
        invariant
            i <= items@.len(),
            r <= i,
            all == diagnostic_views(items@),
            r == all.take(i as int).filter(of_severity(severity)).len(),
        decreases items@.len() - i,
    {
        proof {
            reveal(Seq::filter);
            assert(all.take(i + 1).drop_last() =~= all.take(i as int));
            assert(all[i as int] == items@[i as int]@);
        }
        if items[i].severity == severity {
            r = r + 1;
        }
        i = i + 1;
    }
    assert(all.take(i as int) =~= all);
    r
}

/// The diagnostics for a list of violations are those for its first part, followed by those
/// for the rest.
pub proof fn law_violations_keep_their_order(
    first: Seq<JsonView>,
    rest: Seq<JsonView>,
    content: Option<Seq<char>>,
)
    ensures
        converted_all(first + rest, content) == converted_all(first, content) + converted_all(
            rest,
            content,
        ),
        converted_all(first, content).len() <= first.len(),
    decreases rest.len(), first.len(),
{
    if rest.len() == 0 {
        assert(first + rest =~= first);
        assert(converted_all(first, content) + converted_all(rest, content) =~= converted_all(
            first,
            content,
        ));
        if first.len() > 0 {
            law_violations_keep_their_order(first.drop_last(), rest, content);
        }
    } else {
        law_violations_keep_their_order(first, rest.drop_last(), content);
        assert((first + rest).drop_last() =~= first + rest.drop_last());
        assert((first + rest).last() == rest.last());
        assert(converted_all(first + rest, content) =~= converted_all(first, content)
            + converted_all(rest, content));
    }
}

/// The diagnostics for a report on several files are those for the first files, followed by
/// those for the rest.
pub proof fn law_files_keep_their_order(
    first: Seq<JsonView>,
    rest: Seq<JsonView>,
    content: Option<Seq<char>>,
)
    ensures
        files_diagnostics(first + rest, content) == files_diagnostics(first, content)
            + files_diagnostics(rest, content),
    decreases rest.len(),
{
    if rest.len() == 0 {
        assert(first + rest =~= first);
        assert(files_diagnostics(first, content) + files_diagnostics(rest, content)
            =~= files_diagnostics(first, content));
    } else {
        law_files_keep_their_order(first, rest.drop_last(), content);
        assert((first + rest).drop_last() =~= first + rest.drop_last());
        assert((first + rest).last() == rest.last());
        assert(files_diagnostics(first + rest, content) =~= files_diagnostics(first, content)
            + files_diagnostics(rest, content));
    }
}

/// Every diagnostic shows what PHPMD reported of a violation: its description, its rule, and
/// a severity after its priority, with PHPMD as the source.
pub proof fn law_diagnostic_shows_the_violation(json: JsonView, content: Option<Seq<char>>)
    ensures
        match converted(json, content) {
            Some(diagnostic) => {
                &&& violation_in(json) == Some(diagnostic.data)
                &&& diagnostic.message == diagnostic.data.description
                &&& diagnostic.source == "phpmd"@
                &&& diagnostic.severity == severity_for(diagnostic.data.priority)
                &&& diagnostic.code is Some <==> diagnostic.data.rule.len() > 0
                &&& diagnostic.code_description is Some <==> diagnostic.data.rule_set.len() > 0
            },
            None => violation_in(json) is None || rule_page(
                violation_in(json)->Some_0.rule_set,
                violation_in(json)->Some_0.rule,
            ) is Err,
        },
{
}

/// A copy of an optional JSON value.
fn copy_json(value: &Option<Json>) -> (r: Option<Json>)
    ensures
        json_of(r) == json_of(*value),
{
    match value {
        Some(v) => Some(v.clone()),
        None => None,
    }
}

/// A copy of an optional text.
pub fn copy_text(text: &Option<String>) -> (r: Option<String>)
    ensures
        text_of(r) == text_of(*text),
{
    match text {
        Some(t) => Some(t.clone()),
        None => None,
    }
}

impl Clone for Violation {
    fn clone(&self) -> (r: Self)
        ensures
            r@ == self@,
    {
        Violation {
            begin_line: self.begin_line,
            end_line: self.end_line,
            description: self.description.clone(),
            rule: self.rule.clone(),
            rule_set: self.rule_set.clone(),
            priority: self.priority,
            class: copy_json(&self.class),
            method: copy_json(&self.method),
            function: copy_json(&self.function),
        }
    }
}

impl Clone for Diagnostic {
    fn clone(&self) -> (r: Self)
        ensures
            r@ == self@,
    {
        Diagnostic {
            start: self.start,
            end: self.end,
            severity: self.severity,
            code: copy_text(&self.code),
            code_description: copy_text(&self.code_description),
            source: self.source.clone(),
            message: self.message.clone(),
            data: self.data.clone(),
        }
    }
}

/// A copy of a list of diagnostics.
pub fn copy_diagnostics(items: &Vec<Diagnostic>) -> (r: Vec<Diagnostic>)
    ensures
        diagnostic_views(r@) == diagnostic_views(items@),
{
    let mut r: Vec<Diagnostic> = Vec::new();
    let mut i: usize = 0;
    while i < items.len()
        invariant
            i <= items@.len(),
            diagnostic_views(r@) =~= diagnostic_views(items@).take(i as int),
        decreases items@.len() - i,
    {
        let item = items[i].clone();
        let ghost before = r@;
        r.push(item);
        assert(diagnostic_views(r@) =~= diagnostic_views(before).push(item@));
        i = i + 1;
    }
    assert(diagnostic_views(r@) =~= diagnostic_views(items@));
    r
}

/// A JSON value with an unsigned number `beginLine`, a text `description` and a member `rule`
/// describes a violation with just these. What else it says of the violation is taken from
/// the members of that name; a missing last line is the first one, a missing priority is 3,
/// and a missing rule set, or a rule that is no text, is the empty text.
pub proof fn law_violation_is_read(
    json: JsonView,
    begin: u64,
    numeral: Seq<char>,
    description: Seq<char>,
    rule: JsonView,
)
    requires
        json.member("beginLine"@) == Some(JsonView::Number(Some(begin), numeral)),
        json.member("description"@) == Some(JsonView::Text(description)),
        json.member("rule"@) == Some(rule),
    ensures
        violation_in(json) is Some,
        ({
            let v = violation_in(json)->Some_0;
            &&& v.begin_line == begin as u32
            &&& begin <= u32::MAX ==> v.begin_line == begin
            &&& v.description == description
            &&& match rule {
                JsonView::Text(name) => v.rule == name,
                _ => v.rule.len() == 0,
            }
            &&& match json.member("endLine"@) {
                Some(JsonView::Number(Some(end), _)) => v.end_line == end as u32 && (end <= u32::MAX
                    ==> v.end_line == end),
                _ => v.end_line == v.begin_line,
            }
            &&& match json.member("ruleSet"@) {
                Some(JsonView::Text(name)) => v.rule_set == name,
                _ => v.rule_set.len() == 0,
            }
            &&& match json.member("priority"@) {
                Some(JsonView::Number(Some(priority), _)) => v.priority == priority,
                _ => v.priority == 3,
            }
            &&& v.class == json.member("class"@)
            &&& v.method == json.member("method"@)
            &&& v.function == json.member("function"@)
        }),
{
}

/// A JSON value that lacks one of the three members, or has another kind of value for the
/// first two, describes no violation.
pub proof fn law_incomplete_value_is_no_violation(json: JsonView)
    requires
        ({
            ||| !(json.member("beginLine"@) matches Some(JsonView::Number(Some(_), _)))
            ||| !(json.member("description"@) matches Some(JsonView::Text(_)))
            ||| json.member("rule"@) is None
        }),
    ensures
        violation_in(json) is None,
{
}

/// Priorities 1 and 2 are errors, 3 and 4 warnings, and all others information.
pub proof fn law_priority_gives_the_severity(priority: u64)
    ensures
        severity_for(priority) == DiagnosticSeverity::Error <==> priority == 1 || priority == 2,
        severity_for(priority) == DiagnosticSeverity::Warning <==> priority == 3 || priority == 4,
        severity_for(priority) == DiagnosticSeverity::Information <==> priority == 0 || priority
            >= 5,
{
}

/// In ASCII, lower case exchanges the letters from A to Z one for one and keeps the rest.
pub proof fn law_ascii_lower_case(text: Seq<char>)
    ensures
        ascii_lowercase(text).len() == text.len(),
        forall|i: int|
            0 <= i < text.len() ==> if 'A' <= text[i] <= 'Z' {
                #[trigger] ascii_lowercase(text)[i] as int - 'a' as int == text[i] as int
                    - 'A' as int
            } else {
                ascii_lowercase(text)[i] == text[i]
            },
{
}

/// Taking off a suffix once more changes nothing in the end.
proof fn lemma_strip_one(s: Seq<char>, suffix: Seq<char>)
    requires
        suffix.len() > 0,
    ensures
        strip_suffixes(s + suffix, suffix) == strip_suffixes(s, suffix),
{
    let all = s + suffix;
    assert(all.subrange(s.len() as int, all.len() as int) =~= suffix);
    assert(all.take(s.len() as int) =~= s);
}

/// A text without spaces passes the filter as it is.
proof fn lemma_no_spaces(text: Seq<char>)
    requires
        !text.contains(' '),
    ensures
        text.filter(not_space()) == text,
    decreases text.len(),
{
    reveal(Seq::filter);
    if text.len() > 0 {
        assert(text.contains(text.last()));
        assert forall|i: int| 0 <= i < text.drop_last().len() implies text.drop_last()[i]
            != ' ' by {
            assert(text.contains(text[i]));
        }
        lemma_no_spaces(text.drop_last());
        assert(text =~= text.drop_last().push(text.last()));
    }
}

/// Spaces in the name of a rule set do not show in the address of its page, nor does the word
/// "rules" at its end, however often; what is left shows as it is.
pub proof fn law_slug_is_the_bare_name(a: Seq<char>, b: Seq<char>)
    ensures
        slug_for(a + " "@ + b) == slug_for(a + b),
        slug_for(a + "rules"@) == slug_for(a),
        !a.contains(' ') && !(exists|front: Seq<char>| a == #[trigger] (front + "rules"@))
            ==> slug_for(a) == a,
{
    reveal_strlit(" ");
    reveal_strlit("rules");
    let p = not_space();
    Seq::filter_distributes_over_add(a + " "@, b, p);
    Seq::filter_distributes_over_add(a, " "@, p);
    Seq::filter_distributes_over_add(a, b, p);
    assert(" "@.filter(p) =~= Seq::empty()) by {
        reveal(Seq::filter);
        assert(" "@.drop_last() =~= Seq::empty());
        assert(" "@.drop_last().filter(p) =~= Seq::empty());
    }
    assert(a.filter(p) + " "@.filter(p) =~= a.filter(p));
    Seq::filter_distributes_over_add(a, "rules"@, p);
    assert forall|i: int| 0 <= i < "rules"@.len() implies "rules"@[i] != ' ' by {
        assert("rules"@[0] == 'r' && "rules"@[1] == 'u' && "rules"@[2] == 'l' && "rules"@[3] == 'e'
            && "rules"@[4] == 's');
    }
    lemma_no_spaces("rules"@);
    lemma_strip_one(a.filter(p), "rules"@);
    if !a.contains(' ') && !(exists|front: Seq<char>| a == #[trigger] (front + "rules"@)) {
        lemma_no_spaces(a);
        law_ends_can_be_split_off(a, "rules"@);
    }
}

/// The page on a rule set stands among PHPMD's rules, and the rule is a place on that page.
pub proof fn law_rule_is_a_place_on_the_page(rule_set: Seq<char>, rule: Seq<char>)
    ensures
        page_address(rule_set, None) == "https://phpmd.org/rules/"@ + slug_for(rule_set)
            + ".html"@,
        page_address(rule_set, Some(rule)) == page_address(rule_set, None) + "#"@ + rule,
{
}

/// A violation of no rule set has no page. Else its page is the one on the rule set, and on
/// the rule where it names one, in the normal form of addresses.
pub proof fn law_rule_page_is_the_page_of_the_rule(rule_set: Seq<char>, rule: Seq<char>)
    ensures
        rule_set.len() == 0 ==> rule_page(rule_set, rule) == Ok::<Option<Seq<char>>, ()>(None),
        rule_set.len() > 0 ==> {
            let address = if rule.len() > 0 {
                page_address(lowercase(rule_set), None) + "#"@ + lowercase(rule)
            } else {
                page_address(lowercase(rule_set), None)
            };
            match url_text(address) {
                Some(url) => rule_page(rule_set, rule) == Ok::<Option<Seq<char>>, ()>(Some(url)),
                None => rule_page(rule_set, rule) is Err,
            }
        },
{
}

/// The range of a diagnostic is the highlighted span: its lines are the highlighted ones,
/// counted from 0, and its columns are those of the highlight on these lines.
pub proof fn law_range_is_the_highlight(
    violation: ViolationView,
    content: Option<Seq<char>>,
    page: Option<Seq<char>>,
)
    ensures
        ({
            let d = diagnostic_for(violation, content, page);
            let (first, last) = highlighted_lines(
                violation.begin_line,
                violation.end_line,
                violation.rule,
                violation.description,
                content,
            );
            &&& d.start.line as int == if first > 0 {
                first - 1
            } else {
                0
            }
            &&& d.end.line as int == if last > 0 {
                last - 1
            } else {
                0
            }
            &&& (d.start.character, d.end.character) == highlighted_columns(
                first,
                last,
                violation.rule,
                content,
            )
        }),
{
}

/// A violation that is reported on up to six lines is shown on just these lines, unless its
/// rule is one that is shown on one line: one on a class, on a property, on an expression, on
/// a variable or on the error control operator.
pub proof fn law_short_violation_is_shown_whole(
    violation: ViolationView,
    content: Option<Seq<char>>,
    page: Option<Seq<char>>,
)
    requires
        0 < violation.begin_line <= violation.end_line <= violation.begin_line + 5,
        violation.rule != "ElseExpression"@,
        violation.rule != "ShortVariable"@,
        violation.rule != "LongVariable"@,
        violation.rule != "GotoStatement"@,
        violation.rule != "ExitExpression"@,
        violation.rule != "EvalExpression"@,
        violation.rule != "ErrorControlOperator"@,
        violation.rule != "TooManyPublicMethods"@,
        violation.rule != "TooManyMethods"@,
        violation.rule != "TooManyFields"@,
        violation.rule != "ExcessivePublicCount"@,
        violation.rule != "ExcessiveClassComplexity"@,
        violation.rule != "ExcessiveClassLength"@,
        violation.rule != "CouplingBetweenObjects"@,
        violation.rule != "NumberOfChildren"@,
        violation.rule != "DepthOfInheritance"@,
        violation.rule != "CamelCaseClassName"@,
        violation.rule != "CamelCasePropertyName"@,
        violation.rule != "CamelCaseParameterName"@,
        violation.rule != "CamelCaseVariableName"@,
    ensures
        ({
            let d = diagnostic_for(violation, content, page);
            d.start.line + 1 == violation.begin_line && d.end.line + 1 == violation.end_line
        }),
{
}

/// A diagnostic carries the message, the rule, the severity and the page of its violation, and
/// the violation itself.
pub proof fn law_diagnostic_carries_the_violation(
    violation: ViolationView,
    content: Option<Seq<char>>,
    page: Option<Seq<char>>,
)
    ensures
        ({
            let d = diagnostic_for(violation, content, page);
            &&& d.message == violation.description
            &&& d.source == "phpmd"@
            &&& d.severity == severity_for(violation.priority)
            &&& violation.rule.len() > 0 ==> d.code == Some(violation.rule)
            &&& violation.rule.len() == 0 ==> d.code is None
            &&& d.code_description == page
            &&& d.data == violation
        }),
{
}

/// A JSON value converts to a diagnostic just where it describes a violation whose page, if it
/// names a rule set, has a proper address; the diagnostic is the one for that violation.
pub proof fn law_every_violation_converts(json: JsonView, content: Option<Seq<char>>)
    ensures
        violation_in(json) is None ==> converted(json, content) is None,
        violation_in(json) matches Some(v) ==> v.rule_set.len() == 0 ==> converted(json, content)
            == Some(diagnostic_for(v, content, None)),
        violation_in(json) matches Some(v) ==> v.rule_set.len() > 0 ==> match rule_page(
            v.rule_set,
            v.rule,
        ) {
            Ok(page) => page is Some && converted(json, content) == Some(
                diagnostic_for(v, content, page),
            ),
            Err(_) => converted(json, content) is None,
        },
{
}

/// The predicate that holds of the JSON values that convert to a diagnostic.
pub open spec fn converts(content: Option<Seq<char>>) -> spec_fn(JsonView) -> bool {
    |json: JsonView| converted(json, content) is Some
}

/// A list of one entry gives the diagnostic that the entry converts to, or none where it
/// converts to none.
pub proof fn law_one_violation_gives_its_diagnostic(json: JsonView, content: Option<Seq<char>>)
    ensures
        converted_all(seq![json], content) == match converted(json, content) {
            Some(diagnostic) => seq![diagnostic],
            None => Seq::empty(),
        },
        converted_all(Seq::empty(), content).len() == 0,
{
    assert(seq![json].drop_last() =~= Seq::<JsonView>::empty());
    assert(converted_all(seq![json].drop_last(), content) =~= Seq::empty());
}

/// Each entry that converts gives one diagnostic, its own: there are as many diagnostics as
/// entries that convert, and they stand in the order of these.
pub proof fn law_each_violation_gives_its_diagnostic(
    violations: Seq<JsonView>,
    content: Option<Seq<char>>,
)
    ensures
        converted_all(violations, content).len() == violations.filter(converts(content)).len(),
        forall|i: int|
            0 <= i < converted_all(violations, content).len() ==> Some(
                #[trigger] converted_all(violations, content)[i],
            ) == converted(violations.filter(converts(content))[i], content),
        forall|i: int|
            0 <= i < violations.len() && converted(#[trigger] violations[i], content) is Some
                ==> converted_all(violations, content).contains(
                converted(violations[i], content)->Some_0,
            ),
    decreases violations.len(),
{
    reveal(Seq::filter);
    if violations.len() > 0 {
        let front = violations.drop_last();
        let all = converted_all(violations, content);
        let before = converted_all(front, content);
        law_each_violation_gives_its_diagnostic(front, content);
        let last = violations.last();
        let kept = front.filter(converts(content));
        if converted(last, content) is Some {
            assert(converts(content)(last));
            assert(violations.filter(converts(content)) == kept.push(last));
            assert(all == before.push(converted(last, content)->Some_0));
        } else {
            assert(!converts(content)(last));
            assert(violations.filter(converts(content)) == kept);
            assert(all == before);
        }
        assert forall|i: int| 0 <= i < all.len() implies Some(#[trigger] all[i]) == converted(
            violations.filter(converts(content))[i],
            content,
        ) by {
            if i < before.len() {
                assert(all[i] == before[i]);
            }
        }
        assert forall|i: int|
            0 <= i < violations.len() && converted(
                #[trigger] violations[i],
                content,
            ) is Some implies all.contains(converted(violations[i], content)->Some_0) by {
            let d = converted(violations[i], content)->Some_0;
            if i < front.len() {
                assert(front[i] == violations[i]);
                assert(before.contains(d));
                let k = choose|k: int| 0 <= k < before.len() && before[k] == d;
                assert(all[k] == d);
            } else {
                assert(all[all.len() - 1] == d);
            }
        }
    }
}

/// The entry of a file gives the diagnostics of its list `violations`, and none without one.
pub proof fn law_file_gives_its_violations(file: JsonView, content: Option<Seq<char>>)
    ensures
        match file.member("violations"@) {
            Some(JsonView::Array(violations)) => file_diagnostics(file, content) == converted_all(
                violations,
                content,
            ),
            _ => file_diagnostics(file, content).len() == 0,
        },
        files_diagnostics(seq![file], content) == file_diagnostics(file, content),
        files_diagnostics(Seq::empty(), content).len() == 0,
{
    assert(seq![file].drop_last() =~= Seq::<JsonView>::empty());
    assert(files_diagnostics(seq![file].drop_last(), content) =~= Seq::empty());
    assert(files_diagnostics(seq![file], content) =~= file_diagnostics(file, content));
}

/// A report gives the diagnostics of the files in its list `files`, and none without one.
pub proof fn law_report_gives_its_files(report: JsonView, content: Option<Seq<char>>)
    ensures
        match report.member("files"@) {
            Some(JsonView::Array(files)) => report_diagnostics(report, content)
                == files_diagnostics(files, content),
            _ => report_diagnostics(report, content).len() == 0,
        },
{
}

/// Output gives the diagnostics of the report that it stands for; output that is blank, or
/// that is not JSON, gives none.
pub proof fn law_output_gives_its_report(output: Seq<char>, content: Option<Seq<char>>)
    ensures
        match parsed_json(output) {
            Some(report) => (exists|i: int|
                0 <= i < output.len() && !is_whitespace(#[trigger] output[i]))
                ==> output_diagnostics(output, content) == report_diagnostics(report, content),
            None => output_diagnostics(output, content).len() == 0,
        },
        (forall|i: int| 0 <= i < output.len() ==> is_whitespace(#[trigger] output[i]))
            ==> output_diagnostics(output, content).len() == 0,
{
    lemma_leading(output, blank());
    let n = leading(output, blank()) as int;
    let rest = trim_start(output);
    lemma_trim_end_splits(rest);
    if exists|i: int| 0 <= i < output.len() && !is_whitespace(#[trigger] output[i]) {
        let i = choose|i: int| 0 <= i < output.len() && !is_whitespace(#[trigger] output[i]);
        if i < n {
            assert(blank()(output[i]));
        }
        assert(rest[i - n] == output[i]);
        assert(trim(output).len() > 0);
    }
    if forall|i: int| 0 <= i < output.len() ==> is_whitespace(#[trigger] output[i]) {
        law_trimming_takes_off_white_space(output, Seq::empty(), Seq::empty());
        assert(output + Seq::<char>::empty() + Seq::<char>::empty() =~= output);
    }
}

/// A diagnostic is counted under its severity.
pub proof fn law_diagnostics_count_under_their_severity(
    a: Seq<DiagnosticView>,
    d: DiagnosticView,
    severity: DiagnosticSeverity,
)
    ensures
        a.push(d).filter(of_severity(severity)).len() == a.filter(of_severity(severity)).len()
            + if d.severity == severity {
            1int
        } else {
            0
        },
{
    reveal(Seq::filter);
    assert(a.push(d).drop_last() =~= a);
}

/// A list of diagnostics holds what each of them holds, in order.
pub proof fn law_diagnostics_are_those_of_the_list(items: Seq<Diagnostic>)
    ensures
        diagnostic_views(items).len() == items.len(),
        forall|i: int|
            0 <= i < items.len() ==> {
                let view = #[trigger] diagnostic_views(items)[i];
                &&& view.start == items[i].start
                &&& view.end == items[i].end
                &&& view.severity == items[i].severity
                &&& view.code == text_of(items[i].code)
                &&& view.code_description == text_of(items[i].code_description)
                &&& view.source == items[i].source@
                &&& view.message == items[i].message@
                &&& view.data.rule == items[i].data.rule@
                &&& view.data.rule_set == items[i].data.rule_set@
                &&& view.data.description == items[i].data.description@
                &&& view.data.priority == items[i].data.priority
                &&& view.data.begin_line == items[i].data.begin_line
                &&& view.data.end_line == items[i].data.end_line
                &&& view.data.class == json_of(items[i].data.class)
                &&& view.data.method == json_of(items[i].data.method)
                &&& view.data.function == json_of(items[i].data.function)
            },
{
}

} // verus!
