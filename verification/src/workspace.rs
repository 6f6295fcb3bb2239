//! What surrounds the documents: the PHPMD executable and how it is called, its
//! configuration, and the root of a project.
use crate::text::{
    contains, ends_with, finishes_with, joined, law_ends_can_be_split_off,
    law_ends_of_a_joined_text, law_search_finds_what_is_within, leading, lemma_leading,
    lemma_leading_is, occurs_in, placed, same_text, text_of, texts, within,
};
use vstd::prelude::*;

verus! {

/// How many processes of PHPMD may run at a time.
pub const MAX_PROCESSES: usize = 4;

/// How many seconds a process of PHPMD may take.
pub const TIMEOUT_SECONDS: u64 = 10;

/// All rule sets of PHPMD, which are used where no configuration is found.
pub open spec fn fallback_rulesets() -> Seq<char> {
    "cleancode,codesize,controversial,design,naming,unusedcode"@
}

/// All rule sets of PHPMD.
pub fn all_rulesets() -> (r: String)
    ensures
        r@ == fallback_rulesets(),
{
    "cleancode,codesize,controversial,design,naming,unusedcode".to_owned()
}

/// A list of one text more.
fn add(list: &mut Vec<String>, text: &str)
    ensures
        texts(final(list)@) == texts(old(list)@).push(text@),
{
    let ghost before = list@;
    list.push(text.to_owned());
    assert(texts(list@) =~= texts(before).push(text@));
}

/// The configuration files that a project may have, the preferred one first.
pub fn config_file_names() -> (r: Vec<String>)
    ensures
        texts(r@) == seq!["phpmd.xml"@, "phpmd.xml.dist"@, ".phpmd.xml"@, ".phpmd.xml.dist"@],
{
    let mut r: Vec<String> = Vec::new();
    self::add(&mut r, "phpmd.xml");
    self::add(&mut r, "phpmd.xml.dist");
    self::add(&mut r, ".phpmd.xml");
    self::add(&mut r, ".phpmd.xml.dist");
    r
}

/// A configuration file that was looked for.
pub struct ConfigFile {
    /// Its path, where that is Unicode.
    pub path: Option<String>,
    /// Its contents, where it exists and can be read.
    pub contents: Option<String>,
}

/// What a configuration file holds.
pub struct ConfigFileView {
    pub path: Option<Seq<char>>,
    pub contents: Option<Seq<char>>,
}

impl View for ConfigFile {
    type V = ConfigFileView;

    open spec fn view(&self) -> ConfigFileView {
        ConfigFileView { path: text_of(self.path), contents: text_of(self.contents) }
    }
}

/// What a list of configuration files holds.
pub open spec fn config_views(files: Seq<ConfigFile>) -> Seq<ConfigFileView> {
    Seq::new(files.len(), |i: int| files[i]@)
}

/// Whether a text defines a rule set.
pub open spec fn defines_ruleset(contents: Seq<char>) -> bool {
    occurs_in("<ruleset"@, contents) && occurs_in("</ruleset>"@, contents)
}

/// Whether a configuration file can be used.
pub open spec fn usable(file: ConfigFileView) -> bool {
    file.path is Some && file.contents is Some && defines_ruleset(file.contents->Some_0)
}

/// The predicate that holds of the configuration files that cannot be used.
pub open spec fn unusable() -> spec_fn(ConfigFileView) -> bool {
    |file: ConfigFileView| !usable(file)
}

/// The rule sets to use: the path of the first usable configuration file, or all of them.
pub open spec fn discovered(files: Seq<ConfigFileView>) -> Seq<char> {
    let n = leading(files, unusable());
    if n < files.len() {
        files[n as int].path->Some_0
    } else {
        fallback_rulesets()
    }
}

/// Tests whether a text defines a rule set.
pub fn is_ruleset(contents: &str) -> (r: bool)
    ensures
        r == defines_ruleset(contents@),
{
    contains(contents, "<ruleset") && contains(contents, "</ruleset>")
}

/// Chooses the rule sets to use from the configuration files of a project.
pub fn rulesets_in(files: &Vec<ConfigFile>) -> (r: String)
    ensures
        r@ == discovered(config_views(files@)),
{
    let ghost views = config_views(files@);
    let mut i: usize = 0;
    while i < files.len()
        invariant
            i <= files@.len(),
            views == config_views(files@),
            forall|j: int| 0 <= j < i ==> !usable(#[trigger] views[j]),
        decreases files@.len() - i,
    {
        assert(views[i as int] == files@[i as int]@);
        if let Some(contents) = &files[i].contents {
            if is_ruleset(contents.as_str()) {
                if let Some(path) = &files[i].path {
                    proof {
                        lemma_leading_is(views, unusable(), i as nat);
                    }
                    return path.clone();
                }
            }
        }
        i = i + 1;
    }
    proof {
        lemma_leading_is(views, unusable(), views.len());
    }
    all_rulesets()
}

/// Whether configuration files are looked for before an analysis: where nothing is
/// configured, and where nothing was found before.
pub open spec fn discovery_due(rulesets: Option<Seq<char>>) -> bool {
    match rulesets {
        Some(names) => names == fallback_rulesets(),
        None => true,
    }
}

/// Tests whether to look for configuration files before an analysis.
pub fn should_discover(rulesets: &Option<String>) -> (r: bool)
    ensures
        r == discovery_due(text_of(*rulesets)),
{
    match rulesets {
        Some(names) => same_text(
            names.as_str(),
            "cleancode,codesize,controversial,design,naming,unusedcode",
        ),
        None => true,
    }
}

/// Where the rule sets come from.
#[derive(Clone, Copy, Debug, PartialEq, Eq, Structural)]
pub enum RulesetSource {
    /// From nowhere: none are set.
    Default,
    /// They are the path of a configuration file.
    ConfigFile,
    /// They are all of PHPMD's.
    Fallback,
    /// They are names that someone chose.
    Custom,
}

/// Where rule sets come from.
pub open spec fn source_of(rulesets: Option<Seq<char>>) -> RulesetSource {
    match rulesets {
        None => RulesetSource::Default,
        Some(names) => if finishes_with(names, ".xml"@) || finishes_with(names, ".xml.dist"@) {
            RulesetSource::ConfigFile
        } else if names == fallback_rulesets() {
            RulesetSource::Fallback
        } else {
            RulesetSource::Custom
        },
    }
}

/// Tells where rule sets come from.
pub fn ruleset_source(rulesets: &Option<String>) -> (r: RulesetSource)
    ensures
        r == source_of(text_of(*rulesets)),
{
    match rulesets {
        None => RulesetSource::Default,
        Some(names) => {
            if ends_with(names.as_str(), ".xml") || ends_with(names.as_str(), ".xml.dist") {
                RulesetSource::ConfigFile
            } else if should_discover(rulesets) {
                RulesetSource::Fallback
            } else {
                RulesetSource::Custom
            }
        },
    }
}

/// What is discovered is the path of a usable configuration file with no usable one in front
/// of it, or, where none is usable, all of PHPMD's rule sets.
pub proof fn law_first_usable_file_is_discovered(files: Seq<ConfigFileView>)
    ensures
        ({
            ||| discovered(files) == fallback_rulesets() && forall|i: int|
                0 <= i < files.len() ==> !usable(#[trigger] files[i])
            ||| exists|i: int|
                0 <= i < files.len() && usable(#[trigger] files[i]) && discovered(files)
                    == files[i].path->Some_0 && forall|j: int|
                    0 <= j < i ==> !usable(#[trigger] files[j])
        }),
{
    lemma_leading(files, unusable());
    let n = leading(files, unusable()) as int;
    assert forall|j: int| 0 <= j < n implies !usable(#[trigger] files[j]) by {
        assert(unusable()(files[j]));
    }
    if n < files.len() {
        assert(!unusable()(files[n]));
        assert(usable(files[n]));
    }
}

/// The root that is found is the nearest directory with a marker.
pub proof fn law_nearest_marked_directory_is_root(found: Seq<Seq<bool>>, has_workspace: bool)
    requires
        found.len() <= usize::MAX,
    ensures
        match project_root(found, has_workspace) {
            ProjectRoot::Ancestor(n) => n < found.len() && any_found(found[n as int]) && forall|
                i: int,
            |
                0 <= i < n ==> !any_found(#[trigger] found[i]),
            ProjectRoot::Workspace => has_workspace && forall|i: int|
                0 <= i < found.len() ==> !any_found(#[trigger] found[i]),
            ProjectRoot::Current => !has_workspace && forall|i: int|
                0 <= i < found.len() ==> !any_found(#[trigger] found[i]),
        },
{
    lemma_leading(found, nothing_found());
    let n = leading(found, nothing_found()) as int;
    assert forall|i: int| 0 <= i < n implies !any_found(#[trigger] found[i]) by {
        assert(nothing_found()(found[i]));
    }
    if n < found.len() {
        assert(!nothing_found()(found[n]));
    }
}

/// The entries that mark a directory as the root of a project.
pub fn project_markers() -> (r: Vec<String>)
    ensures
        texts(r@) == seq![
            "composer.json"@,
            "phpmd.xml"@,
            "phpmd.xml.dist"@,
            ".phpmd.xml"@,
            ".git"@,
        ],
{
    let mut r: Vec<String> = Vec::new();
    self::add(&mut r, "composer.json");
    self::add(&mut r, "phpmd.xml");
    self::add(&mut r, "phpmd.xml.dist");
    self::add(&mut r, ".phpmd.xml");
    self::add(&mut r, ".git");
    r
}

/// Where a project has its root.
#[derive(Clone, Copy, Debug, PartialEq, Eq, Structural)]
pub enum ProjectRoot {
    /// In a directory above the file, counted from the one that holds it.
    Ancestor(usize),
    /// In the root of the workspace.
    Workspace,
    /// In the current directory.
    Current,
}

/// Whether one of the markers was found.
pub open spec fn any_found(found: Seq<bool>) -> bool {
    exists|i: int| 0 <= i < found.len() && #[trigger] found[i]
}

/// What was found of the markers in each directory.
pub open spec fn found_views(found: Seq<Vec<bool>>) -> Seq<Seq<bool>> {
    Seq::new(found.len(), |i: int| found[i]@)
}

/// The predicate that holds of directories in which no marker was found.
pub open spec fn nothing_found() -> spec_fn(Seq<bool>) -> bool {
    |found: Seq<bool>| !any_found(found)
}

/// The root of a project, from the markers found in the directories above a file.
pub open spec fn project_root(found: Seq<Seq<bool>>, has_workspace: bool) -> ProjectRoot {
    let n = leading(found, nothing_found());
    if n < found.len() {
        ProjectRoot::Ancestor(n as usize)
    } else if has_workspace {
        ProjectRoot::Workspace
    } else {
        ProjectRoot::Current
    }
}

/// Tests whether one of the markers was found.
fn found_any(found: &Vec<bool>) -> (r: bool)
    ensures
        r == any_found(found@),
{
    let mut i: usize = 0;
    while i < found.len()
        invariant
            i <= found@.len(),
            forall|j: int| 0 <= j < i ==> !#[trigger] found@[j],
        decreases found@.len() - i,
    {
        if found[i] {
            return true;
        }
        i = i + 1;
    }
    false
}

/// Finds the root of a project. `found` tells, for the directory of a file and each one
/// above it, which of the markers stand in it.
pub fn find_project_root(found: &Vec<Vec<bool>>, has_workspace: bool) -> (r: ProjectRoot)
    ensures
        r == project_root(found_views(found@), has_workspace),
{
    let ghost views = found_views(found@);
    let mut i: usize = 0;
    while i < found.len()
        invariant
            i <= found@.len(),
            views == found_views(found@),
            forall|j: int| 0 <= j < i ==> !any_found(#[trigger] views[j]),
        decreases found@.len() - i,
    {
        assert(views[i as int] == found@[i as int]@);
        if found_any(&found[i]) {
            proof {
                lemma_leading_is(views, nothing_found(), i as nat);
            }
            return ProjectRoot::Ancestor(i);
        }
        i = i + 1;
    }
    proof {
        lemma_leading_is(views, nothing_found(), views.len());
    }
    if has_workspace {
        ProjectRoot::Workspace
    } else {
        ProjectRoot::Current
    }
}

/// Where the executable of PHPMD stands in a workspace, seen from its root.
pub fn project_phpmd_name() -> (r: String)
    ensures
        r@ == "vendor/bin/phpmd"@,
{
    "vendor/bin/phpmd".to_owned()
}

/// Where the bundled PHPMD stands, seen from the directory of the language server.
pub fn bundled_phpmd_name() -> (r: String)
    ensures
        r@ == "phpmd.phar"@,
{
    "phpmd.phar".to_owned()
}

/// The paths of the executables of PHPMD that exist.
pub struct PhpmdLocations {
    /// The one that `project_phpmd_name` names in the workspace.
    pub project: Option<String>,
    /// The one that `bundled_phpmd_name` names beside the language server.
    pub bundled: Option<String>,
}

/// The executable to use: that of the project, else the bundled one, else the one that the
/// system finds.
pub open spec fn preferred(project: Option<Seq<char>>, bundled: Option<Seq<char>>) -> Seq<char> {
    match (project, bundled) {
        (Some(path), _) => path,
        (None, Some(path)) => path,
        (None, None) => "phpmd"@,
    }
}

/// Chooses the executable to use.
pub fn choose_phpmd(locations: PhpmdLocations) -> (r: String)
    ensures
        r@ == preferred(text_of(locations.project), text_of(locations.bundled)),
{
    match locations.project {
        Some(path) => path,
        None => match locations.bundled {
            Some(path) => path,
            None => "phpmd".to_owned(),
        },
    }
}

/// How to call PHPMD on a file: the path of the file stands between the two lists of
/// arguments.
pub struct PhpmdCommand {
    pub program: String,
    pub args_before_file: Vec<String>,
    pub args_after_file: Vec<String>,
}

/// Whether an executable is an archive that PHP has to run.
pub open spec fn is_archive(phpmd_path: Seq<char>) -> bool {
    finishes_with(phpmd_path, ".phar"@)
}

/// The program to run.
pub open spec fn program_for(phpmd_path: Seq<char>) -> Seq<char> {
    if is_archive(phpmd_path) {
        "php"@
    } else {
        phpmd_path
    }
}

/// The arguments in front of the file: PHP is told to keep its own errors out of the output.
pub open spec fn args_before(phpmd_path: Seq<char>) -> Seq<Seq<char>> {
    if is_archive(phpmd_path) {
        seq![
            "-d"@,
            "error_reporting=0"@,
            "-d"@,
            "display_errors=0"@,
            "-d"@,
            "display_startup_errors=0"@,
            "-d"@,
            "log_errors=0"@,
            phpmd_path,
        ]
    } else {
        seq![]
    }
}

/// The arguments behind the file: the format, a sink for PHPMD's errors and the rule sets.
pub open spec fn args_after(rulesets: Option<Seq<char>>) -> Seq<Seq<char>> {
    let names = match rulesets {
        Some(names) => names,
        None => fallback_rulesets(),
    };
    seq!["json"@, "--error-file"@, "/dev/null"@, names]
}

/// Composes the call of PHPMD.
pub fn phpmd_command(phpmd_path: &str, rulesets: &Option<String>) -> (r: PhpmdCommand)
    ensures
        r.program@ == program_for(phpmd_path@),
        texts(r.args_before_file@) == args_before(phpmd_path@),
        texts(r.args_after_file@) == args_after(text_of(*rulesets)),
{
    let mut before: Vec<String> = Vec::new();
    let mut after: Vec<String> = Vec::new();
    let archive = ends_with(phpmd_path, ".phar");
    assert(texts(before@) =~= Seq::<Seq<char>>::empty());
    if archive {
        self::add(&mut before, "-d");
        self::add(&mut before, "error_reporting=0");
        self::add(&mut before, "-d");
        self::add(&mut before, "display_errors=0");
        self::add(&mut before, "-d");
        self::add(&mut before, "display_startup_errors=0");
        self::add(&mut before, "-d");
        self::add(&mut before, "log_errors=0");
        self::add(&mut before, phpmd_path);
    }
    self::add(&mut after, "json");
    self::add(&mut after, "--error-file");
    self::add(&mut after, "/dev/null");
    match rulesets {
        Some(names) => self::add(&mut after, names.as_str()),
        None => self::add(&mut after, all_rulesets().as_str()),
    }
    let program = if archive { "php".to_owned() } else { phpmd_path.to_owned() };
    PhpmdCommand { program, args_before_file: before, args_after_file: after }
}

/// Whether a text has the form of a random UUID: groups of 8, 4, 4, 4 and 12 hexadecimal
/// digits in lower case, with the version 4 and the variant of RFC 9562.
pub open spec fn is_random_uuid(id: Seq<char>) -> bool {
    &&& id.len() == 36
    &&& forall|i: int|
        0 <= i < 36 ==> {
            let c = #[trigger] id[i];
            if i == 8 || i == 13 || i == 18 || i == 23 {
                c == '-'
            } else if i == 14 {
                c == '4'
            } else if i == 19 {
                c == '8' || c == '9' || c == 'a' || c == 'b'
            } else {
                '0' <= c <= '9' || 'a' <= c <= 'f'
            }
        }
}

/// `uuid::Uuid::new_v4` draws a random UUID, and its `to_string` writes it in hyphenated
/// form. Which one it is depends on chance. The call panics where the operating system has
/// no random bytes to give.
#[verifier::external_body]
fn random_uuid() -> (r: String)
    ensures
        is_random_uuid(r@),
{
    uuid::Uuid::new_v4().to_string()
}

/// Name of the temporary file for an analysis.
pub open spec fn temp_file_for(id: Seq<char>) -> Seq<char> {
    "phpmd-"@ + id + ".php"@
}

/// Names the temporary file for an analysis.
pub fn temp_file_name(id: &str) -> (r: String)
    ensures
        r@ == temp_file_for(id@),
{
    joined(joined("phpmd-", id).as_str(), ".php")
}

/// Names a temporary file that no other analysis uses, as far as random UUIDs differ.
pub fn new_temp_file_name() -> (r: String)
    ensures
        exists|id: Seq<char>| is_random_uuid(id) && r@ == #[trigger] temp_file_for(id),
{
    let id = random_uuid();
    let r = temp_file_name(id.as_str());
    assert(r@ == temp_file_for(id@));
    r
}

/// A text defines a rule set just where it has both tags somewhere; so text in front of it and
/// behind it does not matter.
pub proof fn law_ruleset_has_both_tags(before: Seq<char>, contents: Seq<char>, after: Seq<char>)
    ensures
        defines_ruleset(contents) <==> within("<ruleset"@, contents) && within(
            "</ruleset>"@,
            contents,
        ),
        defines_ruleset(contents) ==> defines_ruleset(before + contents + after),
{
    law_search_finds_what_is_within("<ruleset"@, contents);
    law_search_finds_what_is_within("</ruleset>"@, contents);
    let all = before + contents + after;
    law_search_finds_what_is_within("<ruleset"@, all);
    law_search_finds_what_is_within("</ruleset>"@, all);
    if defines_ruleset(contents) {
        lemma_within_more("<ruleset"@, before, contents, after);
        lemma_within_more("</ruleset>"@, before, contents, after);
    }
}

/// What is within a text is within every text around it.
proof fn lemma_within_more(
    piece: Seq<char>,
    before: Seq<char>,
    text: Seq<char>,
    after: Seq<char>,
)
    requires
        within(piece, text),
    ensures
        within(piece, before + text + after),
{
    let (a, b) = choose|a: Seq<char>, b: Seq<char>| text == #[trigger] placed(a, piece, b);
    assert(before + text + after =~= placed(before + a, piece, b + after));
}

/// Of configuration files the first is taken where it has a path and its contents have both
/// tags, wherever they stand; else the choice is among the others. Without any, all of
/// PHPMD's rule sets are used.
pub proof fn law_files_are_tried_in_order(file: ConfigFileView, rest: Seq<ConfigFileView>)
    ensures
        file.path is Some && file.contents is Some && within("<ruleset"@, file.contents->Some_0)
            && within("</ruleset>"@, file.contents->Some_0) ==> discovered(seq![file] + rest)
            == file.path->Some_0,
        !(file.path is Some && file.contents is Some && within(
            "<ruleset"@,
            file.contents->Some_0,
        ) && within("</ruleset>"@, file.contents->Some_0)) ==> discovered(seq![file] + rest)
            == discovered(rest),
        discovered(Seq::empty())
            == "cleancode,codesize,controversial,design,naming,unusedcode"@,
{
    let files = seq![file] + rest;
    assert(files[0] == file);
    assert(files.drop_first() =~= rest);
    if file.contents is Some {
        law_ruleset_has_both_tags(Seq::empty(), file.contents->Some_0, Seq::empty());
    }
    if !usable(file) {
        lemma_leading(rest, unusable());
        let n = leading(rest, unusable());
        assert(leading(files, unusable()) == 1 + n);
        if n < rest.len() {
            assert(files[n as int + 1] == rest[n as int]);
        }
    }
}

/// Files are looked for where no rule sets are set, and where just all of PHPMD's are.
pub proof fn law_discovery_follows_from_no_choice(names: Seq<char>)
    ensures
        discovery_due(None),
        discovery_due(Some(names)) <==> names
            == "cleancode,codesize,controversial,design,naming,unusedcode"@,
{
}

/// Rule sets are known for a configuration file by how they end, wherever it is.
pub proof fn law_config_files_end_in_xml(front: Seq<char>)
    ensures
        source_of(None) == RulesetSource::Default,
        source_of(Some(front + ".xml"@)) == RulesetSource::ConfigFile,
        source_of(Some(front + ".xml.dist"@)) == RulesetSource::ConfigFile,
        !(exists|a: Seq<char>| front == #[trigger] (a + ".xml"@)) && !(exists|a: Seq<char>|
            front == #[trigger] (a + ".xml.dist"@)) ==> source_of(Some(front)) == if front
            == "cleancode,codesize,controversial,design,naming,unusedcode"@ {
            RulesetSource::Fallback
        } else {
            RulesetSource::Custom
        },
{
    law_ends_of_a_joined_text(front, ".xml"@);
    law_ends_of_a_joined_text(front, ".xml.dist"@);
    law_ends_can_be_split_off(front, ".xml"@);
    law_ends_can_be_split_off(front, ".xml.dist"@);
}

/// One marker is enough, whichever it is.
pub proof fn law_one_marker_is_enough(found: Seq<bool>)
    ensures
        any_found(found) <==> found.contains(true),
{
    if found.contains(true) {
        let i = choose|i: int| 0 <= i < found.len() && found[i] == true;
        assert(found[i]);
    }
    if any_found(found) {
        let i = choose|i: int| 0 <= i < found.len() && #[trigger] found[i];
        assert(found[i] == true);
    }
}

/// The executable of the project goes before the bundled one, and that before the one of the
/// system.
pub proof fn law_project_executable_goes_first(path: Seq<char>, other: Option<Seq<char>>)
    ensures
        preferred(Some(path), other) == path,
        preferred(None, Some(path)) == path,
        preferred(None, None) == "phpmd"@,
{
}

/// An executable that ends in ".phar", whatever stands in front, is handed to PHP, which is
/// told to show no errors; any other is run itself, with no argument in front of the file.
pub proof fn law_archives_are_handed_to_php(front: Seq<char>)
    ensures
        program_for(front + ".phar"@) == "php"@,
        args_before(front + ".phar"@) == seq![
            "-d"@,
            "error_reporting=0"@,
            "-d"@,
            "display_errors=0"@,
            "-d"@,
            "display_startup_errors=0"@,
            "-d"@,
            "log_errors=0"@,
            front + ".phar"@,
        ],
        !(exists|a: Seq<char>| front == #[trigger] (a + ".phar"@)) ==> program_for(front) == front
            && args_before(front).len() == 0,
{
    law_ends_of_a_joined_text(front, ".phar"@);
    law_ends_can_be_split_off(front, ".phar"@);
}

/// Behind the file PHPMD is told to write JSON, to throw its errors away and to use the rule
/// sets that are set, whatever they are, or all of its own.
pub proof fn law_rulesets_are_handed_to_phpmd(names: Seq<char>)
    ensures
        args_after(Some(names)) == seq!["json"@, "--error-file"@, "/dev/null"@, names],
        args_after(None) == args_after(
            Some("cleancode,codesize,controversial,design,naming,unusedcode"@),
        ),
{
}

/// The name of a temporary file holds the identifier between "phpmd-" and ".php"; so different
/// identifiers give different names.
pub proof fn law_temporary_files_differ(a: Seq<char>, b: Seq<char>)
    ensures
        temp_file_for(a) == "phpmd-"@ + a + ".php"@,
        temp_file_for(a) == temp_file_for(b) ==> a == b,
{
    if temp_file_for(a) == temp_file_for(b) {
        let n = "phpmd-"@.len() as int;
        let m = ".php"@.len() as int;
        assert(temp_file_for(a).len() == n + a.len() + m);
        assert(temp_file_for(b).len() == n + b.len() + m);
        assert(a =~= temp_file_for(a).subrange(n, n + a.len()));
        assert(b =~= temp_file_for(b).subrange(n, n + b.len()));
    }
}

/// Lists of files and of markers hold what each of them holds, in order.
pub proof fn law_files_and_markers_are_those_of_the_list(
    files: Seq<ConfigFile>,
    found: Seq<Vec<bool>>,
)
    ensures
        config_views(files).len() == files.len(),
        forall|i: int|
            0 <= i < files.len() ==> (#[trigger] config_views(files)[i]).path == text_of(
                files[i].path,
            ) && config_views(files)[i].contents == text_of(files[i].contents),
        found_views(found).len() == found.len(),
        forall|i: int| 0 <= i < found.len() ==> #[trigger] found_views(found)[i] == found[i]@,
{
}

} // verus!
