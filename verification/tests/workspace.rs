use phpmd_lsp::workspace::{
    all_rulesets, bundled_phpmd_name, choose_phpmd, config_file_names, find_project_root,
    is_ruleset, new_temp_file_name, phpmd_command, project_markers, project_phpmd_name,
    ruleset_source, rulesets_in, should_discover, temp_file_name, ConfigFile, PhpmdLocations,
    ProjectRoot, RulesetSource, MAX_PROCESSES, TIMEOUT_SECONDS,
};

const FALLBACK: &str = "cleancode,codesize,controversial,design,naming,unusedcode";
const RULESET: &str = "<?xml version=\"1.0\"?><ruleset name=\"x\"></ruleset>";

fn file(path: Option<&str>, contents: Option<&str>) -> ConfigFile {
    ConfigFile { path: path.map(str::to_string), contents: contents.map(str::to_string) }
}

#[test]
fn limits_are_fixed() {
    assert_eq!(MAX_PROCESSES, 4);
    assert_eq!(TIMEOUT_SECONDS, 10);
}

#[test]
fn names_are_listed_in_order() {
    assert_eq!(all_rulesets(), FALLBACK);
    assert_eq!(
        config_file_names(),
        ["phpmd.xml", "phpmd.xml.dist", ".phpmd.xml", ".phpmd.xml.dist"]
    );
    assert_eq!(
        project_markers(),
        ["composer.json", "phpmd.xml", "phpmd.xml.dist", ".phpmd.xml", ".git"]
    );
    assert_eq!(project_phpmd_name(), "vendor/bin/phpmd");
    assert_eq!(bundled_phpmd_name(), "phpmd.phar");
}

#[test]
fn a_ruleset_has_both_tags() {
    assert!(is_ruleset(RULESET));
    assert!(!is_ruleset("<ruleset>"));
    assert!(!is_ruleset("</ruleset>"));
    assert!(!is_ruleset(""));
}

#[test]
fn the_first_usable_file_is_taken() {
    assert_eq!(rulesets_in(&vec![]), FALLBACK);
    assert_eq!(
        rulesets_in(&vec![
            file(Some("/a/phpmd.xml"), None),
            file(Some("/a/phpmd.xml.dist"), Some("<xml/>")),
            file(None, Some(RULESET)),
            file(Some("/a/.phpmd.xml.dist"), Some(RULESET)),
            file(Some("/b"), Some(RULESET)),
        ]),
        "/a/.phpmd.xml.dist"
    );
    assert_eq!(rulesets_in(&vec![file(Some("/a"), Some("text"))]), FALLBACK);
}

#[test]
fn discovery_is_due_without_a_choice() {
    assert!(should_discover(&None));
    assert!(should_discover(&Some(FALLBACK.to_string())));
    assert!(!should_discover(&Some("codesize".to_string())));
    assert!(!should_discover(&Some(String::new())));
}

#[test]
fn rulesets_have_a_source() {
    assert_eq!(ruleset_source(&None), RulesetSource::Default);
    assert_eq!(ruleset_source(&Some("/a/phpmd.xml".to_string())), RulesetSource::ConfigFile);
    assert_eq!(ruleset_source(&Some("/a/phpmd.xml.dist".to_string())), RulesetSource::ConfigFile);
    assert_eq!(ruleset_source(&Some(FALLBACK.to_string())), RulesetSource::Fallback);
    assert_eq!(ruleset_source(&Some("design".to_string())), RulesetSource::Custom);
}

#[test]
fn the_nearest_marked_directory_is_the_root() {
    let none = vec![false; 5];
    let git = vec![false, false, false, false, true];
    assert_eq!(
        find_project_root(&vec![none.clone(), git.clone(), git.clone()], true),
        ProjectRoot::Ancestor(1)
    );
    assert_eq!(find_project_root(&vec![none.clone()], true), ProjectRoot::Workspace);
    assert_eq!(find_project_root(&vec![], false), ProjectRoot::Current);
}

#[test]
fn the_project_executable_is_preferred() {
    let locations = |project: Option<&str>, bundled: Option<&str>| PhpmdLocations {
        project: project.map(str::to_string),
        bundled: bundled.map(str::to_string),
    };
    assert_eq!(choose_phpmd(locations(Some("p"), Some("b"))), "p");
    assert_eq!(choose_phpmd(locations(None, Some("b"))), "b");
    assert_eq!(choose_phpmd(locations(None, None)), "phpmd");
}

#[test]
fn archives_are_run_by_php() {
    let command = phpmd_command("/x/phpmd.phar", &Some("/a/phpmd.xml".to_string()));
    assert_eq!(command.program, "php");
    assert_eq!(
        command.args_before_file,
        [
            "-d",
            "error_reporting=0",
            "-d",
            "display_errors=0",
            "-d",
            "display_startup_errors=0",
            "-d",
            "log_errors=0",
            "/x/phpmd.phar"
        ]
    );
    assert_eq!(command.args_after_file, ["json", "--error-file", "/dev/null", "/a/phpmd.xml"]);
}

#[test]
fn other_executables_are_run_directly() {
    let command = phpmd_command("vendor/bin/phpmd", &None);
    assert_eq!(command.program, "vendor/bin/phpmd");
    assert!(command.args_before_file.is_empty());
    assert_eq!(command.args_after_file, ["json", "--error-file", "/dev/null", FALLBACK]);
}

#[test]
fn temporary_files_have_unique_names() {
    assert_eq!(temp_file_name("1-2"), "phpmd-1-2.php");
    let name = new_temp_file_name();
    let id = name.strip_prefix("phpmd-").unwrap().strip_suffix(".php").unwrap();
    assert_eq!(id.len(), 36);
    for (i, c) in id.chars().enumerate() {
        match i {
            8 | 13 | 18 | 23 => assert_eq!(c, '-'),
            14 => assert_eq!(c, '4'),
            19 => assert!("89ab".contains(c)),
            _ => assert!(c.is_ascii_digit() || ('a'..='f').contains(&c)),
        }
    }
    assert_ne!(new_temp_file_name(), name);
}
