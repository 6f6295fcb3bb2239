use phpmd_lsp::property::{declares_property, find_property_line, property_name_of};

#[test]
fn names_end_at_the_first_other_character() {
    let description = "The property $property_name is not named in camelCase.";
    assert_eq!(property_name_of(description).as_deref(), Some("property_name"));
    assert_eq!(property_name_of("x $a1-b $c").as_deref(), Some("a1"));
    assert_eq!(property_name_of("ends with $").as_deref(), Some(""));
    assert_eq!(property_name_of("$tail").as_deref(), Some("tail"));
    assert_eq!(property_name_of("none"), None);
}

#[test]
fn letters_outside_ascii_belong_to_names() {
    assert_eq!(property_name_of("$gr\u{fc}n\u{20ac}").as_deref(), Some("gr\u{fc}n"));
    assert_eq!(property_name_of("$a\u{2028}b").as_deref(), Some("a"));
}

#[test]
fn declarations_are_told_from_uses() {
    assert!(declares_property("    private $a_b;", "a_b"));
    assert!(declares_property("$a_b = 1;", "a_b"));
    assert!(declares_property("$a_b=1;", "a_b"));
    assert!(declares_property("$a_b;", "a_b"));
    assert!(declares_property("static $a_b", "a_b"));
    assert!(!declares_property("echo $a_b, 1", "a_b"));
    assert!(!declares_property("// private $a_b;", "a_b"));
    assert!(!declares_property("  /* private $a_b; */", "a_b"));
    assert!(!declares_property("  * private $a_b;", "a_b"));
    assert!(!declares_property("public function f($a_b) {", "a_b"));
    assert!(!declares_property("private $x = $this->a_b;", "a_b"));
    assert!(!declares_property("return $this->a_b;", "a_b"));
    assert!(!declares_property("return self::$a_b;", "a_b"));
    assert!(!declares_property("private $other;", "a_b"));
}

#[test]
fn the_first_declaring_line_is_found() {
    let content = "<?php\nclass A {\r\n  // $a_b;\n  private $a_b;\n  private $a_b;\n}\n";
    assert_eq!(find_property_line("a_b", content), Some(4));
    assert_eq!(find_property_line("missing", content), None);
    assert_eq!(find_property_line("a", "private $ab;"), Some(1));
    assert_eq!(find_property_line("a", ""), None);
}
