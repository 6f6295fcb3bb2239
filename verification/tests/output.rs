use phpmd_lsp::output::{decode_output, extract_json_from_output};

#[test]
fn the_object_is_cut_out_of_the_noise() {
    let output = "PHP Warning: x\n{\"files\":[{\"a\":1}]} trailing {}";
    assert_eq!(extract_json_from_output(output), "{\"files\":[{\"a\":1}]}");
}

#[test]
fn braces_in_string_literals_do_not_count() {
    let object = "{\"a\":\"}{\\\"}\\\\\",\"b\":{}}";
    assert_eq!(extract_json_from_output(&format!("{object}}}")), object);
}

#[test]
fn a_backslash_outside_a_literal_is_no_escape() {
    assert_eq!(extract_json_from_output("{\\}x"), "{\\}");
}

#[test]
fn an_escaped_character_may_be_wide() {
    let object = "{\"\\\u{e9}}\":1}";
    assert_eq!(extract_json_from_output(&format!("{object}rest")), object);
}

#[test]
fn without_an_object_the_output_stays() {
    for output in ["", "no braces", "}{", "{\"a\":1", "{\"}"] {
        assert_eq!(extract_json_from_output(output), output);
    }
}

#[test]
fn extracting_twice_changes_nothing() {
    for output in ["x{a{b}c}d", "{\"}", "plain", "{}{}"] {
        let once = extract_json_from_output(output);
        assert_eq!(extract_json_from_output(&once), once);
    }
}

#[test]
fn noise_in_front_changes_nothing() {
    let output = "{\"a\":{}} tail";
    assert_eq!(
        extract_json_from_output(&format!("Deprecated: \"x }} y\n{output}")),
        extract_json_from_output(output)
    );
}

#[test]
fn text_behind_the_object_changes_nothing() {
    let output = "noise {\"a\":{}}";
    for tail in ["", "}", "{", "\"", " {\"b\":1}\n"] {
        assert_eq!(extract_json_from_output(&format!("{output}{tail}")), "{\"a\":{}}");
    }
}

#[test]
fn output_is_decoded_as_far_as_it_is_text() {
    assert_eq!(decode_output(&"{\u{e9}}".as_bytes().to_vec()), "{\u{e9}}");
    assert_eq!(decode_output(&vec![b'{', 0xff, b'}']), "{\u{fffd}}");
    assert_eq!(decode_output(&vec![]), "");
}
