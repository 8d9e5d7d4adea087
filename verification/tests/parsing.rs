use junit_notify::parser::get_attribute_value;
use junit_notify::parser::read_test_suites_from_report;
use junit_notify::parser::suites_from_tokens;
use junit_notify::parser::XmlAttr;
use junit_notify::parser::XmlToken;

fn attr(name: &str, value: &str) -> XmlAttr {
    XmlAttr { name: name.to_string(), value: value.to_string() }
}

#[test]
fn default_substitution() {
    let suites = read_test_suites_from_report(b"<testsuite></testsuite>");
    assert_eq!(suites.len(), 1);
    assert_eq!(suites[0].name, "Untitled");
    assert_eq!(suites[0].tests, 0);
    assert_eq!(suites[0].failures, 0);
    assert_eq!(suites[0].errors, 0);
}

#[test]
fn non_numeric_tolerance() {
    let suites = read_test_suites_from_report(b"<testsuite name=\"A\" tests=\"abc\"></testsuite>");
    assert_eq!(suites.len(), 1);
    assert_eq!(suites[0].name, "A");
    assert_eq!(suites[0].tests, 0);
}

#[test]
fn partial_parse_preservation() {
    let bytes = b"<testsuites><testsuite name=\"A\" tests=\"1\"></testsuite><testsuite name=";
    let suites = read_test_suites_from_report(bytes);
    assert_eq!(suites.len(), 1);
    assert_eq!(suites[0].name, "A");
    assert_eq!(suites[0].tests, 1);
}

#[test]
fn empty_document_yields_no_suites() {
    let suites = read_test_suites_from_report(b"<");
    assert_eq!(suites.len(), 0);
}

#[test]
fn all_four_attributes_are_read() {
    let bytes = b"<testsuite name=\"Foo\" tests=\"3\" failures=\"1\" errors=\"2\"></testsuite>";
    let suites = read_test_suites_from_report(bytes);
    assert_eq!(suites.len(), 1);
    assert_eq!(suites[0].name, "Foo");
    assert_eq!(suites[0].tests, 3);
    assert_eq!(suites[0].failures, 1);
    assert_eq!(suites[0].errors, 2);
}

#[test]
fn nested_suites_all_collected() {
    let bytes = b"<testsuites><testsuite name=\"A\" tests=\"1\"></testsuite>\
                  <testsuite name=\"B\" tests=\"2\"></testsuite></testsuites>";
    let suites = read_test_suites_from_report(bytes);
    assert_eq!(suites.len(), 2);
    assert_eq!(suites[0].name, "A");
    assert_eq!(suites[1].name, "B");
}

#[test]
fn other_elements_are_ignored() {
    let bytes = b"<report><data value=\"9\"/><note>hi</note></report>";
    let suites = read_test_suites_from_report(bytes);
    assert_eq!(suites.len(), 0);
}

#[test]
fn numeric_overflow_degrades_to_zero() {
    let suites =
        read_test_suites_from_report(b"<testsuite tests=\"99999999999\"></testsuite>");
    assert_eq!(suites[0].tests, 0);
}

#[test]
fn numeric_bounds() {
    let suites = read_test_suites_from_report(
        b"<testsuite tests=\"4294967295\" failures=\"4294967296\" errors=\"007\"></testsuite>",
    );
    assert_eq!(suites[0].tests, u32::MAX);
    assert_eq!(suites[0].failures, 0);
    assert_eq!(suites[0].errors, 7);
}

#[test]
fn attribute_lookup_first_match_and_default() {
    let attrs = vec![attr("tests", "4"), attr("name", "X"), attr("name", "Y")];
    assert_eq!(get_attribute_value(&attrs, "name", "Untitled"), "X");
    assert_eq!(get_attribute_value(&attrs, "tests", "0"), "4");
    assert_eq!(get_attribute_value(&attrs, "errors", "0"), "0");
    assert_eq!(get_attribute_value(&vec![], "name", "Untitled"), "Untitled");
}

#[test]
fn tokens_after_error_are_not_consumed() {
    let tokens = vec![
        XmlToken::Start { name: "testsuite".to_string(), attrs: vec![attr("name", "A")] },
        XmlToken::Error,
        XmlToken::Start { name: "testsuite".to_string(), attrs: vec![attr("name", "B")] },
    ];
    let suites = suites_from_tokens(&tokens);
    assert_eq!(suites.len(), 1);
    assert_eq!(suites[0].name, "A");
}

#[test]
fn non_suite_start_tags_are_skipped() {
    let tokens = vec![
        XmlToken::Start { name: "testsuites".to_string(), attrs: vec![] },
        XmlToken::Other,
        XmlToken::Start { name: "testsuite".to_string(), attrs: vec![attr("tests", "2")] },
    ];
    let suites = suites_from_tokens(&tokens);
    assert_eq!(suites.len(), 1);
    assert_eq!(suites[0].tests, 2);
}
