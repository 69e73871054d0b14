use blog_gen::summary::{extract_summary, missing_summary, strip_html, SummaryError};

#[test]
fn summary_of_first_paragraph() {
    let summary = extract_summary("<p>Hello <em>world</em></p><p>more</p>").unwrap();
    assert_eq!(summary, "Hello world");
}

#[test]
fn summary_turns_newlines_into_spaces() {
    let summary = extract_summary("<h1>T</h1>\n<p>one\ntwo\n\nthree</p>\n").unwrap();
    assert_eq!(summary, "T one two  three");
}

#[test]
fn summary_needs_a_closing_paragraph() {
    assert_eq!(extract_summary("<p>never closed").unwrap_err(), SummaryError::MissingSummary);
    assert_eq!(extract_summary("").unwrap_err(), SummaryError::MissingSummary);
    assert_eq!(missing_summary(), SummaryError::MissingSummary);
}

#[test]
fn strip_removes_tags() {
    assert_eq!(strip_html("<a href=\"x\">link</a> and <b>bold</b>"), "link and bold");
    assert_eq!(strip_html("no tags"), "no tags");
    assert_eq!(strip_html(""), "");
}

#[test]
fn strip_ignores_quoting_inside_tags() {
    assert_eq!(strip_html("<a title=\"x>y\">z</a>"), "y\"z");
}

#[test]
fn strip_stray_closing_bracket() {
    assert_eq!(strip_html("a > b"), "a  b");
}
