use blog_gen::events::{HtmlEvent, MdEvent};
use blog_gen::footnote::{decimal_string, footnote_pass, FootnoteHandler};
use blog_gen::highlight::{code_pass, format_code, lines_with_endings, CodeHandler, MarkdownErrorKind};
use blog_gen::markdown::Markdowner;
use pulldown_cmark::{html, Options, Parser};
use syntect::html::{ClassStyle, ClassedHTMLGenerator};
use syntect::parsing::SyntaxSet;
use syntect::util::LinesWithEndings;

fn markdowner() -> Markdowner {
    Markdowner::new(SyntaxSet::load_defaults_newlines())
}

fn parser_html(markdown: &str) -> String {
    let options = Options::ENABLE_TABLES | Options::ENABLE_FOOTNOTES | Options::ENABLE_STRIKETHROUGH;
    let mut out = String::new();
    html::push_html(&mut out, Parser::new_ext(markdown, options));
    out
}

#[test]
fn plain_markdown_is_the_parsers_html() {
    let markdown = "# Title\n\nHello *world*, see [a link](https://example.com).\n\n- one\n- two\n\n    indented code\n";
    let html = markdowner().to_html(markdown).unwrap();
    assert_eq!(html, parser_html(markdown));
    assert!(!html.contains("[1]: "));
    assert!(!html.contains("<pre class=\"code\">"));
}

#[test]
fn emphasis_paragraph_html() {
    let html = markdowner().to_html("Hello *world*").unwrap();
    assert_eq!(html, "<p>Hello <em>world</em></p>\n");
}

#[test]
fn tables_are_enabled() {
    let html = markdowner().to_html("| a | b |\n|---|---|\n| 1 | 2 |\n").unwrap();
    assert!(html.contains("<table>"));
    assert!(html.contains("<td>1</td>"));
}

#[test]
fn strikethrough_is_enabled() {
    let html = markdowner().to_html("~~gone~~ stays").unwrap();
    assert_eq!(html, "<p><del>gone</del> stays</p>\n");
}

#[test]
fn footnotes_are_numbered_in_order() {
    let markdown = "Text[^zeta] and more[^alpha].\n\n[^zeta]: First note.\n\nMiddle paragraph.\n\n[^alpha]: Second note.\n";
    let html = markdowner().to_html(markdown).unwrap();
    assert_eq!(
        html,
        "<p>Text<sup class=\"footnote-reference\"><a href=\"#zeta\">1</a></sup> and more\
<sup class=\"footnote-reference\"><a href=\"#alpha\">2</a></sup>.</p>\n\
<div id=\"zeta\" class=\"footnote\">\n<p>[1]: First note.</p>\n</div>\n\
<p>Middle paragraph.</p>\n\
<div id=\"alpha\" class=\"footnote\">\n<p>[2]: Second note.</p>\n</div>\n"
    );
    assert!(!html.contains("[3]: "));
}

#[test]
fn footnote_handler_numbers_next_paragraph_only() {
    let mut handler = FootnoteHandler::new();
    assert_eq!(handler.footnote_counter, 1);
    assert!(!handler.footnote_number_on_next_paragraph);
    let out = handler.handle_event(MdEvent::FootnoteStart("n".to_string()));
    assert_eq!(out.len(), 1);
    assert!(matches!(&out[0], MdEvent::Html(h) if h == "<div id=\"n\" class=\"footnote\">"));
    assert!(handler.footnote_number_on_next_paragraph);
    let out = handler.handle_event(MdEvent::ParagraphStart(7));
    assert_eq!(out.len(), 2);
    assert!(matches!(&out[0], MdEvent::ParagraphStart(7)));
    assert!(matches!(&out[1], MdEvent::Text(t) if t == "[1]: "));
    assert_eq!(handler.footnote_counter, 2);
    let out = handler.handle_event(MdEvent::ParagraphStart(9));
    assert_eq!(out.len(), 1);
    let out = handler.handle_event(MdEvent::FootnoteEnd);
    assert!(matches!(&out[0], MdEvent::Html(h) if h == "</div>\n"));
}

#[test]
fn footnote_pass_counts_past_nine() {
    let mut events = Vec::new();
    for i in 0..12 {
        events.push(MdEvent::FootnoteStart(format!("l{}", i)));
        events.push(MdEvent::ParagraphStart(i));
        events.push(MdEvent::Text("note".to_string()));
        events.push(MdEvent::FootnoteEnd);
    }
    let out = footnote_pass(&events);
    let numbers: Vec<String> = out
        .iter()
        .filter_map(|e| match e {
            MdEvent::Text(t) if t.starts_with('[') => Some(t.clone()),
            _ => None,
        })
        .collect();
    let expected: Vec<String> = (1..=12).map(|n| format!("[{}]: ", n)).collect();
    assert_eq!(numbers, expected);
}

#[test]
fn decimal_digits() {
    assert_eq!(decimal_string(0), "0");
    assert_eq!(decimal_string(7), "7");
    assert_eq!(decimal_string(10), "10");
    assert_eq!(decimal_string(4096), "4096");
    assert_eq!(decimal_string(usize::MAX), usize::MAX.to_string());
}

#[test]
fn known_language_is_highlighted() {
    let html = markdowner().to_html("```python\ndef f(x):\n    return x\n```\n").unwrap();
    assert!(html.starts_with("<pre class=\"code\"><code>"));
    assert!(html.contains("<span class=\""));
    assert!(html.contains("</code></pre>"));
    assert!(!html.contains("```"));
}

#[test]
fn unknown_language_fails() {
    let err = markdowner().to_html("Intro.\n\n```zzzlang\nsome code\n```\n").unwrap_err();
    assert_eq!(err.kind, MarkdownErrorKind::UnknownLanguage);
    assert_eq!(err.lang, "zzzlang");
}

#[test]
fn format_code_highlights_lines() {
    let set = SyntaxSet::load_defaults_newlines();
    let html = format_code(&set, "let x = 1;\nlet y = 2;\n", "rs").unwrap();
    assert!(html.contains("<span class=\""));
    assert!(html.contains("let"));
    assert_ne!(html, "let x = 1;\nlet y = 2;\n");
    let err = format_code(&set, "x", "nolang").unwrap_err();
    assert_eq!(err.kind, MarkdownErrorKind::UnknownLanguage);
    assert_eq!(err.lang, "nolang");
}

#[test]
fn code_handler_wraps_blocks() {
    let set = SyntaxSet::load_defaults_newlines();
    let mut handler = CodeHandler::new();
    let open = handler.handle_event(&set, MdEvent::FencedStart("py".to_string())).unwrap();
    assert!(matches!(open, HtmlEvent::Html(h) if h == "<pre class=\"code\"><code>"));
    assert_eq!(handler.current_lang.as_deref(), Some("py"));
    let text = handler.handle_event(&set, MdEvent::Text("x = 1\n".to_string())).unwrap();
    assert!(matches!(text, HtmlEvent::Html(h) if h.contains("<span")));
    let close = handler.handle_event(&set, MdEvent::FencedEnd).unwrap();
    assert!(matches!(close, HtmlEvent::Html(h) if h == "</code></pre>"));
    assert!(handler.current_lang.is_none());
    let plain = handler.handle_event(&set, MdEvent::Text("a < b".to_string())).unwrap();
    assert!(matches!(plain, HtmlEvent::Text(t) if t == "a < b"));
    let other = handler.handle_event(&set, MdEvent::Other(3)).unwrap();
    assert!(matches!(other, HtmlEvent::Parsed(3)));
}

#[test]
fn code_pass_stops_at_unknown_language() {
    let set = SyntaxSet::load_defaults_newlines();
    let events = vec![
        MdEvent::ParagraphStart(0),
        MdEvent::FencedStart("zzzlang".to_string()),
        MdEvent::Text("code".to_string()),
        MdEvent::FencedEnd,
    ];
    let err = code_pass(&set, &events).unwrap_err();
    assert_eq!(err.kind, MarkdownErrorKind::UnknownLanguage);
    assert_eq!(err.lang, "zzzlang");
    let empty_block = vec![MdEvent::FencedStart("zzzlang".to_string()), MdEvent::FencedEnd];
    assert_eq!(code_pass(&set, &empty_block).unwrap().len(), 2);
}

#[test]
fn lines_keep_their_endings() {
    assert_eq!(lines_with_endings("a\nbc\n\nd"), vec!["a\n", "bc\n", "\n", "d"]);
    assert_eq!(lines_with_endings("x\n"), vec!["x\n"]);
    assert!(lines_with_endings("").is_empty());
}

#[test]
fn empty_markdown_is_empty_html() {
    assert_eq!(markdowner().to_html("").unwrap(), "");
}

#[test]
fn fenced_block_without_language_tag_fails() {
    let err = markdowner().to_html("```\nplain <code>\n```\n").unwrap_err();
    assert_eq!(err.kind, MarkdownErrorKind::UnknownLanguage);
    assert_eq!(err.lang, "");
}

#[test]
fn indented_code_is_the_parsers_html() {
    let markdown = "Intro.\n\n    plain <code>\n";
    assert_eq!(markdowner().to_html(markdown).unwrap(), parser_html(markdown));
}

#[test]
fn language_names_and_extensions_are_known() {
    assert!(markdowner().to_html("```rs\nfn main() {}\n```\n").is_ok());
    assert!(markdowner().to_html("```Python\nx = 1\n```\n").is_ok());
}

#[test]
fn format_code_is_the_generators_output() {
    let set = SyntaxSet::load_defaults_newlines();
    let code = "def f(x):\n    return x + 1\n";
    let syntax = set.find_syntax_by_token("python").unwrap();
    let mut generator = ClassedHTMLGenerator::new_with_class_style(syntax, &set, ClassStyle::Spaced);
    for line in LinesWithEndings::from(code) {
        generator.parse_html_for_line_which_includes_newline(line).unwrap();
    }
    assert_eq!(format_code(&set, code, "python").unwrap(), generator.finalize());
}

#[test]
fn conversions_of_one_document_agree() {
    let md = markdowner();
    let text = "Intro[^a].\n\n```rs\nlet x = 1;\n```\n\n[^a]: Note.\n";
    let first = md.to_html(text).unwrap();
    let _ = md.to_html("Other[^b].\n\n[^b]: x\n").unwrap();
    assert_eq!(md.to_html(text).unwrap(), first);
    assert_eq!(first.matches("<pre class=\"code\"><code>").count(), 1);
    assert_eq!(first.matches("</code></pre>").count(), 1);
    assert!(first.contains("[1]: Note."));
}
