//! The code pass: fenced code blocks are wrapped and their text is
//! highlighted by syntect.
use vstd::prelude::*;

use syntect::html::{ClassStyle, ClassedHTMLGenerator};
use syntect::parsing::SyntaxSet;

use crate::document::{index_of_from, lemma_index_of_from_at};
use crate::events::{HtmlEvent, HtmlEventView, MdEvent, MdEventView, html_views, md_views};
use crate::footnote::{footnote_close_html, footnote_open_html};
use crate::text::{chars_of, string_of};

verus! {

#[verifier::external_type_specification]
#[verifier::external_body]
pub struct ExSyntaxSet(SyntaxSet);

/// Whether syntect's set of syntaxes knows the language tagged `lang`.
pub uninterp spec fn syntax_found(set: SyntaxSet, lang: Seq<char>) -> bool;

/// What syntect's classed HTML generator makes of `lines`, fed one after
/// another in the language tagged `lang`: the finished HTML, or `None` when
/// a line is rejected.
pub uninterp spec fn highlighted(set: SyntaxSet, lang: Seq<char>, lines: Seq<Seq<char>>) -> Option<Seq<char>>;

/// The characters of an optional string.
pub open spec fn option_view(s: Option<String>) -> Option<Seq<char>> {
    match s {
        Some(s) => Some(s@),
        None => None,
    }
}

/// Relies on syntect: `SyntaxSet::find_syntax_by_token` looks the tag up
/// (as an extension, then as a name, ignoring case; `None` when the set
/// lacks it), `ClassedHTMLGenerator::new_with_class_style` builds a
/// generator over that syntax of that same set,
/// `parse_html_for_line_which_includes_newline` takes each line in turn and
/// `finalize` hands out the HTML. All of it depends on the set, the tag and
/// the lines alone.
#[verifier::external_body]
fn highlight_lines(set: &SyntaxSet, lang: &str, lines: &Vec<String>) -> (r: Option<Option<String>>)
    ensures
        r is Some <==> syntax_found(*set, lang@),
        r matches Some(h) ==> option_view(h) == highlighted(*set, lang@, string_views(lines@)),
{
    let syntax = set.find_syntax_by_token(lang)?;
    let mut generator = ClassedHTMLGenerator::new_with_class_style(syntax, set, ClassStyle::Spaced);
    for line in lines {
        if generator.parse_html_for_line_which_includes_newline(line).is_err() {
            return Some(None);
        }
    }
    Some(Some(generator.finalize()))
}

/// The raw HTML that opens a highlighted code block.
pub open spec fn code_open_html() -> Seq<char> {
    "<pre class=\"code\"><code>"@
}

/// The raw HTML that closes a highlighted code block.
pub open spec fn code_close_html() -> Seq<char> {
    "</code></pre>"@
}

/// Why a document could not be converted.
#[derive(Debug, Clone, Copy, PartialEq, Eq, Structural)]
pub enum MarkdownErrorKind {
    /// A fenced code block names a language that the highlighter lacks.
    UnknownLanguage,
    /// The highlighter failed on a line of a code block.
    Highlighting,
}

/// A conversion error and the language tag of the code block at fault.
#[derive(Debug, Clone)]
pub struct MarkdownError {
    pub kind: MarkdownErrorKind,
    pub lang: String,
}

/// The lines of `s`, each with its newline; the last may have none, and
/// no line is empty.
pub open spec fn lines_of(s: Seq<char>) -> Seq<Seq<char>>
    decreases s.len(),
{
    if s.len() == 0 {
        Seq::empty()
    } else {
        let i = index_of_from(s, '\n', 0);
        if i < 0 || i >= s.len() {
            seq![s]
        } else {
            seq![s.take(i + 1)] + lines_of(s.skip(i + 1))
        }
    }
}

/// The character sequences of a sequence of strings.
pub open spec fn string_views(v: Seq<String>) -> Seq<Seq<char>> {
    v.map_values(|s: String| s@)
}

/// Splits `code` into lines, each keeping its newline.
pub fn lines_with_endings(code: &str) -> (r: Vec<String>)
    ensures
        string_views(r@) == lines_of(code@),
{
    let cs = chars_of(code);
    let mut lines: Vec<String> = Vec::new();
    let mut start: usize = 0;
    let mut i: usize = 0;
    proof {
        assert(cs@.skip(0) =~= cs@);
        assert(string_views(lines@) + lines_of(cs@.skip(0)) =~= lines_of(cs@));
    }
    while i < cs.len()
        invariant
            start <= i <= cs@.len(),
            cs@ == code@,
            string_views(lines@) + lines_of(cs@.skip(start as int)) == lines_of(cs@),
            forall|j: int| start <= j < i ==> cs@[j] != '\n',
        decreases cs@.len() - i,
    {
        if cs[i] == '\n' {
            let line = string_of(&cs, start, i + 1);
            let ghost old_lines = string_views(lines@);
            proof {
                let rest = cs@.skip(start as int);
                lemma_index_of_from_at(rest, '\n', 0, i - start);
                assert(rest.take(i - start + 1) =~= cs@.subrange(start as int, i + 1));
                assert(rest.skip(i - start + 1) =~= cs@.skip(i + 1));
                assert(lines_of(rest) == seq![cs@.subrange(start as int, i + 1)] + lines_of(cs@.skip(i + 1)));
            }
            lines.push(line);
            proof {
                let l = cs@.subrange(start as int, i + 1);
                assert(string_views(lines@) =~= old_lines.push(l));
                assert(old_lines + (seq![l] + lines_of(cs@.skip(i + 1))) =~= old_lines.push(l) + lines_of(cs@.skip(i + 1)));
            }
            start = i + 1;
        }
        i += 1;
    }
    if start < cs.len() {
        let line = string_of(&cs, start, cs.len());
        let ghost old_lines = string_views(lines@);
        proof {
            let rest = cs@.skip(start as int);
            lemma_index_of_from_at(rest, '\n', 0, rest.len() as int);
            assert(rest =~= cs@.subrange(start as int, cs@.len() as int));
            assert(lines_of(rest) == seq![rest]);
        }
        lines.push(line);
        proof {
            let l = cs@.subrange(start as int, cs@.len() as int);
            assert(string_views(lines@) =~= old_lines.push(l));
            assert(old_lines + seq![l] =~= old_lines.push(l));
        }
    } else {
        proof {
            assert(cs@.skip(start as int) =~= Seq::<char>::empty());
            assert(string_views(lines@) + Seq::<Seq<char>>::empty() =~= string_views(lines@));
        }
    }
    lines
}

fn markdown_error(kind: MarkdownErrorKind, lang: &str) -> (e: MarkdownError)
    ensures
        e.kind == kind,
        e.lang@ == lang@,
{
    MarkdownError { kind, lang: String::from_str(lang) }
}

/// What highlighting `code` in the language tagged `lang` gives: `None`
/// when the set lacks the language or rejects a line.
pub open spec fn highlight_result(set: SyntaxSet, lang: Seq<char>, code: Seq<char>) -> Option<Seq<char>> {
    if syntax_found(set, lang) {
        highlighted(set, lang, lines_of(code))
    } else {
        None
    }
}

/// Highlights `code` as the language tagged `lang`, line by line, into HTML
/// with class-annotated spans. A language that the set lacks gives
/// `UnknownLanguage`; a line that the highlighter rejects gives
/// `Highlighting`; an error names `lang`.
pub fn format_code(syntax_set: &SyntaxSet, code: &str, lang: &str) -> (r: Result<String, MarkdownError>)
    ensures
        r is Ok <==> highlight_result(*syntax_set, lang@, code@) is Some,
        r is Ok ==> r->Ok_0@ == highlight_result(*syntax_set, lang@, code@)->0,
        !syntax_found(*syntax_set, lang@) <==> (r is Err && r->Err_0.kind == MarkdownErrorKind::UnknownLanguage),
        r is Err ==> r->Err_0.lang@ == lang@,
{
    let lines = lines_with_endings(code);
    match highlight_lines(syntax_set, lang, &lines) {
        None => Err(markdown_error(MarkdownErrorKind::UnknownLanguage, lang)),
        Some(None) => Err(markdown_error(MarkdownErrorKind::Highlighting, lang)),
        Some(Some(html)) => Ok(html),
    }
}

/// The language tag that a code handler holds, as characters.
pub open spec fn lang_view(lang: Option<String>) -> Option<Seq<char>> {
    match lang {
        Some(l) => Some(l@),
        None => None,
    }
}

/// The language of the code block that is open after event `e`.
pub open spec fn code_lang_step(lang: Option<Seq<char>>, e: MdEventView) -> Option<Seq<char>> {
    match e {
        MdEventView::FencedStart(l) => Some(l),
        MdEventView::FencedEnd => None,
        _ => lang,
    }
}

/// Whether `e` is text inside a code block, which the highlighter renders.
pub open spec fn needs_highlight(lang: Option<Seq<char>>, e: MdEventView) -> bool {
    lang is Some && e is Text
}

/// What the code pass puts out for an event that it need not highlight.
pub open spec fn code_event_view(e: MdEventView) -> HtmlEventView {
    match e {
        MdEventView::FencedStart(_) => HtmlEventView::Html(code_open_html()),
        MdEventView::FencedEnd => HtmlEventView::Html(code_close_html()),
        MdEventView::Text(t) => HtmlEventView::Text(t),
        MdEventView::Html(h) => HtmlEventView::Html(h),
        MdEventView::ParagraphStart(i) => HtmlEventView::Parsed(i),
        MdEventView::Other(i) => HtmlEventView::Parsed(i),
        MdEventView::FootnoteStart(label) => HtmlEventView::Html(footnote_open_html(label)),
        MdEventView::FootnoteEnd => HtmlEventView::Html(footnote_close_html()),
    }
}

/// What the code pass puts out for `e` with the code block `lang` open:
/// text inside a block becomes the highlighter's HTML, or `None` when it
/// cannot be highlighted; every other event is fixed.
pub open spec fn code_event_result(set: SyntaxSet, lang: Option<Seq<char>>, e: MdEventView) -> Option<HtmlEventView> {
    if needs_highlight(lang, e) {
        match highlight_result(set, lang->0, e->Text_0) {
            Some(h) => Some(HtmlEventView::Html(h)),
            None => None,
        }
    } else {
        Some(code_event_view(e))
    }
}

/// The language of the code block open after the first `n` events.
pub open spec fn code_lang_after(es: Seq<MdEventView>, n: int) -> Option<Seq<char>>
    decreases n,
{
    if n <= 0 {
        None
    } else {
        code_lang_step(code_lang_after(es, n - 1), es[n - 1])
    }
}

/// What the code pass puts out for the `k`th event of `es`.
pub open spec fn code_result_at(set: SyntaxSet, es: Seq<MdEventView>, k: int) -> Option<HtmlEventView> {
    code_event_result(set, code_lang_after(es, k), es[k])
}

/// Whether the code pass over `es` succeeds: every code text highlights.
pub open spec fn code_pass_succeeds(set: SyntaxSet, es: Seq<MdEventView>) -> bool {
    forall|k: int| 0 <= k < es.len() ==> #[trigger] code_result_at(set, es, k) is Some
}

/// What the code pass over `es` puts out when it succeeds.
pub open spec fn code_pass_output(set: SyntaxSet, es: Seq<MdEventView>) -> Seq<HtmlEventView> {
    Seq::new(es.len(), |k: int| code_result_at(set, es, k)->0)
}

/// Whether no event of `es` is text inside a code block.
pub open spec fn needs_no_highlight(es: Seq<MdEventView>) -> bool {
    forall|k: int| 0 <= k < es.len() ==> !needs_highlight(code_lang_after(es, k), #[trigger] es[k])
}

/// The code pass over events that need no highlighting.
pub open spec fn plain_code_pass(es: Seq<MdEventView>) -> Seq<HtmlEventView> {
    Seq::new(es.len(), |k: int| code_event_view(es[k]))
}

/// Outside a code block, an event other than a fence stays outside, needs
/// no highlighting, and text passes through as the same text.
pub proof fn lemma_code_step_outside_blocks(e: MdEventView)
    requires
        !(e is FencedStart),
    ensures
        code_lang_step(None, e) is None,
        !needs_highlight(None, e),
        e matches MdEventView::Text(t) ==> code_event_view(e) == HtmlEventView::Text(t),
        e matches MdEventView::Html(h) ==> code_event_view(e) == HtmlEventView::Html(h),
{
}

/// The instance-scoped state of the code pass over one document.
pub struct CodeHandler {
    pub current_lang: Option<String>,
}

impl CodeHandler {
    /// A fresh state, outside any code block.
    pub fn new() -> (r: CodeHandler)
        ensures
            r.current_lang is None,
    {
        CodeHandler { current_lang: None }
    }

    /// Handles one event: a fenced block's start records its language and
    /// opens the wrapper, its end clears the language and closes the
    /// wrapper, text inside a block is highlighted, the rest passes on. A
    /// footnote marker, which the footnote pass leaves none of, is written
    /// as its container.
    pub fn handle_event(&mut self, syntax_set: &SyntaxSet, event: MdEvent) -> (r: Result<HtmlEvent, MarkdownError>)
        ensures
            lang_view(final(self).current_lang) == code_lang_step(lang_view(old(self).current_lang), event@),
            r is Ok <==> code_event_result(*syntax_set, lang_view(old(self).current_lang), event@) is Some,
            r is Ok ==> r->Ok_0@ == code_event_result(*syntax_set, lang_view(old(self).current_lang), event@)->0,
            r is Err ==> needs_highlight(lang_view(old(self).current_lang), event@)
                && r->Err_0.lang@ == lang_view(old(self).current_lang)->0,
            r is Err ==> (r->Err_0.kind == MarkdownErrorKind::UnknownLanguage <==> !syntax_found(*syntax_set, r->Err_0.lang@)),
    {
        match event {
            MdEvent::FencedStart(lang) => {
                self.current_lang = Some(lang);
                Ok(HtmlEvent::Html(String::from_str("<pre class=\"code\"><code>")))
            },
            MdEvent::FencedEnd => {
                self.current_lang = None;
                Ok(HtmlEvent::Html(String::from_str("</code></pre>")))
            },
            MdEvent::Text(text) => match &self.current_lang {
                Some(lang) => {
                    let html = format_code(syntax_set, text.as_str(), lang.as_str())?;
                    Ok(HtmlEvent::Html(html))
                },
                None => Ok(HtmlEvent::Text(text)),
            },
            MdEvent::Html(html) => Ok(HtmlEvent::Html(html)),
            MdEvent::ParagraphStart(i) => Ok(HtmlEvent::Parsed(i)),
            MdEvent::Other(i) => Ok(HtmlEvent::Parsed(i)),
            MdEvent::FootnoteStart(label) => {
                let mut open = String::from_str("<div id=\"");
                open.append(label.as_str());
                open.append("\" class=\"footnote\">");
                Ok(HtmlEvent::Html(open))
            },
            MdEvent::FootnoteEnd => Ok(HtmlEvent::Html(String::from_str("</div>\n"))),
        }
    }
}

/// Whether `e` is what the code pass over `es` stops with: the first event
/// that cannot be highlighted, named by its block's language.
pub open spec fn code_pass_fails_with(set: SyntaxSet, es: Seq<MdEventView>, e: MarkdownError) -> bool {
    exists|k: int| 0 <= k < es.len() && #[trigger] code_result_at(set, es, k) is None
        && (forall|i: int| 0 <= i < k ==> code_result_at(set, es, i) is Some)
        && e.lang@ == code_lang_after(es, k)->0
        && (e.kind == MarkdownErrorKind::UnknownLanguage <==> !syntax_found(set, e.lang@))
}

/// Runs the code pass over events that went through the footnote pass.
/// It stops at the first code block that cannot be highlighted.
pub fn code_pass(syntax_set: &SyntaxSet, events: &Vec<MdEvent>) -> (r: Result<Vec<HtmlEvent>, MarkdownError>)
    ensures
        r is Ok <==> code_pass_succeeds(*syntax_set, md_views(events@)),
        r is Ok ==> html_views(r->Ok_0@) == code_pass_output(*syntax_set, md_views(events@)),
        r is Err ==> code_pass_fails_with(*syntax_set, md_views(events@), r->Err_0),
{
    let ghost es = md_views(events@);
    let mut handler = CodeHandler::new();
    let mut out: Vec<HtmlEvent> = Vec::new();
    let mut i: usize = 0;
    while i < events.len()
        invariant
            i <= events@.len(),
            es == md_views(events@),
            lang_view(handler.current_lang) == code_lang_after(es, i as int),
            out@.len() == i,
            forall|k: int| 0 <= k < i ==> #[trigger] code_result_at(*syntax_set, es, k) is Some,
            forall|k: int| 0 <= k < i ==> html_views(out@)[k] == code_result_at(*syntax_set, es, k)->0,
        decreases events@.len() - i,
    {
        assert(es[i as int] == events@[i as int]@);
        let ghost before = out@;
        let e = handler.handle_event(syntax_set, events[i].copied());
        match e {
            Ok(e) => {
                out.push(e);
                proof {
                    assert forall|k: int| 0 <= k < i + 1 implies html_views(out@)[k] == code_result_at(*syntax_set, es, k)->0 by {
                        if k < i {
                            assert(html_views(out@)[k] == html_views(before)[k]);
                        }
                    }
                }
            },
            Err(err) => {
                proof {
                    assert(code_result_at(*syntax_set, es, i as int) is None);
                    assert(!code_pass_succeeds(*syntax_set, es));
                    assert(code_pass_fails_with(*syntax_set, es, err));
                }
                return Err(err);
            },
        }
        i += 1;
    }
    proof {
        assert(html_views(out@) =~= code_pass_output(*syntax_set, es));
    }
    Ok(out)
}

/// With no text inside a code block the code pass succeeds, whatever the
/// set, and each event is written as it need not be highlighted.
pub proof fn lemma_code_pass_plain(set: SyntaxSet, es: Seq<MdEventView>)
    requires
        needs_no_highlight(es),
    ensures
        code_pass_succeeds(set, es),
        code_pass_output(set, es) == plain_code_pass(es),
{
    assert forall|k: int| 0 <= k < es.len() implies #[trigger] code_result_at(set, es, k) is Some
        && code_result_at(set, es, k)->0 == plain_code_pass(es)[k] by {
        assert(!needs_highlight(code_lang_after(es, k), es[k]));
    }
    assert(code_pass_output(set, es) =~= plain_code_pass(es));
}

} // verus!
