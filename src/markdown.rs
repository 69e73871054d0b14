//! Markdown to HTML: the parser's event stream goes through the footnote
//! pass and then the code pass before it is written out as HTML.
use vstd::prelude::*;

use pulldown_cmark::{CodeBlockKind, Event, Options, Parser, Tag};
use syntect::parsing::SyntaxSet;

use crate::events::{HtmlEvent, HtmlEventView, MdEvent, MdEventView, html_views, md_views};
use crate::footnote::{
    footnote_pass, footnote_pass_spec, footnote_run, footnote_step, has_no_footnote_markers,
    is_footnote_marker, lemma_footnote_pass_identity,
};
use crate::highlight::{
    code_event_view, code_lang_after, code_pass, code_pass_fails_with, code_pass_output, code_pass_succeeds,
    code_result_at, lemma_code_pass_plain, needs_highlight, needs_no_highlight, plain_code_pass, MarkdownError,
};

verus! {

/// What the markdown parser (tables, footnotes and strikethrough enabled)
/// makes of a document.
pub uninterp spec fn markdown_events(markdown: Seq<char>) -> Seq<MdEventView>;

/// The HTML that the parser's writer makes of `events`, where `Parsed(i)`
/// stands for the parser's `i`th event on `markdown`.
pub uninterp spec fn events_html(markdown: Seq<char>, events: Seq<HtmlEventView>) -> Seq<char>;

/// Whether each parser event in `es` carries its own position.
pub open spec fn carries_positions(es: Seq<MdEventView>) -> bool {
    forall|k: int| 0 <= k < es.len() ==> match #[trigger] es[k] {
        MdEventView::ParagraphStart(i) => i == k,
        MdEventView::Other(i) => i == k,
        _ => true,
    }
}

/// Whether each parser event in `es` refers to a position below `n`.
pub open spec fn md_positions_below(es: Seq<MdEventView>, n: int) -> bool {
    forall|k: int| 0 <= k < es.len() ==> match #[trigger] es[k] {
        MdEventView::ParagraphStart(i) => i < n,
        MdEventView::Other(i) => i < n,
        _ => true,
    }
}

/// Whether each parser event in `es` refers to a position below `n`.
pub open spec fn html_positions_below(es: Seq<HtmlEventView>, n: int) -> bool {
    forall|k: int| 0 <= k < es.len() ==> match #[trigger] es[k] {
        HtmlEventView::Parsed(i) => i < n,
        _ => true,
    }
}

/// Relies on pulldown-cmark's `Parser::new_ext` with tables, footnotes and
/// strikethrough: the events of `markdown`, each told apart as far as the
/// passes need; the others keep their position.
#[verifier::external_body]
fn parse_markdown(markdown: &str) -> (r: Vec<MdEvent>)
    ensures
        md_views(r@) == markdown_events(markdown@),
        carries_positions(md_views(r@)),
{
    let options = Options::ENABLE_TABLES | Options::ENABLE_FOOTNOTES | Options::ENABLE_STRIKETHROUGH;
    let mut events = Vec::new();
    for (i, event) in Parser::new_ext(markdown, options).enumerate() {
        events.push(match event {
            Event::Start(Tag::Paragraph) => MdEvent::ParagraphStart(i),
            Event::Start(Tag::FootnoteDefinition(label)) => MdEvent::FootnoteStart(label.to_string()),
            Event::End(Tag::FootnoteDefinition(_)) => MdEvent::FootnoteEnd,
            Event::Start(Tag::CodeBlock(CodeBlockKind::Fenced(lang))) => MdEvent::FencedStart(lang.to_string()),
            Event::End(Tag::CodeBlock(CodeBlockKind::Fenced(_))) => MdEvent::FencedEnd,
            Event::Text(text) => MdEvent::Text(text.to_string()),
            _ => MdEvent::Other(i),
        });
    }
    events
}

/// Relies on pulldown-cmark's `html::push_html`: writes the events out as
/// HTML, the parser's own events taken from a second parse of `markdown`.
#[verifier::external_body]
fn render_html(markdown: &str, events: Vec<HtmlEvent>) -> (r: String)
    requires
        html_positions_below(html_views(events@), markdown_events(markdown@).len() as int),
    ensures
        r@ == events_html(markdown@, html_views(events@)),
{
    let options = Options::ENABLE_TABLES | Options::ENABLE_FOOTNOTES | Options::ENABLE_STRIKETHROUGH;
    let parsed: Vec<Event> = Parser::new_ext(markdown, options).collect();
    let mut converted = Vec::new();
    for event in events {
        converted.push(match event {
            HtmlEvent::Text(text) => Event::Text(text.into()),
            HtmlEvent::Html(html) => Event::Html(html.into()),
            HtmlEvent::Parsed(i) => parsed[i].clone(),
        });
    }
    let mut html = String::new();
    pulldown_cmark::html::push_html(&mut html, converted.into_iter());
    html
}

proof fn lemma_footnote_run_positions(es: Seq<MdEventView>, bound: int, n: int)
    requires
        0 <= n <= es.len(),
        md_positions_below(es, bound),
    ensures
        md_positions_below(footnote_run(es, n).2, bound),
    decreases n,
{
    if n > 0 {
        lemma_footnote_run_positions(es, bound, n - 1);
        let (pending, counter, out) = footnote_run(es, n - 1);
        let o = footnote_step(pending, counter, es[n - 1]).2;
        assert(match es[n - 1] {
            MdEventView::ParagraphStart(i) => i < bound,
            MdEventView::Other(i) => i < bound,
            _ => true,
        });
        assert forall|k: int| 0 <= k < (out + o).len() implies match #[trigger] (out + o)[k] {
            MdEventView::ParagraphStart(i) => i < bound,
            MdEventView::Other(i) => i < bound,
            _ => true,
        } by {
            if k >= out.len() {
                assert((out + o)[k] == o[k - out.len()]);
            }
        }
    }
}

proof fn lemma_code_pass_positions(set: SyntaxSet, es: Seq<MdEventView>, bound: int)
    requires
        md_positions_below(es, bound),
        code_pass_succeeds(set, es),
    ensures
        html_positions_below(code_pass_output(set, es), bound),
{
    let out = code_pass_output(set, es);
    assert forall|k: int| 0 <= k < out.len() implies match #[trigger] out[k] {
        HtmlEventView::Parsed(i) => i < bound,
        _ => true,
    } by {
        assert(code_result_at(set, es, k) is Some);
        assert(match es[k] {
            MdEventView::ParagraphStart(i) => i < bound,
            MdEventView::Other(i) => i < bound,
            _ => true,
        });
    }
}

/// The HTML of `markdown`, highlighting code with `set`: the parser's
/// events through the footnote pass, then through the code pass, written
/// out; `None` when some code cannot be highlighted.
pub open spec fn markdown_html(set: SyntaxSet, markdown: Seq<char>) -> Option<Seq<char>> {
    if code_pass_succeeds(set, footnoted_events(markdown)) {
        Some(events_html(markdown, code_pass_output(set, footnoted_events(markdown))))
    } else {
        None
    }
}

/// The parser's events of `markdown` after the footnote pass.
pub open spec fn footnoted_events(markdown: Seq<char>) -> Seq<MdEventView> {
    footnote_pass_spec(markdown_events(markdown))
}

/// Whether the conversion of `markdown` needs the highlighter.
pub open spec fn has_code_text(markdown: Seq<char>) -> bool {
    !needs_no_highlight(footnote_pass_spec(markdown_events(markdown)))
}

/// The HTML of `markdown` when it has no code text to highlight.
pub open spec fn plain_html(markdown: Seq<char>) -> Seq<char> {
    events_html(markdown, plain_code_pass(footnote_pass_spec(markdown_events(markdown))))
}

/// Whether `es` holds neither footnote definitions nor fenced code blocks.
pub open spec fn is_plain(es: Seq<MdEventView>) -> bool {
    forall|k: int| 0 <= k < es.len() ==> !is_footnote_marker(#[trigger] es[k]) && !(es[k] is FencedStart)
        && !(es[k] is FencedEnd)
}

/// The parser's own events, each written out as it came: text as text,
/// every other event as the parser's event at its position.
pub open spec fn unchanged_events(es: Seq<MdEventView>) -> Seq<HtmlEventView> {
    Seq::new(es.len(), |k: int| match es[k] {
        MdEventView::Text(t) => HtmlEventView::Text(t),
        MdEventView::Html(h) => HtmlEventView::Html(h),
        MdEventView::ParagraphStart(i) => HtmlEventView::Parsed(i),
        MdEventView::Other(i) => HtmlEventView::Parsed(i),
        _ => HtmlEventView::Parsed(k as usize),
    })
}

proof fn lemma_code_lang_plain(es: Seq<MdEventView>, n: int)
    requires
        0 <= n <= es.len(),
        is_plain(es),
    ensures
        code_lang_after(es, n) is None,
    decreases n,
{
    if n > 0 {
        lemma_code_lang_plain(es, n - 1);
        assert(!(es[n - 1] is FencedStart));
    }
}

/// Markdown without footnote definitions and fenced code blocks goes through
/// both passes untouched: nothing is numbered, nothing is wrapped, and each
/// of the parser's events is written out as it came.
pub proof fn lemma_plain_markdown_unchanged(es: Seq<MdEventView>)
    requires
        is_plain(es),
    ensures
        footnote_pass_spec(es) == es,
        needs_no_highlight(es),
        plain_code_pass(es) == unchanged_events(es),
{
    assert(has_no_footnote_markers(es));
    lemma_footnote_pass_identity(es);
    assert forall|k: int| 0 <= k < es.len() implies !needs_highlight(code_lang_after(es, k), #[trigger] es[k]) by {
        lemma_code_lang_plain(es, k);
    }
    assert forall|k: int| 0 <= k < es.len() implies plain_code_pass(es)[k] == unchanged_events(es)[k] by {
        assert(!is_footnote_marker(es[k]) && !(es[k] is FencedStart) && !(es[k] is FencedEnd));
    }
    assert(plain_code_pass(es) =~= unchanged_events(es));
}

/// Converts markdown documents to HTML, highlighting code blocks with a set
/// of syntaxes.
pub struct Markdowner {
    syntax_set: SyntaxSet,
}

impl Markdowner {
    /// The set of syntaxes that code blocks are highlighted with.
    pub closed spec fn syntaxes(&self) -> SyntaxSet {
        self.syntax_set
    }

    pub fn new(syntax_set: SyntaxSet) -> (r: Markdowner)
        ensures
            r.syntaxes() == syntax_set,
    {
        Markdowner { syntax_set }
    }

    /// Converts `markdown` to HTML: the parser's events go through the
    /// footnote pass and then the code pass and are written out. Fails only
    /// when a code block cannot be highlighted, naming its language.
    pub fn to_html(&self, markdown: &str) -> (r: Result<String, MarkdownError>)
        ensures
            r is Ok <==> markdown_html(self.syntaxes(), markdown@) is Some,
            r is Ok ==> r->Ok_0@ == markdown_html(self.syntaxes(), markdown@)->0,
            !has_code_text(markdown@) ==> r is Ok && r->Ok_0@ == plain_html(markdown@),
            is_plain(markdown_events(markdown@)) ==> r is Ok
                && r->Ok_0@ == events_html(markdown@, unchanged_events(markdown_events(markdown@))),
            r is Err ==> code_pass_fails_with(self.syntaxes(), footnoted_events(markdown@), r->Err_0),
            r is Err ==> has_code_text(markdown@),
    {
        let events = parse_markdown(markdown);
        let ghost es = md_views(events@);
        let footnoted = footnote_pass(&events);
        proof {
            assert(md_positions_below(es, es.len() as int));
            lemma_footnote_run_positions(es, es.len() as int, es.len() as int);
            if is_plain(es) {
                lemma_plain_markdown_unchanged(es);
            }
        }
        proof {
            let fs = md_views(footnoted@);
            if needs_no_highlight(fs) {
                lemma_code_pass_plain(self.syntax_set, fs);
            }
        }
        let coded = code_pass(&self.syntax_set, &footnoted)?;
        proof {
            lemma_code_pass_positions(self.syntax_set, md_views(footnoted@), es.len() as int);
        }
        Ok(render_html(markdown, coded))
    }
}

} // verus!
