//! Rendering every post and draft of a site, and ordering the posts for the
//! index and the feed.
use vstd::prelude::*;

use std::cmp::Ordering;

use syntect::parsing::SyntaxSet;

use crate::document::{
    blank_line_from, body_of, file_stem, parsed_date, post_load_error, post_loads, post_name_parts, title_of,
    Date, DocumentError, DocumentErrorKind, RawDraft, RawPost, SourceFile,
};
use crate::highlight::{code_pass_fails_with, MarkdownError};
use crate::markdown::{footnoted_events, markdown_html, Markdowner};
use crate::summary::{close_p_from, extract_summary, summary_text};
use crate::text::chars_of;

verus! {

broadcast use vstd::seq_lib::group_to_multiset_ensures;

/// A post ready for page assembly.
#[derive(Debug, Clone)]
pub struct RenderedPost {
    pub id: String,
    pub title: String,
    pub date: Date,
    pub summary: String,
    pub html: String,
}

/// A draft ready for page assembly: no date, and a placeholder summary.
#[derive(Debug, Clone)]
pub struct RenderedDraft {
    pub id: String,
    pub title: String,
    pub summary: String,
    pub html: String,
}

/// -1, 0 or 1 as `a` is less than, equal to or greater than `b`.
pub open spec fn int_cmp(a: int, b: int) -> int {
    if a < b {
        -1
    } else if a > b {
        1
    } else {
        0
    }
}

/// Lexicographic comparison of character sequences: -1, 0 or 1.
pub open spec fn text_cmp(a: Seq<char>, b: Seq<char>) -> int
    decreases a.len(),
{
    if a.len() == 0 && b.len() == 0 {
        0
    } else if a.len() == 0 {
        -1
    } else if b.len() == 0 {
        1
    } else if a[0] != b[0] {
        int_cmp(a[0] as int, b[0] as int)
    } else {
        text_cmp(a.skip(1), b.skip(1))
    }
}

/// Chronological comparison of dates: -1, 0 or 1.
pub open spec fn date_cmp(a: Date, b: Date) -> int {
    if a.year != b.year {
        int_cmp(a.year as int, b.year as int)
    } else if a.month != b.month {
        int_cmp(a.month as int, b.month as int)
    } else {
        int_cmp(a.day as int, b.day as int)
    }
}

/// Comparison of posts by date, then by title: -1, 0 or 1.
pub open spec fn post_key_cmp(p: RenderedPost, q: RenderedPost) -> int {
    if date_cmp(p.date, q.date) != 0 {
        date_cmp(p.date, q.date)
    } else {
        text_cmp(p.title@, q.title@)
    }
}

/// Whether the posts are listed most recent first, and among posts of one
/// date by title in reverse lexicographic order.
pub open spec fn is_listing_order(ps: Seq<RenderedPost>) -> bool {
    forall|i: int, j: int| 0 <= i < j < ps.len() ==> post_key_cmp(#[trigger] ps[i], #[trigger] ps[j]) >= 0
}

/// The `Ordering` that a comparison result -1, 0 or 1 stands for.
pub open spec fn ordering_of(c: int) -> Ordering {
    if c < 0 {
        Ordering::Less
    } else if c > 0 {
        Ordering::Greater
    } else {
        Ordering::Equal
    }
}

proof fn lemma_text_cmp_antisym(a: Seq<char>, b: Seq<char>)
    ensures
        text_cmp(a, b) == -text_cmp(b, a),
        text_cmp(a, b) == 0 ==> a == b,
        -1 <= text_cmp(a, b) <= 1,
    decreases a.len(),
{
    if a.len() > 0 && b.len() > 0 && a[0] == b[0] {
        lemma_text_cmp_antisym(a.skip(1), b.skip(1));
        if text_cmp(a, b) == 0 {
            assert(a =~= seq![a[0]] + a.skip(1));
            assert(b =~= seq![b[0]] + b.skip(1));
        }
    } else if a.len() == 0 && b.len() == 0 {
        assert(a =~= b);
    }
}

proof fn lemma_text_cmp_trans(a: Seq<char>, b: Seq<char>, c: Seq<char>)
    requires
        text_cmp(a, b) >= 0,
        text_cmp(b, c) >= 0,
    ensures
        text_cmp(a, c) >= 0,
    decreases a.len(),
{
    if a.len() > 0 && b.len() > 0 && c.len() > 0 && a[0] == b[0] && b[0] == c[0] {
        lemma_text_cmp_trans(a.skip(1), b.skip(1), c.skip(1));
    }
}

proof fn lemma_post_key_cmp_antisym(p: RenderedPost, q: RenderedPost)
    ensures
        post_key_cmp(p, q) == -post_key_cmp(q, p),
{
    lemma_text_cmp_antisym(p.title@, q.title@);
}

proof fn lemma_post_key_cmp_trans(p: RenderedPost, q: RenderedPost, r: RenderedPost)
    requires
        post_key_cmp(p, q) >= 0,
        post_key_cmp(q, r) >= 0,
    ensures
        post_key_cmp(p, r) >= 0,
{
    lemma_text_cmp_antisym(p.title@, q.title@);
    lemma_text_cmp_antisym(q.title@, r.title@);
    lemma_text_cmp_antisym(p.title@, r.title@);
    if date_cmp(p.date, q.date) == 0 && date_cmp(q.date, r.date) == 0 {
        lemma_text_cmp_trans(p.title@, q.title@, r.title@);
    }
}

/// Compares two titles lexicographically.
fn compare_titles(a: &str, b: &str) -> (r: Ordering)
    ensures
        r == ordering_of(text_cmp(a@, b@)),
{
    let x = chars_of(a);
    let y = chars_of(b);
    let mut i: usize = 0;
    proof {
        assert(x@.skip(0) =~= x@);
        assert(y@.skip(0) =~= y@);
    }
    while i < x.len() && i < y.len() && x[i] == y[i]
        invariant
            i <= x@.len(),
            i <= y@.len(),
            text_cmp(a@, b@) == text_cmp(x@.skip(i as int), y@.skip(i as int)),
            x@ == a@,
            y@ == b@,
        decreases x@.len() - i,
    {
        proof {
            assert(x@.skip(i as int).skip(1) =~= x@.skip(i + 1));
            assert(y@.skip(i as int).skip(1) =~= y@.skip(i + 1));
        }
        i += 1;
    }
    if i == x.len() && i == y.len() {
        Ordering::Equal
    } else if i == x.len() {
        Ordering::Less
    } else if i == y.len() {
        Ordering::Greater
    } else if x[i] < y[i] {
        Ordering::Less
    } else {
        Ordering::Greater
    }
}

fn compare_ints(a: i64, b: i64) -> (r: Ordering)
    ensures
        r == ordering_of(int_cmp(a as int, b as int)),
{
    if a < b {
        Ordering::Less
    } else if a > b {
        Ordering::Greater
    } else {
        Ordering::Equal
    }
}

/// Compares two dates chronologically.
pub fn compare_dates(a: &Date, b: &Date) -> (r: Ordering)
    ensures
        r == ordering_of(date_cmp(*a, *b)),
{
    if a.year != b.year {
        compare_ints(a.year as i64, b.year as i64)
    } else if a.month != b.month {
        compare_ints(a.month as i64, b.month as i64)
    } else {
        compare_ints(a.day as i64, b.day as i64)
    }
}

/// The listing order of posts: `Less` when `a` comes first. Later dates
/// come first; on one date, titles in reverse lexicographic order.
pub fn order_posts(a: &RenderedPost, b: &RenderedPost) -> (r: Ordering)
    ensures
        r == ordering_of(post_key_cmp(*b, *a)),
{
    match compare_dates(&b.date, &a.date) {
        Ordering::Equal => compare_titles(b.title.as_str(), a.title.as_str()),
        order => order,
    }
}

/// Sorts posts into listing order, keeping exactly the posts given.
pub fn sort_posts(posts: Vec<RenderedPost>) -> (r: Vec<RenderedPost>)
    ensures
        is_listing_order(r@),
        r@.to_multiset() == posts@.to_multiset(),
{
    let mut rest = posts;
    let mut sorted: Vec<RenderedPost> = Vec::new();
    while rest.len() > 0
        invariant
            is_listing_order(sorted@),
            sorted@.to_multiset().add(rest@.to_multiset()) == posts@.to_multiset(),
        decreases rest@.len(),
    {
        let ghost old_rest = rest@;
        let post = rest.pop().unwrap();
        proof {
            assert(old_rest =~= rest@.push(post));
        }
        let mut j: usize = 0;
        while j < sorted.len()
            invariant
                j <= sorted@.len(),
                is_listing_order(sorted@),
                forall|k: int| 0 <= k < j ==> post_key_cmp(post, #[trigger] sorted@[k]) < 0,
            ensures
                j <= sorted@.len(),
                is_listing_order(sorted@),
                forall|k: int| 0 <= k < j ==> post_key_cmp(post, #[trigger] sorted@[k]) < 0,
                j < sorted@.len() ==> post_key_cmp(post, sorted@[j as int]) >= 0,
            decreases sorted@.len() - j,
        {
            if !matches!(order_posts(&sorted[j], &post), Ordering::Less) {
                break;
            }
            j += 1;
        }
        let ghost before = sorted@;
        proof {
            assert forall|k: int| j <= k < before.len() implies post_key_cmp(post, #[trigger] before[k]) >= 0 by {
                if k > j {
                    lemma_post_key_cmp_trans(post, before[j as int], before[k]);
                }
            }
        }
        sorted.insert(j, post);
        proof {
            assert forall|a: int, b: int| 0 <= a < b < sorted@.len() implies post_key_cmp(#[trigger] sorted@[a], #[trigger] sorted@[b]) >= 0 by {
                if a < j && b == j {
                    lemma_post_key_cmp_antisym(post, before[a]);
                } else if a < j && b > j {
                    lemma_post_key_cmp_antisym(post, before[a]);
                    lemma_post_key_cmp_trans(before[a], post, before[b - 1]);
                } else if a == j {
                    assert(sorted@[b] == before[b - 1]);
                } else if a > j {
                    assert(sorted@[a] == before[a - 1] && sorted@[b] == before[b - 1]);
                } else {
                    assert(sorted@[a] == before[a] && sorted@[b] == before[b]);
                }
            }
        }
    }
    sorted
}

/// Why a run could not render the site's content.
#[derive(Debug, Clone)]
pub enum RenderError {
    /// A content file could not be loaded.
    Document(DocumentError),
    /// A document could not be converted.
    Markdown(MarkdownError),
    /// A post has no complete first paragraph; carries its title.
    MissingSummary(String),
    /// The posts directory does not exist; carries its expected path.
    MissingPostsDirectory(String),
}

/// The error for a posts directory that does not exist at `path`.
pub fn missing_posts_dir(path: &str) -> (e: RenderError)
    ensures
        e matches RenderError::MissingPostsDirectory(p) && p@ == path@,
{
    RenderError::MissingPostsDirectory(String::from_str(path))
}

/// The identifier that the name of the post file `source` gives.
pub open spec fn post_file_id(source: &SourceFile) -> Seq<char> {
    match post_name_parts(source.name@) {
        Some((_, id)) => id,
        None => Seq::empty(),
    }
}

/// The identifier that the name of the draft file `source` gives.
pub open spec fn draft_file_id(source: &SourceFile) -> Seq<char> {
    file_stem(source.name@)
}

/// Whether no two post files of `fs` give the same identifier.
pub open spec fn post_ids_distinct(fs: Seq<SourceFile>) -> bool {
    forall|a: int, b: int| 0 <= a < b < fs.len() ==> post_file_id(#[trigger] &fs[a]) != post_file_id(#[trigger] &fs[b])
}

/// Whether no two draft files of `fs` give the same identifier.
pub open spec fn draft_ids_distinct(fs: Seq<SourceFile>) -> bool {
    forall|a: int, b: int| 0 <= a < b < fs.len() ==> draft_file_id(#[trigger] &fs[a]) != draft_file_id(#[trigger] &fs[b])
}

/// What loading the file `source` as a draft fails with, if anything.
pub open spec fn draft_load_error(source: &SourceFile) -> Option<DocumentErrorKind> {
    if blank_line_from(source.content@, 0) < 0 {
        Some(DocumentErrorKind::MissingMarkdown)
    } else {
        None
    }
}

/// Whether `p` is the rendering of the file `source` as a post: identifier,
/// date and title as loaded, the HTML of its body, and the summary of that
/// HTML.
pub open spec fn post_rendered_from(set: SyntaxSet, source: &SourceFile, p: RenderedPost) -> bool {
    &&& post_name_parts(source.name@) matches Some((date_text, id)) && p.id@ == id
        && parsed_date(date_text) == Some(p.date)
    &&& p.date.wf()
    &&& blank_line_from(source.content@, 0) >= 0
    &&& p.title@ == title_of(source.content@)
    &&& markdown_html(set, body_of(source.content@)) == Some(p.html@)
    &&& close_p_from(p.html@, 0) >= 0
    &&& p.summary@ == summary_text(p.html@)
}

/// Whether `ps` is the rendering of the post files `fs`: one post for each
/// file, with distinct identifiers, in listing order.
pub open spec fn posts_rendered_from(set: SyntaxSet, fs: Seq<SourceFile>, ps: Seq<RenderedPost>) -> bool {
    &&& ps.len() == fs.len()
    &&& is_listing_order(ps)
    &&& post_ids_distinct(fs)
    &&& exists|u: Seq<RenderedPost>| #![trigger u.to_multiset()] u.len() == fs.len()
        && (forall|j: int| 0 <= j < fs.len() ==> post_rendered_from(set, &fs[j], #[trigger] u[j]))
        && ps.to_multiset() == u.to_multiset()
}

/// Whether the file `source` renders as a post: it loads, its code
/// highlights with `set`, and its HTML has a first paragraph.
pub open spec fn post_renders(set: SyntaxSet, source: &SourceFile) -> bool {
    &&& post_loads(source)
    &&& markdown_html(set, body_of(source.content@)) matches Some(html) && close_p_from(html, 0) >= 0
}

/// Whether every post file of `fs` renders, with distinct identifiers.
pub open spec fn posts_render(set: SyntaxSet, fs: Seq<SourceFile>) -> bool {
    &&& forall|j: int| 0 <= j < fs.len() ==> post_renders(set, #[trigger] &fs[j])
    &&& post_ids_distinct(fs)
}

/// The placeholder summary of a draft.
pub open spec fn draft_summary(title: Seq<char>) -> Seq<char> {
    title + " draft post"@
}

/// Whether `d` is the rendering of the file `source` as a draft.
pub open spec fn draft_rendered_from(set: SyntaxSet, source: &SourceFile, d: RenderedDraft) -> bool {
    &&& d.id@ == draft_file_id(source)
    &&& blank_line_from(source.content@, 0) >= 0
    &&& d.title@ == title_of(source.content@)
    &&& markdown_html(set, body_of(source.content@)) == Some(d.html@)
    &&& d.summary@ == draft_summary(d.title@)
}

/// Whether `ds` is the rendering of the draft files `fs`, in their order,
/// with distinct identifiers.
pub open spec fn drafts_rendered_from(set: SyntaxSet, fs: Seq<SourceFile>, ds: Seq<RenderedDraft>) -> bool {
    &&& ds.len() == fs.len()
    &&& draft_ids_distinct(fs)
    &&& forall|j: int| 0 <= j < fs.len() ==> draft_rendered_from(set, &fs[j], #[trigger] ds[j])
}

/// Whether the file `source` renders as a draft: it loads and its code
/// highlights with `set`.
pub open spec fn draft_renders(set: SyntaxSet, source: &SourceFile) -> bool {
    &&& blank_line_from(source.content@, 0) >= 0
    &&& markdown_html(set, body_of(source.content@)) is Some
}

/// Whether every draft file of `fs` renders, with distinct identifiers.
pub open spec fn drafts_render(set: SyntaxSet, fs: Seq<SourceFile>) -> bool {
    &&& forall|j: int| 0 <= j < fs.len() ==> draft_renders(set, #[trigger] &fs[j])
    &&& draft_ids_distinct(fs)
}

/// Whether `e` is what the post file `fs[j]` fails with: its own loading
/// error, an identifier that an earlier file has, or a failure to convert
/// it or to take its summary.
pub open spec fn post_fault(set: SyntaxSet, fs: Seq<SourceFile>, j: int, e: RenderError) -> bool {
    let source = &fs[j];
    match e {
        RenderError::Document(d) => d.path@ == source.path@ && (Some(d.kind) == post_load_error(source)
            || (d.kind == DocumentErrorKind::DuplicateId && post_load_error(source) is None
                && exists|i: int| 0 <= i < j && post_file_id(#[trigger] &fs[i]) == post_file_id(source))),
        RenderError::Markdown(m) => post_load_error(source) is None
            && code_pass_fails_with(set, footnoted_events(body_of(source.content@)), m),
        RenderError::MissingSummary(t) => post_load_error(source) is None && t@ == title_of(source.content@)
            && (markdown_html(set, body_of(source.content@)) matches Some(html) && close_p_from(html, 0) < 0),
        RenderError::MissingPostsDirectory(_) => false,
    }
}

/// Whether `e` is what the draft file `fs[j]` fails with.
pub open spec fn draft_fault(set: SyntaxSet, fs: Seq<SourceFile>, j: int, e: RenderError) -> bool {
    let source = &fs[j];
    match e {
        RenderError::Document(d) => d.path@ == source.path@ && (Some(d.kind) == draft_load_error(source)
            || (d.kind == DocumentErrorKind::DuplicateId && draft_load_error(source) is None
                && exists|i: int| 0 <= i < j && draft_file_id(#[trigger] &fs[i]) == draft_file_id(source))),
        RenderError::Markdown(m) => draft_load_error(source) is None
            && code_pass_fails_with(set, footnoted_events(body_of(source.content@)), m),
        _ => false,
    }
}

/// Whether the run over the post files `fs` stops with `e` at some file:
/// every file before it loaded, and `e` is that file's own failure.
pub open spec fn posts_fail_with(set: SyntaxSet, fs: Seq<SourceFile>, e: RenderError) -> bool {
    exists|j: int| 0 <= j < fs.len() && #[trigger] post_fault(set, fs, j, e)
        && forall|i: int| 0 <= i < j ==> post_load_error(#[trigger] &fs[i]) is None
}

/// Whether the run over the draft files `fs` stops with `e` at some file.
pub open spec fn drafts_fail_with(set: SyntaxSet, fs: Seq<SourceFile>, e: RenderError) -> bool {
    exists|j: int| 0 <= j < fs.len() && #[trigger] draft_fault(set, fs, j, e)
        && forall|i: int| 0 <= i < j ==> draft_load_error(#[trigger] &fs[i]) is None
}

/// Whether `p` is the rendering of the loaded post `post`.
pub open spec fn rendered_from_raw(set: SyntaxSet, post: RawPost, p: RenderedPost) -> bool {
    &&& p.id@ == post.id@
    &&& p.title@ == post.title@
    &&& p.date == post.date
    &&& markdown_html(set, post.markdown@) == Some(p.html@)
    &&& close_p_from(p.html@, 0) >= 0
    &&& p.summary@ == summary_text(p.html@)
}

/// Converts a loaded post and takes its summary.
fn render_post(markdowner: &Markdowner, post: RawPost) -> (r: Result<RenderedPost, RenderError>)
    ensures
        r is Ok <==> (markdown_html(markdowner.syntaxes(), post.markdown@) matches Some(html)
            && close_p_from(html, 0) >= 0),
        r is Ok ==> rendered_from_raw(markdowner.syntaxes(), post, r->Ok_0),
        r matches Err(RenderError::Markdown(m)) ==> code_pass_fails_with(markdowner.syntaxes(),
            footnoted_events(post.markdown@), m),
        r matches Err(RenderError::MissingSummary(t)) ==> t@ == post.title@
            && markdown_html(markdowner.syntaxes(), post.markdown@) is Some,
        r is Err ==> r->Err_0 is Markdown || r->Err_0 is MissingSummary,
{
    let html = match markdowner.to_html(post.markdown.as_str()) {
        Ok(html) => html,
        Err(e) => return Err(RenderError::Markdown(e)),
    };
    let summary = match extract_summary(html.as_str()) {
        Ok(summary) => summary,
        Err(_) => return Err(RenderError::MissingSummary(post.title)),
    };
    Ok(RenderedPost { id: post.id, title: post.title, date: post.date, summary, html })
}

/// Converts a loaded draft; its summary is a placeholder made of its title.
fn render_draft(markdowner: &Markdowner, draft: RawDraft) -> (r: Result<RenderedDraft, RenderError>)
    ensures
        r is Ok <==> markdown_html(markdowner.syntaxes(), draft.markdown@) is Some,
        r matches Ok(d) ==> d.id@ == draft.id@ && d.title@ == draft.title@
            && markdown_html(markdowner.syntaxes(), draft.markdown@) == Some(d.html@)
            && d.summary@ == draft_summary(draft.title@),
        r matches Err(RenderError::Markdown(m)) ==> code_pass_fails_with(markdowner.syntaxes(),
            footnoted_events(draft.markdown@), m),
        r is Err ==> r->Err_0 is Markdown,
{
    let html = match markdowner.to_html(draft.markdown.as_str()) {
        Ok(html) => html,
        Err(e) => return Err(RenderError::Markdown(e)),
    };
    let mut summary = String::from_str(draft.title.as_str());
    summary.append(" draft post");
    Ok(RenderedDraft { id: draft.id, title: draft.title, summary, html })
}

/// Loads and renders every post file and sorts the posts into listing
/// order. Without a posts directory (`None`) the run fails with
/// `MissingPostsDirectory`; the first file that fails, or that repeats an
/// identifier, ends the run.
#[verifier::loop_isolation(false)]
pub fn render_posts(markdowner: &Markdowner, posts_dir: &str, files: &Option<Vec<SourceFile>>) -> (r: Result<Vec<RenderedPost>, RenderError>)
    ensures
        files is None ==> (r matches Err(RenderError::MissingPostsDirectory(p)) && p@ == posts_dir@),
        r matches Ok(ps) ==> (files is Some && posts_rendered_from(markdowner.syntaxes(), files->0@, ps@)),
        files is Some ==> (r is Ok <==> posts_render(markdowner.syntaxes(), files->0@)),
        files is Some ==> (r is Err ==> posts_fail_with(markdowner.syntaxes(), files->0@, r->Err_0)),
{
    let fs = match files {
        Some(fs) => fs,
        None => return Err(missing_posts_dir(posts_dir)),
    };
    let ghost all = fs@;
    let mut posts: Vec<RenderedPost> = Vec::new();
    let mut j: usize = 0;
    while j < fs.len()
        invariant
            j <= all.len(),
            all == fs@,
            files->0@ == all,
            files is Some,
            posts@.len() == j,
            forall|k: int| 0 <= k < j ==> post_rendered_from(markdowner.syntaxes(), &all[k], #[trigger] posts@[k]),
            forall|k: int| 0 <= k < j ==> post_load_error(#[trigger] &all[k]) is None,
            forall|a: int, b: int| 0 <= a < b < j ==> post_file_id(#[trigger] &all[a]) != post_file_id(#[trigger] &all[b]),
        decreases all.len() - j,
    {
        let source = &fs[j];
        let raw = match RawPost::new(source) {
            Ok(raw) => raw,
            Err(e) => {
                proof {
                    assert(post_fault(markdowner.syntaxes(), all, j as int, RenderError::Document(e)));
                    assert(!post_renders(markdowner.syntaxes(), &all[j as int]));
                }
                return Err(RenderError::Document(e));
            },
        };
        let mut k: usize = 0;
        while k < posts.len()
            invariant
                k <= posts@.len(),
                forall|m: int| 0 <= m < k ==> posts@[m].id@ != raw.id@,
            decreases posts@.len() - k,
        {
            if posts[k].id == raw.id {
                let e = DocumentError { kind: DocumentErrorKind::DuplicateId, path: String::from_str(source.path.as_str()) };
                proof {
                    assert(post_rendered_from(markdowner.syntaxes(), &all[k as int], posts@[k as int]));
                    assert(post_file_id(&all[k as int]) == post_file_id(&all[j as int]));
                    assert(post_fault(markdowner.syntaxes(), all, j as int, RenderError::Document(e)));
                    assert(!post_ids_distinct(all));
                }
                return Err(RenderError::Document(e));
            }
            k += 1;
        }
        proof {
            assert forall|m: int| 0 <= m < j implies post_file_id(&all[m]) != post_file_id(&all[j as int]) by {
                assert(post_rendered_from(markdowner.syntaxes(), &all[m], posts@[m]));
            }
        }
        let post = match render_post(markdowner, raw) {
            Ok(post) => post,
            Err(e) => {
                proof {
                    assert(post_fault(markdowner.syntaxes(), all, j as int, e));
                    assert(!post_renders(markdowner.syntaxes(), &all[j as int]));
                }
                return Err(e);
            },
        };
        posts.push(post);
        j += 1;
    }
    let ghost unsorted = posts@;
    let sorted = sort_posts(posts);
    proof {
        assert forall|k: int| 0 <= k < all.len() implies post_renders(markdowner.syntaxes(), #[trigger] &all[k]) by {
            assert(post_rendered_from(markdowner.syntaxes(), &all[k], unsorted[k]));
        }
        assert(forall|k: int| 0 <= k < all.len() ==> post_rendered_from(markdowner.syntaxes(), &all[k], #[trigger] unsorted[k]));
        assert(sorted@.to_multiset() == unsorted.to_multiset());
        vstd::seq_lib::to_multiset_len(sorted@);
        vstd::seq_lib::to_multiset_len(unsorted);
        assert(exists|u: Seq<RenderedPost>| #![trigger u.to_multiset()] u.len() == all.len()
            && (forall|j: int| 0 <= j < all.len() ==> post_rendered_from(markdowner.syntaxes(), &all[j], #[trigger] u[j]))
            && sorted@.to_multiset() == u.to_multiset());
    }
    Ok(sorted)
}

/// Loads and renders every draft file, in the order given. Without a
/// drafts directory (`None`) there are no drafts; the first file that
/// fails, or that repeats an identifier, ends the run.
#[verifier::loop_isolation(false)]
pub fn render_drafts(markdowner: &Markdowner, files: &Option<Vec<SourceFile>>) -> (r: Result<Vec<RenderedDraft>, RenderError>)
    ensures
        files is None ==> (r matches Ok(ds) && ds@.len() == 0),
        r matches Ok(ds) ==> (files is Some ==> drafts_rendered_from(markdowner.syntaxes(), files->0@, ds@)),
        files is Some ==> (r is Ok <==> drafts_render(markdowner.syntaxes(), files->0@)),
        files is Some ==> (r is Err ==> drafts_fail_with(markdowner.syntaxes(), files->0@, r->Err_0)),
{
    let fs = match files {
        Some(fs) => fs,
        None => return Ok(Vec::new()),
    };
    let ghost all = fs@;
    let mut drafts: Vec<RenderedDraft> = Vec::new();
    let mut j: usize = 0;
    while j < fs.len()
        invariant
            j <= all.len(),
            all == fs@,
            files->0@ == all,
            files is Some,
            drafts@.len() == j,
            forall|k: int| 0 <= k < j ==> draft_rendered_from(markdowner.syntaxes(), &all[k], #[trigger] drafts@[k]),
            forall|k: int| 0 <= k < j ==> draft_load_error(#[trigger] &all[k]) is None,
            forall|a: int, b: int| 0 <= a < b < j ==> draft_file_id(#[trigger] &all[a]) != draft_file_id(#[trigger] &all[b]),
        decreases all.len() - j,
    {
        let source = &fs[j];
        let raw = match RawDraft::new(source) {
            Ok(raw) => raw,
            Err(e) => {
                proof {
                    assert(draft_fault(markdowner.syntaxes(), all, j as int, RenderError::Document(e)));
                    assert(!draft_renders(markdowner.syntaxes(), &all[j as int]));
                }
                return Err(RenderError::Document(e));
            },
        };
        let mut k: usize = 0;
        while k < drafts.len()
            invariant
                k <= drafts@.len(),
                forall|m: int| 0 <= m < k ==> drafts@[m].id@ != raw.id@,
            decreases drafts@.len() - k,
        {
            if drafts[k].id == raw.id {
                let e = DocumentError { kind: DocumentErrorKind::DuplicateId, path: String::from_str(source.path.as_str()) };
                proof {
                    assert(draft_rendered_from(markdowner.syntaxes(), &all[k as int], drafts@[k as int]));
                    assert(draft_file_id(&all[k as int]) == draft_file_id(&all[j as int]));
                    assert(draft_fault(markdowner.syntaxes(), all, j as int, RenderError::Document(e)));
                    assert(!draft_ids_distinct(all));
                }
                return Err(RenderError::Document(e));
            }
            k += 1;
        }
        proof {
            assert forall|m: int| 0 <= m < j implies draft_file_id(&all[m]) != draft_file_id(&all[j as int]) by {
                assert(draft_rendered_from(markdowner.syntaxes(), &all[m], drafts@[m]));
            }
        }
        let draft = match render_draft(markdowner, raw) {
            Ok(draft) => draft,
            Err(e) => {
                proof {
                    assert(draft_fault(markdowner.syntaxes(), all, j as int, e));
                    assert(!draft_renders(markdowner.syntaxes(), &all[j as int]));
                }
                return Err(e);
            },
        };
        drafts.push(draft);
        j += 1;
    }
    proof {
        assert forall|k: int| 0 <= k < all.len() implies draft_renders(markdowner.syntaxes(), #[trigger] &all[k]) by {
            assert(draft_rendered_from(markdowner.syntaxes(), &all[k], drafts@[k]));
        }
    }
    Ok(drafts)
}

/// Renders a whole site's content: the posts, in listing order, then the
/// drafts. Without a posts directory the run fails with
/// `MissingPostsDirectory`; without a drafts directory there are no drafts.
/// The first document that fails ends the run.
pub fn render_all(
    markdowner: &Markdowner,
    posts_dir: &str,
    posts: &Option<Vec<SourceFile>>,
    drafts: &Option<Vec<SourceFile>>,
) -> (r: Result<(Vec<RenderedPost>, Vec<RenderedDraft>), RenderError>)
    ensures
        posts is None ==> (r matches Err(RenderError::MissingPostsDirectory(p)) && p@ == posts_dir@),
        r matches Ok((ps, ds)) ==> (posts is Some && posts_rendered_from(markdowner.syntaxes(), posts->0@, ps@)),
        r matches Ok((ps, ds)) ==> (drafts is None ==> ds@.len() == 0),
        r matches Ok((ps, ds)) ==> (drafts is Some ==> drafts_rendered_from(markdowner.syntaxes(), drafts->0@, ds@)),
        posts is Some ==> (drafts is None ==> (r is Ok <==> posts_render(markdowner.syntaxes(), posts->0@))),
        posts is Some && drafts is Some ==> (r is Ok <==> posts_render(markdowner.syntaxes(), posts->0@)
            && drafts_render(markdowner.syntaxes(), drafts->0@)),
        posts is Some ==> (r is Err ==> posts_fail_with(markdowner.syntaxes(), posts->0@, r->Err_0)
            || (drafts is Some && posts_render(markdowner.syntaxes(), posts->0@) && drafts_fail_with(markdowner.syntaxes(), drafts->0@, r->Err_0))),
{
    let ps = render_posts(markdowner, posts_dir, posts)?;
    let ds = render_drafts(markdowner, drafts)?;
    Ok((ps, ds))
}

/// The most recent date among the posts, if there is a post.
pub fn latest_post_date(posts: &Vec<RenderedPost>) -> (r: Option<Date>)
    ensures
        posts@.len() == 0 ==> r is None,
        r matches Some(d) ==> (exists|k: int| 0 <= k < posts@.len() && (#[trigger] posts@[k]).date == d)
            && forall|k: int| 0 <= k < posts@.len() ==> date_cmp(#[trigger] posts@[k].date, d) <= 0,
        posts@.len() > 0 ==> r is Some,
{
    if posts.len() == 0 {
        return None;
    }
    let mut latest = posts[0].date;
    let mut i: usize = 1;
    while i < posts.len()
        invariant
            1 <= i <= posts@.len(),
            exists|k: int| 0 <= k < i && (#[trigger] posts@[k]).date == latest,
            forall|k: int| 0 <= k < i ==> date_cmp(#[trigger] posts@[k].date, latest) <= 0,
        decreases posts@.len() - i,
    {
        if matches!(compare_dates(&posts[i].date, &latest), Ordering::Greater) {
            let ghost previous = latest;
            latest = posts[i].date;
            proof {
                assert forall|k: int| 0 <= k < i + 1 implies date_cmp(#[trigger] posts@[k].date, latest) <= 0 by {
                    if k < i {
                        lemma_date_cmp_trans(posts@[k].date, previous, latest);
                    }
                }
            }
        }
        i += 1;
    }
    Some(latest)
}

proof fn lemma_date_cmp_trans(a: Date, b: Date, c: Date)
    requires
        date_cmp(a, b) <= 0,
        date_cmp(c, b) > 0,
    ensures
        date_cmp(a, c) <= 0,
{
}

} // verus!
