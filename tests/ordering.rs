use blog_gen::document::{Date, SourceFile};
use blog_gen::markdown::Markdowner;
use blog_gen::render::{
    latest_post_date, missing_posts_dir, order_posts, render_all, render_drafts, render_posts,
    sort_posts, RenderError, RenderedPost,
};
use std::cmp::Ordering;
use syntect::parsing::SyntaxSet;

fn post(date: (i32, u32, u32), title: &str) -> RenderedPost {
    RenderedPost {
        id: title.to_lowercase(),
        title: title.to_string(),
        date: Date { year: date.0, month: date.1, day: date.2 },
        summary: String::new(),
        html: String::new(),
    }
}

fn file(name: &str, content: &str) -> SourceFile {
    SourceFile { path: format!("in/{}", name), name: name.to_string(), content: content.to_string() }
}

fn markdowner() -> Markdowner {
    Markdowner::new(SyntaxSet::load_defaults_newlines())
}

#[test]
fn posts_sort_by_date_then_title_descending() {
    let sorted = sort_posts(vec![post((2024, 3, 1), "B"), post((2024, 3, 2), "A"), post((2024, 3, 1), "A")]);
    let keys: Vec<(u32, &str)> = sorted.iter().map(|p| (p.date.day, p.title.as_str())).collect();
    assert_eq!(keys, vec![(2, "A"), (1, "B"), (1, "A")]);
}

#[test]
fn sort_across_years_and_months() {
    let sorted = sort_posts(vec![
        post((2023, 12, 31), "x"),
        post((2024, 1, 1), "y"),
        post((2022, 6, 15), "z"),
        post((2024, 1, 1), "ya"),
    ]);
    let titles: Vec<&str> = sorted.iter().map(|p| p.title.as_str()).collect();
    assert_eq!(titles, vec!["ya", "y", "x", "z"]);
    assert!(sort_posts(Vec::new()).is_empty());
}

#[test]
fn order_posts_puts_newer_first() {
    assert_eq!(order_posts(&post((2024, 3, 2), "A"), &post((2024, 3, 1), "B")), Ordering::Less);
    assert_eq!(order_posts(&post((2024, 3, 1), "A"), &post((2024, 3, 1), "B")), Ordering::Greater);
    assert_eq!(order_posts(&post((2024, 3, 1), "A"), &post((2024, 3, 1), "A")), Ordering::Equal);
    assert_eq!(order_posts(&post((2024, 3, 1), "Ab"), &post((2024, 3, 1), "A")), Ordering::Less);
}

#[test]
fn latest_date_of_posts() {
    let posts = vec![post((2023, 5, 1), "a"), post((2024, 2, 1), "b"), post((2024, 1, 9), "c")];
    assert_eq!(latest_post_date(&posts), Some(Date { year: 2024, month: 2, day: 1 }));
    assert_eq!(latest_post_date(&Vec::new()), None);
}

#[test]
fn missing_posts_directory_fails_the_run() {
    let err = render_all(&markdowner(), "content/posts", &None, &Some(Vec::new())).unwrap_err();
    assert!(matches!(err, RenderError::MissingPostsDirectory(p) if p == "content/posts"));
    assert!(matches!(missing_posts_dir("x"), RenderError::MissingPostsDirectory(p) if p == "x"));
}

#[test]
fn missing_drafts_directory_means_no_drafts() {
    let posts = Some(vec![file("2024-01-02_a.md", "A\n\nFirst *para*.\n\nSecond.\n")]);
    let (ps, ds) = render_all(&markdowner(), "content/posts", &posts, &None).unwrap();
    assert_eq!(ps.len(), 1);
    assert!(ds.is_empty());
    assert!(render_drafts(&markdowner(), &None).unwrap().is_empty());
}

#[test]
fn posts_are_rendered_and_ordered() {
    let files = Some(vec![
        file("2024-03-01_b.md", "B\n\nBee.\n"),
        file("2024-03-02_a.md", "A\n\nAy\nline.\n"),
        file("2024-03-01_c.md", "A\n\nSee.\n"),
    ]);
    let ps = render_posts(&markdowner(), "p", &files).unwrap();
    let ids: Vec<&str> = ps.iter().map(|p| p.id.as_str()).collect();
    assert_eq!(ids, vec!["a", "b", "c"]);
    assert_eq!(ps[0].html, "<p>Ay\nline.</p>\n");
    assert_eq!(ps[0].summary, "Ay line.");
    assert_eq!(ps[1].summary, "Bee.");
}

#[test]
fn post_without_paragraph_has_no_summary() {
    let files = Some(vec![file("2024-03-01_h.md", "Heading only\n\n# Just a heading\n")]);
    let err = render_posts(&markdowner(), "p", &files).unwrap_err();
    assert!(matches!(err, RenderError::MissingSummary(t) if t == "Heading only"));
}

#[test]
fn bad_post_file_aborts_the_run() {
    let files = Some(vec![file("2024-03-01_ok.md", "Ok\n\nFine.\n"), file("notes.txt", "N\n\nx")]);
    let err = render_posts(&markdowner(), "p", &files).unwrap_err();
    assert!(matches!(err, RenderError::Document(e) if e.path == "in/notes.txt"));
}

#[test]
fn unknown_language_aborts_the_run() {
    let files = Some(vec![file("2024-03-01_c.md", "C\n\nIntro.\n\n```zzzlang\nx\n```\n")]);
    let err = render_posts(&markdowner(), "p", &files).unwrap_err();
    assert!(matches!(err, RenderError::Markdown(e) if e.lang == "zzzlang"));
}

#[test]
fn drafts_keep_their_order_and_get_placeholders() {
    let drafts = Some(vec![file("zed.md", "Zed\n\nz text\n"), file("alpha.md", "Alpha\n\n*a*\n")]);
    let ds = render_drafts(&markdowner(), &drafts).unwrap();
    assert_eq!(ds.len(), 2);
    assert_eq!(ds[0].id, "zed");
    assert_eq!(ds[0].summary, "Zed draft post");
    assert_eq!(ds[1].id, "alpha");
    assert_eq!(ds[1].html, "<p><em>a</em></p>\n");
}

#[test]
fn sort_keeps_posts_with_equal_keys() {
    let mut first = post((2024, 3, 1), "Same");
    first.id = "one".to_string();
    let mut second = post((2024, 3, 1), "Same");
    second.id = "two".to_string();
    let sorted = sort_posts(vec![first, post((2025, 1, 1), "New"), second]);
    assert_eq!(sorted.len(), 3);
    assert_eq!(sorted[0].title, "New");
    let mut ids: Vec<&str> = sorted[1..].iter().map(|p| p.id.as_str()).collect();
    ids.sort();
    assert_eq!(ids, vec!["one", "two"]);
}

#[test]
fn repeated_post_id_is_an_error() {
    let files = Some(vec![file("2024-01-01_a.md", "One\n\nFirst.\n"), file("2024-02-02_a.md", "Two\n\nSecond.\n")]);
    let err = render_posts(&markdowner(), "p", &files).unwrap_err();
    assert!(matches!(err, RenderError::Document(e)
        if e.kind == blog_gen::document::DocumentErrorKind::DuplicateId && e.path == "in/2024-02-02_a.md"));
}

#[test]
fn repeated_draft_id_is_an_error() {
    let drafts = Some(vec![file("same.md", "One\n\nx\n"), file("same.txt", "Two\n\ny\n")]);
    let err = render_drafts(&markdowner(), &drafts).unwrap_err();
    assert!(matches!(err, RenderError::Document(e)
        if e.kind == blog_gen::document::DocumentErrorKind::DuplicateId && e.path == "in/same.txt"));
}
