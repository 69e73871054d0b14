use blog_gen::document::{
    id_and_date, title_and_markdown, Date, DocumentErrorKind, RawDraft, RawPost, SourceFile,
};

fn source(name: &str, content: &str) -> SourceFile {
    SourceFile {
        path: format!("content/posts/{}", name),
        name: name.to_string(),
        content: content.to_string(),
    }
}

#[test]
fn post_name_gives_date_and_id() {
    let post = RawPost::new(&source("2024-03-01_hello.md", "Hello\n\nBody text.")).unwrap();
    assert_eq!(post.id, "hello");
    assert_eq!(post.date, Date { year: 2024, month: 3, day: 1 });
    assert_eq!(post.title, "Hello");
    assert_eq!(post.markdown, "Body text.");
}

#[test]
fn post_name_with_other_extension() {
    let (id, date) = id_and_date("p", "1999-12-31_party.txt").unwrap();
    assert_eq!(id, "party");
    assert_eq!(date, Date { year: 1999, month: 12, day: 31 });
}

#[test]
fn post_name_without_extension() {
    let (id, date) = id_and_date("p", "2020-02-29_leap").unwrap();
    assert_eq!(id, "leap");
    assert_eq!(date, Date { year: 2020, month: 2, day: 29 });
}

#[test]
fn post_id_is_second_segment_only() {
    let (id, _) = id_and_date("p", "2024-01-05_first_second.md").unwrap();
    assert_eq!(id, "first");
}

#[test]
fn post_name_without_underscore_is_missing_id() {
    let err = RawPost::new(&source("2024-03-01.md", "T\n\nB")).unwrap_err();
    assert_eq!(err.kind, DocumentErrorKind::MissingId);
    assert_eq!(err.path, "content/posts/2024-03-01.md");
}

#[test]
fn post_name_with_invalid_date_is_bad_date() {
    let err = RawPost::new(&source("2024-13-01_x.md", "T\n\nB")).unwrap_err();
    assert_eq!(err.kind, DocumentErrorKind::BadDate);
    assert_eq!(err.path, "content/posts/2024-13-01_x.md");
    let err = id_and_date("q", "2023-02-29_x.md").unwrap_err();
    assert_eq!(err.kind, DocumentErrorKind::BadDate);
    assert_eq!(err.path, "q");
    let err = id_and_date("q", "_x.md").unwrap_err();
    assert_eq!(err.kind, DocumentErrorKind::BadDate);
    let err = id_and_date("q", "yesterday_x.md").unwrap_err();
    assert_eq!(err.kind, DocumentErrorKind::BadDate);
}

#[test]
fn missing_id_comes_before_bad_date() {
    let err = id_and_date("q", "nodate.md").unwrap_err();
    assert_eq!(err.kind, DocumentErrorKind::MissingId);
}

#[test]
fn title_is_text_before_first_blank_line() {
    let (title, markdown) = title_and_markdown("p", "My Title\n\nFirst\n\nSecond\n").unwrap();
    assert_eq!(title, "My Title");
    assert_eq!(markdown, "First\n\nSecond\n");
}

#[test]
fn empty_body_after_blank_line() {
    let (title, markdown) = title_and_markdown("p", "Only\n\n").unwrap();
    assert_eq!(title, "Only");
    assert_eq!(markdown, "");
}

#[test]
fn content_without_blank_line_is_missing_markdown() {
    let err = title_and_markdown("some/path", "Title\nbody on next line").unwrap_err();
    assert_eq!(err.kind, DocumentErrorKind::MissingMarkdown);
    assert_eq!(err.path, "some/path");
    let err = RawPost::new(&source("2024-03-01_a.md", "no blank line")).unwrap_err();
    assert_eq!(err.kind, DocumentErrorKind::MissingMarkdown);
}

#[test]
fn draft_id_is_stem_verbatim() {
    let draft = RawDraft::new(&source("my_draft_post.md", "Draft\n\nText")).unwrap();
    assert_eq!(draft.id, "my_draft_post");
    assert_eq!(draft.title, "Draft");
    assert_eq!(draft.markdown, "Text");
}

#[test]
fn draft_without_blank_line_fails() {
    let err = RawDraft::new(&source("d.md", "Draft")).unwrap_err();
    assert_eq!(err.kind, DocumentErrorKind::MissingMarkdown);
    assert_eq!(err.path, "content/posts/d.md");
}

#[test]
fn empty_id_segment_is_missing_id() {
    let err = id_and_date("posts/2024-03-01_.md", "2024-03-01_.md").unwrap_err();
    assert_eq!(err.kind, DocumentErrorKind::MissingId);
    assert_eq!(err.path, "posts/2024-03-01_.md");
    let err = id_and_date("p", "2024-03-01__rest.md").unwrap_err();
    assert_eq!(err.kind, DocumentErrorKind::MissingId);
}
