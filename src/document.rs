//! Loading posts and drafts from their file names and contents.
use vstd::prelude::*;

use chrono::Datelike;

use crate::text::{chars_of, string_of};

verus! {

/// A calendar date in the proleptic Gregorian calendar. A post's date stands
/// for midnight UTC of that day.
#[derive(Debug, Clone, Copy, PartialEq, Eq, Structural)]
pub struct Date {
    pub year: i32,
    pub month: u32,
    pub day: u32,
}

/// Leap years of the Gregorian calendar.
pub open spec fn is_leap_year(y: int) -> bool {
    y % 4 == 0 && (y % 100 != 0 || y % 400 == 0)
}

/// The number of days of month `m` of year `y`.
pub open spec fn days_in_month(y: int, m: int) -> int {
    if m == 2 {
        if is_leap_year(y) {
            29
        } else {
            28
        }
    } else if m == 4 || m == 6 || m == 9 || m == 11 {
        30
    } else {
        31
    }
}

/// Whether year `y`, month `m` and day `d` name a day of the calendar.
pub open spec fn is_valid_date(y: int, m: int, d: int) -> bool {
    1 <= m <= 12 && 1 <= d <= days_in_month(y, m)
}

impl Date {
    /// Whether the date exists in the calendar.
    pub open spec fn wf(self) -> bool {
        is_valid_date(self.year as int, self.month as int, self.day as int)
    }
}

/// Whether `c` is an ASCII decimal digit.
pub open spec fn is_digit(c: char) -> bool {
    '0' <= c <= '9'
}

/// The value of the decimal digit `c`.
pub open spec fn digit_value(c: char) -> int {
    c as int - '0' as int
}

/// Whether `s` is a date written `YYYY-MM-DD` with ASCII digits.
pub open spec fn is_ymd_text(s: Seq<char>) -> bool {
    &&& s.len() == 10
    &&& s[4] == '-'
    &&& s[7] == '-'
    &&& forall|k: int| 0 <= k < 10 && k != 4 && k != 7 ==> is_digit(#[trigger] s[k])
}

/// The year written in `YYYY-MM-DD` text.
pub open spec fn ymd_year(s: Seq<char>) -> int {
    digit_value(s[0]) * 1000 + digit_value(s[1]) * 100 + digit_value(s[2]) * 10 + digit_value(s[3])
}

/// The month written in `YYYY-MM-DD` text.
pub open spec fn ymd_month(s: Seq<char>) -> int {
    digit_value(s[5]) * 10 + digit_value(s[6])
}

/// The day written in `YYYY-MM-DD` text.
pub open spec fn ymd_day(s: Seq<char>) -> int {
    digit_value(s[8]) * 10 + digit_value(s[9])
}

/// What chrono's date parser makes of a piece of text.
pub uninterp spec fn parsed_date(s: Seq<char>) -> Option<Date>;

/// Relies on chrono's `FromStr` for `NaiveDate` (format `%Y-%m-%d`): a
/// parsed date is a valid calendar date, and text written exactly `YYYY-MM-DD`
/// gives that date when it exists and an error when it does not.
#[verifier::external_body]
fn parse_date(s: &str) -> (r: Option<Date>)
    ensures
        r == parsed_date(s@),
        r matches Some(d) ==> d.wf(),
        is_ymd_text(s@) ==> r == (if is_valid_date(ymd_year(s@), ymd_month(s@), ymd_day(s@)) {
            Some(Date { year: ymd_year(s@) as i32, month: ymd_month(s@) as u32, day: ymd_day(s@) as u32 })
        } else {
            None
        }),
{
    match s.parse::<chrono::NaiveDate>() {
        Ok(d) => Some(Date { year: d.year(), month: d.month(), day: d.day() }),
        Err(_) => None,
    }
}

/// What went wrong while loading a content file.
#[derive(Debug, Clone, Copy, PartialEq, Eq, Structural)]
pub enum DocumentErrorKind {
    /// The path has no file name.
    MissingFileName,
    /// The file name is not valid UTF-8.
    BadFileName,
    /// A post's file name has no `_` after its date.
    MissingId,
    /// A post's file name does not start with a valid `YYYY-MM-DD` date.
    BadDate,
    /// The content has no blank line between the title and the body.
    MissingMarkdown,
    /// Another file of the same collection has the same identifier.
    DuplicateId,
}

/// A loading error and the path of the offending file.
#[derive(Debug, Clone)]
pub struct DocumentError {
    pub kind: DocumentErrorKind,
    pub path: String,
}

/// A content file as read from disk.
#[derive(Debug, Clone)]
pub struct SourceFile {
    /// The path, as shown in error messages.
    pub path: String,
    /// The file name, the last component of the path.
    pub name: String,
    pub content: String,
}

/// A post before conversion.
#[derive(Debug, Clone)]
pub struct RawPost {
    pub id: String,
    pub title: String,
    pub date: Date,
    pub markdown: String,
}

/// A draft before conversion: drafts carry no date.
#[derive(Debug, Clone)]
pub struct RawDraft {
    pub id: String,
    pub title: String,
    pub markdown: String,
}

/// The first position at or after `i` where `c` stands in `s`, or -1.
pub open spec fn index_of_from(s: Seq<char>, c: char, i: int) -> int
    decreases s.len() - i,
{
    if i < 0 || i >= s.len() {
        -1
    } else if s[i] == c {
        i
    } else {
        index_of_from(s, c, i + 1)
    }
}

/// The last position before `n` where `c` stands in `s`, or -1.
pub open spec fn last_index_of_before(s: Seq<char>, c: char, n: int) -> int
    decreases n,
{
    if n <= 0 {
        -1
    } else if s[n - 1] == c {
        n - 1
    } else {
        last_index_of_before(s, c, n - 1)
    }
}

/// A file name without its extension: everything before the last `.`,
/// unless that `.` is the first character.
pub open spec fn file_stem(name: Seq<char>) -> Seq<char> {
    let dot = last_index_of_before(name, '.', name.len() as int);
    if dot > 0 {
        name.take(dot)
    } else {
        name
    }
}

/// The date text and the identifier of a post's file name: the first two
/// `_`-separated segments of its stem, or `None` when it has no `_` or the
/// identifier segment is empty.
pub open spec fn post_name_parts(name: Seq<char>) -> Option<(Seq<char>, Seq<char>)> {
    let stem = file_stem(name);
    let u = index_of_from(stem, '_', 0);
    if u < 0 {
        None
    } else {
        let rest = stem.skip(u + 1);
        let v = index_of_from(rest, '_', 0);
        let id = if v < 0 { rest } else { rest.take(v) };
        if id.len() == 0 {
            None
        } else {
            Some((stem.take(u), id))
        }
    }
}

/// Whether a blank line (two newlines) starts at position `i` of `s`.
pub open spec fn blank_line_at(s: Seq<char>, i: int) -> bool {
    0 <= i && i + 2 <= s.len() && s[i] == '\n' && s[i + 1] == '\n'
}

/// The first position at or after `i` where a blank line starts, or -1.
pub open spec fn blank_line_from(s: Seq<char>, i: int) -> int
    decreases s.len() - i,
{
    if i < 0 || i + 2 > s.len() {
        -1
    } else if blank_line_at(s, i) {
        i
    } else {
        blank_line_from(s, i + 1)
    }
}

proof fn lemma_index_of_from_bounds(s: Seq<char>, c: char, i: int)
    requires
        0 <= i,
    ensures
        index_of_from(s, c, i) == -1 || (i <= index_of_from(s, c, i) < s.len() && s[index_of_from(s, c, i)] == c),
    decreases s.len() - i,
{
    if i < s.len() && s[i] != c {
        lemma_index_of_from_bounds(s, c, i + 1);
    }
}

proof fn lemma_last_index_of_before_bounds(s: Seq<char>, c: char, n: int)
    requires
        n <= s.len(),
    ensures
        last_index_of_before(s, c, n) == -1 || (0 <= last_index_of_before(s, c, n) < n),
    decreases n,
{
    if n > 0 && s[n - 1] != c {
        lemma_last_index_of_before_bounds(s, c, n - 1);
    }
}

proof fn lemma_blank_line_from_bounds(s: Seq<char>, i: int)
    requires
        0 <= i,
    ensures
        blank_line_from(s, i) == -1 || (i <= blank_line_from(s, i) && blank_line_at(s, blank_line_from(s, i))),
    decreases s.len() - i,
{
    if i + 2 <= s.len() && !blank_line_at(s, i) {
        lemma_blank_line_from_bounds(s, i + 1);
    }
}

/// The first position at or after `from` where `c` stands in `cs[..to]`.
fn find_char(cs: &Vec<char>, c: char, from: usize, to: usize) -> (r: Option<usize>)
    requires
        from <= to <= cs@.len(),
    ensures
        match r {
            Some(i) => i as int == index_of_from(cs@.take(to as int), c, from as int),
            None => index_of_from(cs@.take(to as int), c, from as int) == -1,
        },
{
    let ghost s = cs@.take(to as int);
    let mut i: usize = from;
    while i < to
        invariant
            from <= i <= to <= cs@.len(),
            s == cs@.take(to as int),
            index_of_from(s, c, from as int) == index_of_from(s, c, i as int),
        decreases to - i,
    {
        if cs[i] == c {
            return Some(i);
        }
        i += 1;
    }
    None
}

/// The length of the stem of the file name `cs`.
fn stem_len(cs: &Vec<char>) -> (r: usize)
    ensures
        r <= cs@.len(),
        cs@.take(r as int) == file_stem(cs@),
{
    let mut n: usize = cs.len();
    while n > 0
        invariant
            n <= cs@.len(),
            last_index_of_before(cs@, '.', cs@.len() as int) == last_index_of_before(cs@, '.', n as int),
        decreases n,
    {
        if cs[n - 1] == '.' {
            let dot = n - 1;
            if dot > 0 {
                return dot;
            } else {
                proof {
                    assert(cs@.take(cs@.len() as int) =~= cs@);
                }
                return cs.len();
            }
        }
        n -= 1;
    }
    proof {
        assert(cs@.take(cs@.len() as int) =~= cs@);
    }
    cs.len()
}

fn document_error(kind: DocumentErrorKind, path: &str) -> (e: DocumentError)
    ensures
        e.kind == kind,
        e.path@ == path@,
{
    DocumentError { kind, path: String::from_str(path) }
}

/// The identifier of a post and its date, from the post's file name. A
/// missing `_` or an empty identifier gives `MissingId`, a date that does
/// not parse `BadDate`; both carry `path`.
pub fn id_and_date(path: &str, file_name: &str) -> (r: Result<(String, Date), DocumentError>)
    ensures
        match post_name_parts(file_name@) {
            None => r is Err && r->Err_0.kind == DocumentErrorKind::MissingId,
            Some((date_text, id)) => match parsed_date(date_text) {
                None => r is Err && r->Err_0.kind == DocumentErrorKind::BadDate,
                Some(date) => r is Ok && r->Ok_0.0@ == id && r->Ok_0.1 == date,
            },
        },
        r is Err ==> r->Err_0.path@ == path@,
        r is Ok ==> r->Ok_0.1.wf(),
        post_name_parts(file_name@) matches Some((date_text, _)) ==> (is_ymd_text(date_text)
            && is_valid_date(ymd_year(date_text), ymd_month(date_text), ymd_day(date_text)) ==> (r is Ok
            && r->Ok_0.1.year == ymd_year(date_text) && r->Ok_0.1.month == ymd_month(date_text)
            && r->Ok_0.1.day == ymd_day(date_text))),
        post_name_parts(file_name@) matches Some((date_text, _)) ==> (is_ymd_text(date_text)
            && !is_valid_date(ymd_year(date_text), ymd_month(date_text), ymd_day(date_text)) ==> (r is Err
            && r->Err_0.kind == DocumentErrorKind::BadDate)),
{
    let cs = chars_of(file_name);
    let stem = stem_len(&cs);
    let ghost st = cs@.take(stem as int);
    let u = match find_char(&cs, '_', 0, stem) {
        Some(u) => u,
        None => return Err(document_error(DocumentErrorKind::MissingId, path)),
    };
    proof {
        lemma_index_of_from_bounds(st, '_', 0);
    }
    let end = match find_char(&cs, '_', u + 1, stem) {
        Some(v) => v,
        None => stem,
    };
    proof {
        let rest = st.skip(u + 1);
        lemma_index_of_from_bounds(st, '_', u + 1);
        lemma_index_of_from_bounds(rest, '_', 0);
        lemma_skip_index_of(st, '_', u + 1, 0);
        if index_of_from(rest, '_', 0) >= 0 {
            assert(rest.take(index_of_from(rest, '_', 0)) =~= cs@.subrange(u + 1, end as int));
        } else {
            assert(rest =~= cs@.subrange(u + 1, end as int));
        }
        assert(st.take(u as int) =~= cs@.subrange(0, u as int));
    }
    if end == u + 1 {
        return Err(document_error(DocumentErrorKind::MissingId, path));
    }
    let id = string_of(&cs, u + 1, end);
    let date_text = string_of(&cs, 0, u);
    match parse_date(date_text.as_str()) {
        Some(date) => Ok((id, date)),
        None => Err(document_error(DocumentErrorKind::BadDate, path)),
    }
}

proof fn lemma_skip_index_of(s: Seq<char>, c: char, k: int, i: int)
    requires
        0 <= k <= s.len(),
        0 <= i,
    ensures
        index_of_from(s.skip(k), c, i) == if index_of_from(s, c, k + i) < 0 {
            -1
        } else {
            index_of_from(s, c, k + i) - k
        },
    decreases s.len() - k - i,
{
    if i < s.len() - k && s.skip(k)[i] != c {
        lemma_skip_index_of(s, c, k, i + 1);
    }
}

/// The title and the markdown body of a content file: the text before the
/// first blank line, and everything after it. Without a blank line the
/// result is `MissingMarkdown`, carrying `path`.
pub fn title_and_markdown(path: &str, content: &str) -> (r: Result<(String, String), DocumentError>)
    ensures
        blank_line_from(content@, 0) < 0 ==> r is Err && r->Err_0.kind == DocumentErrorKind::MissingMarkdown
            && r->Err_0.path@ == path@,
        blank_line_from(content@, 0) >= 0 ==> r is Ok && r->Ok_0.0@ == content@.take(blank_line_from(content@, 0))
            && r->Ok_0.1@ == content@.skip(blank_line_from(content@, 0) + 2),
{
    let cs = chars_of(content);
    let mut i: usize = 0;
    while i < cs.len() && cs.len() - i >= 2
        invariant
            i <= cs@.len(),
            cs@ == content@,
            blank_line_from(cs@, 0) == blank_line_from(cs@, i as int),
        decreases cs@.len() - i,
    {
        if cs[i] == '\n' && cs[i + 1] == '\n' {
            proof {
                assert(blank_line_at(cs@, i as int));
                assert(blank_line_from(cs@, i as int) == i);
                assert(cs@.take(i as int) =~= cs@.subrange(0, i as int));
                assert(cs@.skip(i + 2) =~= cs@.subrange(i + 2, cs@.len() as int));
            }
            let title = string_of(&cs, 0, i);
            let markdown = string_of(&cs, i + 2, cs.len());
            return Ok((title, markdown));
        }
        i += 1;
    }
    Err(document_error(DocumentErrorKind::MissingMarkdown, path))
}

impl RawPost {
    /// Loads a post: its identifier and date from the file name, its title
    /// and markdown from the content.
    pub fn new(source: &SourceFile) -> (r: Result<RawPost, DocumentError>)
        ensures
            r is Ok <==> post_loads(source),
            r is Err ==> r->Err_0.path@ == source.path@,
            r is Err ==> post_load_error(source) == Some(r->Err_0.kind),
            r is Ok ==> post_loaded_from(source, r->Ok_0),
            post_name_parts(source.name@) matches Some((date_text, _)) ==> (is_ymd_text(date_text)
                && is_valid_date(ymd_year(date_text), ymd_month(date_text), ymd_day(date_text))
                && blank_line_from(source.content@, 0) >= 0 ==> (r is Ok
                && r->Ok_0.date.year == ymd_year(date_text) && r->Ok_0.date.month == ymd_month(date_text)
                && r->Ok_0.date.day == ymd_day(date_text))),
            post_name_parts(source.name@) matches Some((date_text, _)) ==> (is_ymd_text(date_text)
                && !is_valid_date(ymd_year(date_text), ymd_month(date_text), ymd_day(date_text)) ==> (r is Err
                && r->Err_0.kind == DocumentErrorKind::BadDate)),
    {
        let (id, date) = id_and_date(source.path.as_str(), source.name.as_str())?;
        let (title, markdown) = title_and_markdown(source.path.as_str(), source.content.as_str())?;
        Ok(RawPost { id, title, date, markdown })
    }
}

/// What loading the file `source` as a post fails with, if anything: the
/// name is checked first, then its date, then the content.
pub open spec fn post_load_error(source: &SourceFile) -> Option<DocumentErrorKind> {
    match post_name_parts(source.name@) {
        None => Some(DocumentErrorKind::MissingId),
        Some((date_text, _)) => if parsed_date(date_text) is None {
            Some(DocumentErrorKind::BadDate)
        } else if blank_line_from(source.content@, 0) < 0 {
            Some(DocumentErrorKind::MissingMarkdown)
        } else {
            None
        },
    }
}

/// Whether the file `source` loads as a post: its name has a date that
/// parses and an identifier, its content a blank line.
pub open spec fn post_loads(source: &SourceFile) -> bool {
    &&& post_name_parts(source.name@) matches Some((date_text, _)) && parsed_date(date_text) is Some
    &&& blank_line_from(source.content@, 0) >= 0
}

/// The title of a content file: the text before its first blank line.
pub open spec fn title_of(content: Seq<char>) -> Seq<char> {
    content.take(blank_line_from(content, 0))
}

/// The markdown body of a content file: the text after its first blank line.
pub open spec fn body_of(content: Seq<char>) -> Seq<char> {
    content.skip(blank_line_from(content, 0) + 2)
}

/// Whether `post` holds what the file `source` says: the identifier and
/// date of its name, the title and body of its content.
pub open spec fn post_loaded_from(source: &SourceFile, post: RawPost) -> bool {
    &&& post_name_parts(source.name@) matches Some((date_text, id)) && post.id@ == id
        && parsed_date(date_text) == Some(post.date)
    &&& post.date.wf()
    &&& post.title@ == title_of(source.content@)
    &&& post.markdown@ == body_of(source.content@)
}

/// Whether `draft` holds what the file `source` says: the stem of its name
/// as identifier, the title and body of its content.
pub open spec fn draft_loaded_from(source: &SourceFile, draft: RawDraft) -> bool {
    &&& draft.id@ == file_stem(source.name@)
    &&& draft.title@ == title_of(source.content@)
    &&& draft.markdown@ == body_of(source.content@)
}

impl RawDraft {
    /// Loads a draft: the stem of the file name is its identifier, no date
    /// is read.
    pub fn new(source: &SourceFile) -> (r: Result<RawDraft, DocumentError>)
        ensures
            r is Ok <==> blank_line_from(source.content@, 0) >= 0,
            r is Err ==> r->Err_0.path@ == source.path@ && r->Err_0.kind == DocumentErrorKind::MissingMarkdown,
            r is Ok ==> draft_loaded_from(source, r->Ok_0),
    {
        let cs = chars_of(source.name.as_str());
        let stem = stem_len(&cs);
        let id = string_of(&cs, 0, stem);
        let (title, markdown) = title_and_markdown(source.path.as_str(), source.content.as_str())?;
        Ok(RawDraft { id, title, markdown })
    }
}

pub(crate) proof fn lemma_index_of_from_at(s: Seq<char>, c: char, i: int, k: int)
    requires
        0 <= i <= k <= s.len(),
        k < s.len() ==> s[k] == c,
        forall|j: int| i <= j < k ==> s[j] != c,
    ensures
        index_of_from(s, c, i) == if k < s.len() { k } else { -1 },
    decreases k - i,
{
    if i < k {
        lemma_index_of_from_at(s, c, i + 1, k);
    }
}

proof fn lemma_last_index_of_at(s: Seq<char>, c: char, n: int, k: int)
    requires
        0 <= k < n <= s.len(),
        s[k] == c,
        forall|j: int| k < j < n ==> s[j] != c,
    ensures
        last_index_of_before(s, c, n) == k,
    decreases n - k,
{
    if n - 1 > k {
        lemma_last_index_of_at(s, c, n - 1, k);
    }
}

/// A post file named `<date>_<id>.<ext>`, whose date text holds no `_`,
/// whose identifier is not empty and holds no `_` and whose extension holds
/// no `.`, splits into exactly that date text and that identifier.
pub proof fn lemma_post_name_parts(date_text: Seq<char>, id: Seq<char>, ext: Seq<char>)
    requires
        forall|k: int| 0 <= k < date_text.len() ==> date_text[k] != '_',
        id.len() > 0,
        forall|k: int| 0 <= k < id.len() ==> id[k] != '_',
        forall|k: int| 0 <= k < ext.len() ==> ext[k] != '.',
    ensures
        post_name_parts(date_text + seq!['_'] + id + seq!['.'] + ext) == Some((date_text, id)),
{
    let name = date_text + seq!['_'] + id + seq!['.'] + ext;
    let dot = date_text.len() + 1 + id.len();
    lemma_last_index_of_at(name, '.', name.len() as int, dot as int);
    let stem = name.take(dot as int);
    assert(stem =~= date_text + seq!['_'] + id);
    lemma_index_of_from_at(stem, '_', 0, date_text.len() as int);
    let rest = stem.skip(date_text.len() + 1 as int);
    assert(rest =~= id);
    lemma_index_of_from_at(rest, '_', 0, rest.len() as int);
    assert(stem.take(date_text.len() as int) =~= date_text);
}

/// Text written `YYYY-MM-DD` holds no `_`.
pub proof fn lemma_ymd_text_has_no_underscore(s: Seq<char>)
    requires
        is_ymd_text(s),
    ensures
        forall|k: int| 0 <= k < s.len() ==> s[k] != '_',
{
    assert forall|k: int| 0 <= k < s.len() implies s[k] != '_' by {
        if k != 4 && k != 7 {
            assert(is_digit(s[k]));
        }
    }
}

} // verus!
