//! Plain-text summaries of rendered posts: the first paragraph with its
//! markup removed.
use vstd::prelude::*;

use crate::text::{chars_of, string_of};

verus! {

/// Why no summary could be taken from a rendered document.
#[derive(Debug, Clone, Copy, PartialEq, Eq, Structural)]
pub enum SummaryError {
    /// The HTML holds no closing paragraph tag.
    MissingSummary,
}

/// The error for HTML that has no complete paragraph.
pub fn missing_summary() -> (e: SummaryError)
    ensures
        e == SummaryError::MissingSummary,
{
    SummaryError::MissingSummary
}

/// The markup-free text of the first `n` characters of `s`, and whether the
/// scan ends inside a tag: `<` opens a tag, `>` closes one, and other
/// characters are kept only outside tags.
pub open spec fn strip_run(s: Seq<char>, n: int) -> (Seq<char>, bool)
    decreases n,
{
    if n <= 0 {
        (Seq::<char>::empty(), false)
    } else {
        let (out, in_tag) = strip_run(s, n - 1);
        let c = s[n - 1];
        if c == '<' {
            (out, true)
        } else if c == '>' {
            (out, false)
        } else if !in_tag {
            (out.push(c), false)
        } else {
            (out, true)
        }
    }
}

/// `s` with every tag removed.
pub open spec fn strip_tags(s: Seq<char>) -> Seq<char> {
    strip_run(s, s.len() as int).0
}

/// Whether `</p>` starts at position `i` of `s`.
pub open spec fn close_p_at(s: Seq<char>, i: int) -> bool {
    &&& 0 <= i
    &&& i + 4 <= s.len()
    &&& s[i] == '<'
    &&& s[i + 1] == '/'
    &&& s[i + 2] == 'p'
    &&& s[i + 3] == '>'
}

/// The first position at or after `i` where `</p>` starts, or -1.
pub open spec fn close_p_from(s: Seq<char>, i: int) -> int
    decreases s.len() - i,
{
    if i < 0 || i + 4 > s.len() {
        -1
    } else if close_p_at(s, i) {
        i
    } else {
        close_p_from(s, i + 1)
    }
}

/// `s` with each newline replaced by a space.
pub open spec fn newlines_to_spaces(s: Seq<char>) -> Seq<char> {
    Seq::new(s.len(), |k: int| if s[k] == '\n' { ' ' } else { s[k] })
}

/// The summary of a rendered document: the text before its first `</p>`,
/// without tags, newlines turned to spaces.
pub open spec fn summary_text(html: Seq<char>) -> Seq<char> {
    newlines_to_spaces(strip_tags(html.take(close_p_from(html, 0))))
}

proof fn lemma_strip_run_prefix(s: Seq<char>, n: int, m: int)
    requires
        0 <= n <= m <= s.len(),
    ensures
        strip_run(s, n) == strip_run(s.take(m), n),
    decreases n,
{
    if n > 0 {
        lemma_strip_run_prefix(s, n - 1, m);
    }
}

proof fn lemma_close_p_from_bounds(s: Seq<char>, i: int)
    requires
        0 <= i,
    ensures
        close_p_from(s, i) == -1 || (i <= close_p_from(s, i) && close_p_at(s, close_p_from(s, i))),
    decreases s.len() - i,
{
    if i + 4 <= s.len() && !close_p_at(s, i) {
        lemma_close_p_from_bounds(s, i + 1);
    }
}

/// The tag-free text of `cs[0..n]`.
fn strip_chars(cs: &Vec<char>, n: usize) -> (r: Vec<char>)
    requires
        n <= cs@.len(),
    ensures
        r@ == strip_run(cs@, n as int).0,
{
    let mut r: Vec<char> = Vec::new();
    let mut in_tag = false;
    let mut i: usize = 0;
    while i < n
        invariant
            i <= n <= cs@.len(),
            (r@, in_tag) == strip_run(cs@, i as int),
        decreases n - i,
    {
        let c = cs[i];
        if c == '<' {
            in_tag = true;
        } else if c == '>' {
            in_tag = false;
        } else if !in_tag {
            r.push(c);
        }
        i += 1;
    }
    r
}

/// Removes every tag from `html`: a single scan that copies characters only
/// while outside a tag, where `<` enters a tag and `>` leaves it.
pub fn strip_html(html: &str) -> (r: String)
    ensures
        r@ == strip_tags(html@),
{
    let cs = chars_of(html);
    let stripped = strip_chars(&cs, cs.len());
    string_of(&stripped, 0, stripped.len())
}

/// The position of the first `</p>` in `cs`, if any.
fn find_close_p(cs: &Vec<char>) -> (r: Option<usize>)
    ensures
        match r {
            Some(i) => i as int == close_p_from(cs@, 0),
            None => close_p_from(cs@, 0) == -1,
        },
{
    let mut i: usize = 0;
    while i < cs.len() && cs.len() - i >= 4
        invariant
            i <= cs@.len(),
            close_p_from(cs@, 0) == close_p_from(cs@, i as int),
        decreases cs@.len() - i,
    {
        if cs[i] == '<' && cs[i + 1] == '/' && cs[i + 2] == 'p' && cs[i + 3] == '>' {
            return Some(i);
        }
        i += 1;
    }
    None
}

/// The plain-text summary of a rendered document: its first paragraph with
/// tags stripped and newlines turned to spaces. Fails when the document has
/// no closing paragraph tag.
pub fn extract_summary(summary_html: &str) -> (r: Result<String, SummaryError>)
    ensures
        r is Ok <==> close_p_from(summary_html@, 0) >= 0,
        r is Ok ==> r->Ok_0@ == summary_text(summary_html@),
        r is Err ==> r->Err_0 == SummaryError::MissingSummary,
{
    let cs = chars_of(summary_html);
    let end = match find_close_p(&cs) {
        Some(end) => end,
        None => return Err(missing_summary()),
    };
    proof {
        lemma_close_p_from_bounds(cs@, 0);
        lemma_strip_run_prefix(cs@, end as int, end as int);
    }
    let stripped = strip_chars(&cs, end);
    let mut r = String::new();
    let mut i: usize = 0;
    while i < stripped.len()
        invariant
            i <= stripped@.len(),
            r@ == newlines_to_spaces(stripped@).take(i as int),
        decreases stripped@.len() - i,
    {
        let c = stripped[i];
        if c == '\n' {
            r.push(' ');
        } else {
            r.push(c);
        }
        proof {
            assert(newlines_to_spaces(stripped@).take(i + 1) =~= newlines_to_spaces(stripped@).take(i as int).push(newlines_to_spaces(stripped@)[i as int]));
        }
        i += 1;
    }
    proof {
        assert(newlines_to_spaces(stripped@).take(stripped@.len() as int) =~= newlines_to_spaces(stripped@));
        assert(cs@.take(end as int).len() == end);
    }
    Ok(r)
}

} // verus!
