//! The footnote pass: footnote definitions become containers, and the
//! first paragraph of each is numbered in order from 1.
use vstd::prelude::*;

use crate::events::{MdEvent, MdEventView, md_views};

verus! {

/// The character of the decimal digit `d`.
pub open spec fn digit_char(d: nat) -> char {
    if d == 0 { '0' } else if d == 1 { '1' } else if d == 2 { '2' } else if d == 3 { '3' }
    else if d == 4 { '4' } else if d == 5 { '5' } else if d == 6 { '6' } else if d == 7 { '7' }
    else if d == 8 { '8' } else { '9' }
}

/// The decimal digits of `n`, most significant first.
pub open spec fn decimal(n: nat) -> Seq<char>
    decreases n,
{
    if n < 10 {
        seq![digit_char(n)]
    } else {
        decimal(n / 10).push(digit_char(n % 10))
    }
}

/// The label put at the start of the `n`th footnote: `[n]: `.
pub open spec fn footnote_number_text(n: nat) -> Seq<char> {
    "["@ + decimal(n) + "]: "@
}

/// The opening of the container of a footnote with the given label.
pub open spec fn footnote_open_html(label: Seq<char>) -> Seq<char> {
    "<div id=\""@ + label + "\" class=\"footnote\">"@
}

pub open spec fn footnote_close_html() -> Seq<char> {
    "</div>\n"@
}

/// One step of the footnote pass, from the state (a number is pending, the
/// counter) and an event to the next state and the events put out.
pub open spec fn footnote_step(pending: bool, counter: nat, e: MdEventView) -> (bool, nat, Seq<MdEventView>) {
    match e {
        MdEventView::FootnoteStart(label) => (true, counter, seq![MdEventView::Html(footnote_open_html(label))]),
        MdEventView::FootnoteEnd => (pending, counter, seq![MdEventView::Html(footnote_close_html())]),
        MdEventView::ParagraphStart(_) => if pending {
            (false, counter + 1, seq![e, MdEventView::Text(footnote_number_text(counter))])
        } else {
            (false, counter, seq![e])
        },
        _ => (pending, counter, seq![e]),
    }
}

/// The state after the first `n` events of `es`, starting with no number
/// pending and the counter at 1, and all that was put out so far.
pub open spec fn footnote_run(es: Seq<MdEventView>, n: int) -> (bool, nat, Seq<MdEventView>)
    decreases n,
{
    if n <= 0 {
        (false, 1, Seq::empty())
    } else {
        let (pending, counter, out) = footnote_run(es, n - 1);
        let (p, c, o) = footnote_step(pending, counter, es[n - 1]);
        (p, c, out + o)
    }
}

/// The result of the footnote pass over a whole event sequence.
pub open spec fn footnote_pass_spec(es: Seq<MdEventView>) -> Seq<MdEventView> {
    footnote_run(es, es.len() as int).2
}

/// The numbers put in front of footnote paragraphs among the first `n`
/// events, in order.
pub open spec fn footnote_numbers(es: Seq<MdEventView>, n: int) -> Seq<nat>
    decreases n,
{
    if n <= 0 {
        Seq::empty()
    } else {
        let (pending, counter, _) = footnote_run(es, n - 1);
        if pending && es[n - 1] is ParagraphStart {
            footnote_numbers(es, n - 1).push(counter)
        } else {
            footnote_numbers(es, n - 1)
        }
    }
}

pub open spec fn is_footnote_marker(e: MdEventView) -> bool {
    e is FootnoteStart || e is FootnoteEnd
}

pub open spec fn has_no_footnote_markers(es: Seq<MdEventView>) -> bool {
    forall|k: int| 0 <= k < es.len() ==> !is_footnote_marker(#[trigger] es[k])
}

/// The instance-scoped state of the footnote pass over one document.
pub struct FootnoteHandler {
    pub footnote_number_on_next_paragraph: bool,
    pub footnote_counter: usize,
}

/// The decimal digits of `n`.
pub fn decimal_string(n: usize) -> (r: String)
    ensures
        r@ == decimal(n as nat),
    decreases n,
{
    let d = n % 10;
    let c = if d == 0 { '0' } else if d == 1 { '1' } else if d == 2 { '2' } else if d == 3 { '3' }
        else if d == 4 { '4' } else if d == 5 { '5' } else if d == 6 { '6' } else if d == 7 { '7' }
        else if d == 8 { '8' } else { '9' };
    let mut r = if n < 10 { String::new() } else { decimal_string(n / 10) };
    r.push(c);
    proof {
        if n < 10 {
            assert(r@ =~= seq![digit_char(n as nat)]);
        }
    }
    r
}

impl FootnoteHandler {
    /// A fresh state: no number pending, numbering starts at 1.
    pub fn new() -> (r: FootnoteHandler)
        ensures
            !r.footnote_number_on_next_paragraph,
            r.footnote_counter == 1,
    {
        FootnoteHandler { footnote_number_on_next_paragraph: false, footnote_counter: 1 }
    }

    /// Handles one event: a footnote definition opens a container and asks
    /// for a number on the next paragraph, its end closes the container, and
    /// a paragraph start takes the pending number.
    pub fn handle_event(&mut self, event: MdEvent) -> (out: Vec<MdEvent>)
        requires
            old(self).footnote_number_on_next_paragraph && event@ is ParagraphStart ==> old(self).footnote_counter < usize::MAX,
        ensures
            (final(self).footnote_number_on_next_paragraph, final(self).footnote_counter as nat, md_views(out@))
                == footnote_step(old(self).footnote_number_on_next_paragraph, old(self).footnote_counter as nat, event@),
    {
        let ghost e = event@;
        let out = match event {
            MdEvent::FootnoteStart(label) => {
                self.footnote_number_on_next_paragraph = true;
                let mut open = String::from_str("<div id=\"");
                open.append(label.as_str());
                open.append("\" class=\"footnote\">");
                vec![MdEvent::Html(open)]
            },
            MdEvent::FootnoteEnd => vec![MdEvent::Html(String::from_str("</div>\n"))],
            MdEvent::ParagraphStart(i) => {
                if self.footnote_number_on_next_paragraph {
                    let mut number = String::from_str("[");
                    let digits = decimal_string(self.footnote_counter);
                    number.append(digits.as_str());
                    number.append("]: ");
                    self.footnote_counter = self.footnote_counter + 1;
                    self.footnote_number_on_next_paragraph = false;
                    vec![MdEvent::ParagraphStart(i), MdEvent::Text(number)]
                } else {
                    vec![MdEvent::ParagraphStart(i)]
                }
            },
            other => vec![other],
        };
        proof {
            assert(md_views(out@) =~= footnote_step(old(self).footnote_number_on_next_paragraph, old(self).footnote_counter as nat, e).2);
        }
        out
    }
}

proof fn lemma_footnote_run_bound(es: Seq<MdEventView>, n: int)
    requires
        0 <= n <= es.len(),
    ensures
        footnote_run(es, n).1 + (if footnote_run(es, n).0 { 1nat } else { 0nat }) <= 1 + n,
        footnote_run(es, n).1 >= 1,
    decreases n,
{
    if n > 0 {
        lemma_footnote_run_bound(es, n - 1);
    }
}

proof fn lemma_footnote_run_no_markers(es: Seq<MdEventView>, n: int)
    requires
        0 <= n <= es.len(),
    ensures
        has_no_footnote_markers(footnote_run(es, n).2),
    decreases n,
{
    if n > 0 {
        lemma_footnote_run_no_markers(es, n - 1);
        let (pending, counter, out) = footnote_run(es, n - 1);
        let o = footnote_step(pending, counter, es[n - 1]);
        assert forall|k: int| 0 <= k < (out + o.2).len() implies !is_footnote_marker(#[trigger] (out + o.2)[k]) by {
            if k >= out.len() {
                assert((out + o.2)[k] == o.2[k - out.len()]);
            }
        }
    }
}

/// The footnote pass leaves no footnote definition marker: each is replaced
/// by the raw HTML of its container.
pub proof fn lemma_footnote_pass_no_markers(es: Seq<MdEventView>)
    ensures
        has_no_footnote_markers(footnote_pass_spec(es)),
{
    lemma_footnote_run_no_markers(es, es.len() as int);
}

/// Footnote numbers are handed out one after another from 1, whatever the
/// labels: the counter is always one more than the numbers given so far,
/// and the `j`th number given is `j + 1`.
pub proof fn lemma_footnote_numbers_sequential(es: Seq<MdEventView>, n: int)
    requires
        0 <= n <= es.len(),
    ensures
        footnote_run(es, n).1 == footnote_numbers(es, n).len() + 1,
        forall|j: int| 0 <= j < footnote_numbers(es, n).len() ==> #[trigger] footnote_numbers(es, n)[j] == j + 1,
    decreases n,
{
    if n > 0 {
        lemma_footnote_numbers_sequential(es, n - 1);
    }
}

/// Whether the `k`th footnote number stands at position `p` of `out`, right
/// after a paragraph start.
pub open spec fn numbered_at(out: Seq<MdEventView>, p: int, k: nat) -> bool {
    &&& 1 <= p < out.len()
    &&& out[p - 1] is ParagraphStart
    &&& out[p] == MdEventView::Text(footnote_number_text(k))
}

/// Whether the `k`th footnote number stands somewhere in `out`, right after
/// a paragraph start.
pub open spec fn number_written(out: Seq<MdEventView>, k: nat) -> bool {
    exists|p: int| numbered_at(out, p, k)
}

/// The numbers are written out: for each number given there is a paragraph
/// start in the output followed by the text `[number]: `; with
/// `lemma_footnote_numbers_sequential`, the `j`th of them reads `[j + 1]: `.
pub proof fn lemma_footnote_numbers_written(es: Seq<MdEventView>, n: int)
    requires
        0 <= n <= es.len(),
    ensures
        forall|j: int| 0 <= j < footnote_numbers(es, n).len()
            ==> number_written(footnote_run(es, n).2, #[trigger] footnote_numbers(es, n)[j]),
    decreases n,
{
    if n > 0 {
        lemma_footnote_numbers_written(es, n - 1);
        lemma_footnote_numbers_sequential(es, n - 1);
        let (pending, counter, out) = footnote_run(es, n - 1);
        let o = footnote_step(pending, counter, es[n - 1]).2;
        let all = out + o;
        assert(all == footnote_run(es, n).2);
        let nums = footnote_numbers(es, n);
        let prev = footnote_numbers(es, n - 1);
        assert forall|j: int| 0 <= j < nums.len() implies number_written(all, #[trigger] nums[j]) by {
            if j < prev.len() {
                assert(nums[j] == prev[j]);
                assert(number_written(out, prev[j]));
                let p = choose|p: int| numbered_at(out, p, prev[j]);
                assert(all[p] == out[p] && all[p - 1] == out[p - 1]);
                assert(numbered_at(all, p, nums[j]));
            } else {
                assert(nums[j] == counter);
                let p = out.len() as int + 1;
                assert(all[p] == o[1] && all[p - 1] == o[0]);
                assert(numbered_at(all, p, nums[j]));
            }
        }
    } else {
        assert(footnote_numbers(es, n).len() == 0);
    }
}

/// Handing a footnote definition's start or end to the pass never changes
/// the counter, whatever the label; an event that is neither a footnote
/// marker nor a paragraph start that takes a number passes through alone.
pub proof fn lemma_footnote_step_passes_through(pending: bool, counter: nat, e: MdEventView)
    ensures
        footnote_step(pending, counter, e).1 == counter || (pending && e is ParagraphStart),
        !is_footnote_marker(e) && !(pending && e is ParagraphStart) ==> footnote_step(pending, counter, e)
            == (if e is ParagraphStart { false } else { pending }, counter, seq![e]),
{
}

/// Whether a footnote definition starts among the first `n` events with no
/// paragraph start after it.
pub open spec fn footnote_opened_since_paragraph(es: Seq<MdEventView>, n: int) -> bool {
    exists|k: int| 0 <= k < n && #[trigger] es[k] is FootnoteStart
        && forall|m: int| k < m < n ==> !(#[trigger] es[m] is ParagraphStart)
}

/// Only a paragraph that opens after a footnote definition started, with no
/// paragraph in between, is numbered: a number is pending after `n` events
/// exactly when such a definition is open, and a paragraph start at `n` gets
/// the next number exactly then.
pub proof fn lemma_numbered_paragraphs(es: Seq<MdEventView>, n: int)
    requires
        0 <= n <= es.len(),
    ensures
        footnote_run(es, n).0 <==> footnote_opened_since_paragraph(es, n),
        n < es.len() && es[n] is ParagraphStart ==> (footnote_numbers(es, n + 1).len() == footnote_numbers(es, n).len() + 1
            <==> footnote_opened_since_paragraph(es, n)),
    decreases n,
{
    if n > 0 {
        lemma_numbered_paragraphs(es, n - 1);
        let e = es[n - 1];
        if e is FootnoteStart {
            assert(footnote_opened_since_paragraph(es, n)) by {
                assert(es[n - 1] is FootnoteStart);
            }
        } else if e is ParagraphStart {
            assert(!footnote_opened_since_paragraph(es, n)) by {
                if footnote_opened_since_paragraph(es, n) {
                    let k = choose|k: int| 0 <= k < n && #[trigger] es[k] is FootnoteStart
                        && forall|m: int| k < m < n ==> !(#[trigger] es[m] is ParagraphStart);
                    assert(k != n - 1);
                    assert(!(es[n - 1] is ParagraphStart));
                }
            }
        } else {
            if footnote_opened_since_paragraph(es, n - 1) {
                let k = choose|k: int| 0 <= k < n - 1 && #[trigger] es[k] is FootnoteStart
                    && forall|m: int| k < m < n - 1 ==> !(#[trigger] es[m] is ParagraphStart);
                assert(forall|m: int| k < m < n ==> !(#[trigger] es[m] is ParagraphStart));
                assert(footnote_opened_since_paragraph(es, n));
            }
            if footnote_opened_since_paragraph(es, n) {
                let k = choose|k: int| 0 <= k < n && #[trigger] es[k] is FootnoteStart
                    && forall|m: int| k < m < n ==> !(#[trigger] es[m] is ParagraphStart);
                assert(k != n - 1);
                assert(forall|m: int| k < m < n - 1 ==> !(#[trigger] es[m] is ParagraphStart));
                assert(footnote_opened_since_paragraph(es, n - 1));
            }
        }
    }
}

/// Without footnote definitions the footnote pass changes nothing.
pub proof fn lemma_footnote_pass_identity(es: Seq<MdEventView>)
    requires
        has_no_footnote_markers(es),
    ensures
        footnote_pass_spec(es) == es,
{
    lemma_footnote_run_identity(es, es.len() as int);
}

proof fn lemma_footnote_run_identity(es: Seq<MdEventView>, n: int)
    requires
        0 <= n <= es.len(),
        has_no_footnote_markers(es),
    ensures
        footnote_run(es, n) == (false, 1nat, es.take(n)),
    decreases n,
{
    if n > 0 {
        lemma_footnote_run_identity(es, n - 1);
        assert(!is_footnote_marker(es[n - 1]));
        assert(es.take(n - 1) + seq![es[n - 1]] =~= es.take(n));
    } else {
        assert(es.take(0) =~= Seq::<MdEventView>::empty());
    }
}

/// Runs the footnote pass over a document's events.
pub fn footnote_pass(events: &Vec<MdEvent>) -> (r: Vec<MdEvent>)
    ensures
        md_views(r@) == footnote_pass_spec(md_views(events@)),
{
    let ghost es = md_views(events@);
    let mut handler = FootnoteHandler::new();
    let mut out: Vec<MdEvent> = Vec::new();
    let mut i: usize = 0;
    while i < events.len()
        invariant
            i <= events@.len(),
            es == md_views(events@),
            (handler.footnote_number_on_next_paragraph, handler.footnote_counter as nat, md_views(out@))
                == footnote_run(es, i as int),
        decreases events@.len() - i,
    {
        proof {
            lemma_footnote_run_bound(es, i as int);
        }
        let mut step = handler.handle_event(events[i].copied());
        let ghost before = out@;
        out.append(&mut step);
        proof {
            assert(md_views(out@) =~= md_views(before) + footnote_run(es, i + 1).2.skip(md_views(before).len() as int));
            assert(footnote_run(es, i + 1).2 =~= md_views(out@));
        }
        i += 1;
    }
    out
}

} // verus!
