//! The content sanitizer: a pure function from a post's raw HTML to its
//! reply target and normalized Markdown.
//!
//! Mention markup is matched by scanning for the marker elements the forum
//! emits: a match starts at a fixed opening literal, then reaches a middle
//! literal and a closing literal, crossing no newline (a marker element
//! sits on one line). Deleted-mention elements are removed first, content
//! and all; the first remaining mention with a numeric `data-id` names the
//! reply target; the remaining mention anchors are removed; what is left
//! is converted to Markdown, falling back to marker-prefixed raw HTML when
//! conversion fails, and trimmed.

use vstd::prelude::*;
use crate::strutil::{
    chars_of_str, digits_val, is_digit_char, spec_parse_u64_or_zero, spec_trim, string_of_chars,
    trim_chars,
};

verus! {

/// The literal `pat` occurs in `s` at position `i`.
pub open spec fn lit_at(s: Seq<char>, pat: Seq<char>, i: int) -> bool {
    0 <= i && i + pat.len() <= s.len() && s.subrange(i, i + pat.len()) == pat
}

/// The least `q >= p` where `pat` occurs, reached without crossing a
/// newline; `None` when a newline or the end of `s` comes first.
pub open spec fn spec_find_lit(s: Seq<char>, pat: Seq<char>, p: int) -> Option<int>
    decreases s.len() - p,
{
    if p < 0 || p > s.len() {
        None
    } else if lit_at(s, pat, p) {
        Some(p)
    } else if p < s.len() && s[p] != '\n' {
        spec_find_lit(s, pat, p + 1)
    } else {
        None
    }
}

/// Scanning from `p` without crossing a newline: the end position just
/// past the closing literal, for the first occurrence of `mid` from which
/// `end` is reachable, also without crossing a newline.
pub open spec fn spec_seek_end(s: Seq<char>, mid: Seq<char>, end: Seq<char>, p: int) -> Option<int>
    decreases s.len() - p,
{
    if p < 0 || p > s.len() {
        None
    } else if lit_at(s, mid, p) && spec_find_lit(s, end, p + mid.len()) is Some {
        Some(spec_find_lit(s, end, p + mid.len())->Some_0 + end.len())
    } else if p < s.len() && s[p] != '\n' {
        spec_seek_end(s, mid, end, p + 1)
    } else {
        None
    }
}

/// The end of the marker element starting at `i`, if one starts there:
/// the opening literal at `i`, then `mid` and `end` on the same line.
pub open spec fn spec_pat_end(
    s: Seq<char>,
    start: Seq<char>,
    mid: Seq<char>,
    end: Seq<char>,
    i: int,
) -> Option<int> {
    if lit_at(s, start, i) {
        spec_seek_end(s, mid, end, i + start.len())
    } else {
        None
    }
}

proof fn lemma_find_lit_props(s: Seq<char>, pat: Seq<char>, p: int)
    ensures
        spec_find_lit(s, pat, p) is Some ==> {
            let q = spec_find_lit(s, pat, p)->Some_0;
            p <= q && q + pat.len() <= s.len() && lit_at(s, pat, q)
        },
    decreases s.len() - p,
{
    if p < 0 || p > s.len() {
    } else if lit_at(s, pat, p) {
    } else if p < s.len() && s[p] != '\n' {
        lemma_find_lit_props(s, pat, p + 1);
    }
}

proof fn lemma_seek_end_props(s: Seq<char>, mid: Seq<char>, end: Seq<char>, p: int)
    ensures
        spec_seek_end(s, mid, end, p) is Some ==> {
            let e = spec_seek_end(s, mid, end, p)->Some_0;
            p + mid.len() + end.len() <= e && e <= s.len()
        },
    decreases s.len() - p,
{
    if p < 0 || p > s.len() {
    } else if lit_at(s, mid, p) && spec_find_lit(s, end, p + mid.len()) is Some {
        lemma_find_lit_props(s, end, p + mid.len());
    } else if p < s.len() && s[p] != '\n' {
        lemma_seek_end_props(s, mid, end, p + 1);
    }
}

proof fn lemma_pat_end_props(s: Seq<char>, start: Seq<char>, mid: Seq<char>, end: Seq<char>, i: int)
    ensures
        spec_pat_end(s, start, mid, end, i) is Some ==> {
            let e = spec_pat_end(s, start, mid, end, i)->Some_0;
            i + start.len() + mid.len() + end.len() <= e && e <= s.len()
        },
{
    if lit_at(s, start, i) {
        lemma_seek_end_props(s, mid, end, i + start.len());
    }
}

/// `s` from position `i` on, with every marker element removed: a match
/// is skipped whole, everything else is kept.
pub open spec fn spec_strip_from(
    s: Seq<char>,
    start: Seq<char>,
    mid: Seq<char>,
    end: Seq<char>,
    i: int,
) -> Seq<char>
    decreases s.len() - i, 1int,
{
    if i < 0 || i >= s.len() {
        Seq::empty()
    } else {
        match spec_pat_end(s, start, mid, end, i) {
            Some(e) => if i < e <= s.len() {
                spec_strip_from(s, start, mid, end, e)
            } else {
                seq![s[i]] + spec_strip_from(s, start, mid, end, i + 1)
            },
            None => seq![s[i]] + spec_strip_from(s, start, mid, end, i + 1),
        }
    }
}

/// The whole of `s` with every marker element removed.
pub open spec fn spec_strip(s: Seq<char>, start: Seq<char>, mid: Seq<char>, end: Seq<char>) -> Seq<
    char,
> {
    spec_strip_from(s, start, mid, end, 0)
}

/// Whether `pat` occurs at `i`, decided by comparing characters.
fn lit_at_exec(s: &Vec<char>, pat: &Vec<char>, i: usize) -> (r: bool)
    requires
        i <= s@.len(),
    ensures
        r == lit_at(s@, pat@, i as int),
{
    let n = s.len();
    if pat.len() > n - i {
        return false;
    }
    let mut k: usize = 0;
    while k < pat.len()
        invariant
            n == s@.len(),
            i + pat@.len() <= n,
            k <= pat@.len(),
            forall|t: int| 0 <= t < k ==> s@[i + t] == pat@[t],
        decreases pat@.len() - k,
    {
        if s[i + k] != pat[k] {
            assert(s@.subrange(i as int, i + pat@.len())[k as int] != pat@[k as int]);
            return false;
        }
        k = k + 1;
    }
    assert(s@.subrange(i as int, i + pat@.len()) =~= pat@);
    true
}

/// The least position at or after `p` where `pat` occurs on the current
/// line, as `spec_find_lit` gives it.
fn find_lit(s: &Vec<char>, pat: &Vec<char>, p: usize) -> (r: Option<usize>)
    requires
        p <= s@.len(),
    ensures
        match r {
            Some(q) => spec_find_lit(s@, pat@, p as int) == Some(q as int) && q <= s@.len(),
            None => spec_find_lit(s@, pat@, p as int) is None,
        },
{
    let n = s.len();
    let mut q: usize = p;
    loop
        invariant
            n == s@.len(),
            p <= q <= n,
            spec_find_lit(s@, pat@, p as int) == spec_find_lit(s@, pat@, q as int),
        decreases n - q,
    {
        if lit_at_exec(s, pat, q) {
            return Some(q);
        }
        if q == n || s[q] == '\n' {
            return None;
        }
        q = q + 1;
    }
}

/// The end of the first `mid`-then-`end` span on the current line, as
/// `spec_seek_end` gives it.
fn seek_end(s: &Vec<char>, mid: &Vec<char>, end: &Vec<char>, p: usize) -> (r: Option<usize>)
    requires
        p <= s@.len(),
    ensures
        match r {
            Some(e) => spec_seek_end(s@, mid@, end@, p as int) == Some(e as int) && e <= s@.len(),
            None => spec_seek_end(s@, mid@, end@, p as int) is None,
        },
{
    let n = s.len();
    let mut q: usize = p;
    loop
        invariant
            n == s@.len(),
            p <= q <= n,
            spec_seek_end(s@, mid@, end@, p as int) == spec_seek_end(s@, mid@, end@, q as int),
        decreases n - q,
    {
        if lit_at_exec(s, mid, q) {
            match find_lit(s, end, q + mid.len()) {
                Some(k) => {
                    proof {
                        lemma_find_lit_props(s@, end@, q + mid@.len());
                    }
                    return Some(k + end.len());
                },
                None => {},
            }
        }
        if q == n || s[q] == '\n' {
            return None;
        }
        q = q + 1;
    }
}

/// `s` with every marker element of the given shape removed, as
/// `spec_strip` gives it.
fn strip_pattern(s: &Vec<char>, start: &Vec<char>, mid: &Vec<char>, end: &Vec<char>) -> (r: Vec<
    char,
>)
    requires
        start@.len() > 0,
    ensures
        r@ == spec_strip(s@, start@, mid@, end@),
{
    let mut out: Vec<char> = Vec::new();
    let mut i: usize = 0;
    while i < s.len()
        invariant
            i <= s@.len(),
            start@.len() > 0,
            spec_strip(s@, start@, mid@, end@) == out@ + spec_strip_from(
                s@,
                start@,
                mid@,
                end@,
                i as int,
            ),
        decreases s@.len() - i,
    {
        let e_opt = if lit_at_exec(s, start, i) {
            seek_end(s, mid, end, i + start.len())
        } else {
            None
        };
        proof {
            lemma_pat_end_props(s@, start@, mid@, end@, i as int);
        }
        match e_opt {
            Some(e) => {
                assert(spec_pat_end(s@, start@, mid@, end@, i as int) == Some(e as int));
                assert(spec_strip_from(s@, start@, mid@, end@, i as int) == spec_strip_from(
                    s@,
                    start@,
                    mid@,
                    end@,
                    e as int,
                ));
                i = e;
            },
            None => {
                assert(spec_pat_end(s@, start@, mid@, end@, i as int) is None);
                out.push(s[i]);
                assert(out@ + spec_strip_from(s@, start@, mid@, end@, i + 1) =~= out@.drop_last()
                    + spec_strip_from(s@, start@, mid@, end@, i as int));
                i = i + 1;
            },
        }
    }
    assert(spec_strip_from(s@, start@, mid@, end@, i as int) =~= Seq::<char>::empty());
    assert(out@ =~= out@ + Seq::<char>::empty());
    out
}

/// The first position at or after `p` that is past the end of the digit
/// run starting at `p`.
pub open spec fn digit_run_end(s: Seq<char>, p: int) -> int
    decreases s.len() - p,
{
    if 0 <= p < s.len() && is_digit_char(s[p]) {
        digit_run_end(s, p + 1)
    } else {
        p
    }
}

/// The opening literal of a mention that names its reply target.
pub open spec fn reply_marker() -> Seq<char> {
    "class=\"PostMention\" data-id=\""@
}

/// A mention marker with a numeric `data-id` occurs at `i`: the literal,
/// then at least one digit, then the closing quote.
pub open spec fn marker_at(s: Seq<char>, i: int) -> bool {
    let d = i + reply_marker().len();
    let q = digit_run_end(s, d);
    lit_at(s, reply_marker(), i) && d < s.len() && is_digit_char(s[d]) && q < s.len() && s[q] == '"'
}

/// The digits a marker at `i` carries.
pub open spec fn marker_digits(s: Seq<char>, i: int) -> Seq<char> {
    s.subrange(i + reply_marker().len(), digit_run_end(s, i + reply_marker().len()))
}

/// The least position at or after `i` where a complete marker occurs.
pub open spec fn spec_find_marker(s: Seq<char>, i: int) -> Option<int>
    decreases s.len() - i,
{
    if i < 0 || i >= s.len() {
        None
    } else if marker_at(s, i) {
        Some(i)
    } else {
        spec_find_marker(s, i + 1)
    }
}

/// The reply target the content names: the id carried by the first
/// complete mention marker, zero when there is none or the id overflows.
pub open spec fn spec_reply_id(s: Seq<char>) -> u64 {
    match spec_find_marker(s, 0) {
        None => 0,
        Some(i) => spec_parse_u64_or_zero(marker_digits(s, i)),
    }
}

proof fn lemma_digit_run_end_props(s: Seq<char>, p: int)
    requires
        0 <= p <= s.len(),
    ensures
        p <= digit_run_end(s, p) <= s.len(),
        forall|t: int| p <= t < digit_run_end(s, p) ==> is_digit_char(#[trigger] s[t]),
    decreases s.len() - p,
{
    if 0 <= p < s.len() && is_digit_char(s[p]) {
        lemma_digit_run_end_props(s, p + 1);
    }
}

/// The end of the digit run starting at `p`.
fn digit_run_end_exec(s: &Vec<char>, p: usize) -> (r: usize)
    requires
        p <= s@.len(),
    ensures
        r == digit_run_end(s@, p as int),
        p <= r <= s@.len(),
{
    let n = s.len();
    let mut q: usize = p;
    loop
        invariant
            n == s@.len(),
            p <= q <= n,
            digit_run_end(s@, p as int) == digit_run_end(s@, q as int),
        decreases n - q,
    {
        if q == n {
            return q;
        }
        let u = s[q] as u32;
        if !('0' as u32 <= u && u <= '9' as u32) {
            assert(!is_digit_char(s@[q as int]));
            return q;
        }
        assert(is_digit_char(s@[q as int]));
        q = q + 1;
    }
}

/// The reply target named in the content, as `spec_reply_id` gives it.
fn reply_id(s: &Vec<char>) -> (r: u64)
    ensures
        r == spec_reply_id(s@),
{
    let marker: Vec<char> = chars_of_str("class=\"PostMention\" data-id=\"");
    proof {
        assert(marker@ == reply_marker());
    }
    let n = s.len();
    let mut i: usize = 0;
    while i < n
        invariant
            n == s@.len(),
            i <= n,
            marker@ == reply_marker(),
            spec_find_marker(s@, 0) == spec_find_marker(s@, i as int),
        decreases n - i,
    {
        if lit_at_exec(s, &marker, i) {
            let d = i + marker.len();
            proof {
                lemma_digit_run_end_props(s@, d as int);
            }
            let q = digit_run_end_exec(s, d);
            if d < n && {
                let u = s[d] as u32;
                '0' as u32 <= u && u <= '9' as u32
            } && q < n && s[q] == '"' {
                assert(is_digit_char(s@[d as int]));
                assert(marker_at(s@, i as int));
                let mut digits: Vec<char> = Vec::new();
                let mut t: usize = d;
                while t < q
                    invariant
                        d <= t <= q,
                        q <= s@.len(),
                        digits@ == s@.subrange(d as int, t as int),
                    decreases q - t,
                {
                    digits.push(s[t]);
                    assert(digits@ =~= s@.subrange(d as int, t + 1));
                    t = t + 1;
                }
                assert(digits@ == marker_digits(s@, i as int));
                let v = crate::strutil::parse_u64_chars_or_zero(&digits);
                return v;
            }
            assert(!marker_at(s@, i as int));
        } else {
            assert(!marker_at(s@, i as int));
        }
        i = i + 1;
    }
    0
}

/// What htmd's HTML-to-Markdown conversion returns: `None` when it fails,
/// the Markdown otherwise. The result depends on the characters alone.
pub uninterp spec fn markdown_of(html: Seq<char>) -> Option<Seq<char>>;

/// Relies on htmd::convert: HTML to Markdown with the default options, a
/// deterministic function of the input string.
#[verifier::external_body]
fn html_to_markdown(html: &str) -> (r: Option<String>)
    ensures
        match r {
            Some(m) => markdown_of(html@) == Some(m@),
            None => markdown_of(html@) is None,
        },
{
    match htmd::convert(html) {
        Ok(m) => Some(m),
        Err(_) => None,
    }
}

/// The opening literal of a deleted-mention element.
pub open spec fn deleted_open() -> Seq<char> {
    "<span class=\"PostMention PostMention--deleted\""@
}

/// The closing literal of a deleted-mention element.
pub open spec fn span_close() -> Seq<char> {
    "</span>"@
}

/// The opening literal of a mention anchor.
pub open spec fn anchor_open() -> Seq<char> {
    "<a"@
}

/// The class literal a mention anchor carries.
pub open spec fn mention_class() -> Seq<char> {
    "class=\"PostMention\""@
}

/// The closing literal of a mention anchor.
pub open spec fn anchor_close() -> Seq<char> {
    "</a>"@
}

/// The marker prefixed to raw HTML when Markdown conversion fails, so
/// that downstream consumers can detect non-Markdown content.
pub open spec fn html_fallback_marker() -> Seq<char> {
    "<!-- HTML -->"@
}

/// The content with every deleted-mention element removed, markup and
/// text alike.
pub open spec fn spec_deleted_free(s: Seq<char>) -> Seq<char> {
    spec_strip(s, deleted_open(), Seq::empty(), span_close())
}

/// The content with every mention anchor removed, markup and mention text
/// alike.
pub open spec fn spec_mention_free(s: Seq<char>) -> Seq<char> {
    spec_strip(s, anchor_open(), mention_class(), anchor_close())
}

/// What sanitizing yields: the reply target named by the first mention
/// left after deleted mentions are dropped, and the trimmed Markdown of
/// the mention-free content — or, when conversion fails, the trimmed raw
/// content behind the fallback marker, so nothing is lost.
pub open spec fn spec_sanitize(html: Seq<char>) -> (u64, Seq<char>) {
    let cleaned = spec_deleted_free(html);
    let content = match markdown_of(spec_mention_free(cleaned)) {
        Some(m) => m,
        None => html_fallback_marker() + cleaned,
    };
    (spec_reply_id(cleaned), spec_trim(content))
}

/// Sanitize one post's raw HTML: the reply target it names and its
/// normalized Markdown content. Pure besides the conversion call; two
/// calls on the same content agree.
pub fn sanitize(html: &str) -> (r: (u64, String))
    ensures
        (r.0, r.1@) == spec_sanitize(html@),
{
    let chars = chars_of_str(html);
    let del_open = chars_of_str("<span class=\"PostMention PostMention--deleted\"");
    let del_close = chars_of_str("</span>");
    let no_mid: Vec<char> = Vec::new();
    proof {
        reveal_strlit("<span class=\"PostMention PostMention--deleted\"");
        reveal_strlit("<a");
        assert(del_open@.len() > 0);
    }
    let cleaned = strip_pattern(&chars, &del_open, &no_mid, &del_close);
    proof {
        assert(no_mid@ =~= Seq::<char>::empty());
        assert(cleaned@ == spec_deleted_free(html@));
    }
    let reply = reply_id(&cleaned);
    let a_open = chars_of_str("<a");
    let a_class = chars_of_str("class=\"PostMention\"");
    let a_close = chars_of_str("</a>");
    let mention_free = strip_pattern(&cleaned, &a_open, &a_class, &a_close);
    let converted = html_to_markdown(string_of_chars(&mention_free).as_str());
    let content_chars: Vec<char> = match converted {
        Some(m) => chars_of_str(m.as_str()),
        None => {
            let mut f = chars_of_str("<!-- HTML -->");
            let ghost prefix = f@;
            let mut t: usize = 0;
            while t < cleaned.len()
                invariant
                    t <= cleaned@.len(),
                    f@ == prefix + cleaned@.subrange(0, t as int),
                decreases cleaned@.len() - t,
            {
                f.push(cleaned[t]);
                assert(f@ =~= prefix + cleaned@.subrange(0, t + 1));
                t = t + 1;
            }
            assert(f@ =~= prefix + cleaned@);
            f
        },
    };
    let trimmed = trim_chars(&content_chars);
    let out = string_of_chars(&trimmed);
    (reply, out)
}

} // verus!
