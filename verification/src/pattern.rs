//! The search tool's line annotation.
//!
//! Every reported line opens with `<path>.pdf SEP <line> SEP Page <n>:` and an
//! optional single space.  On the matched line itself both separators are the
//! hard `:`; on surrounding context lines the tool uses the soft `-` in the
//! same positions.  The parser classifies lines by the hard form and strips
//! the annotation (in either form) to recover the line's own text.

use crate::text::{digit_char, is_digit};
use vstd::prelude::*;

verus! {

/// Separator between annotation fields: the matched line uses `:` alone,
/// context lines may use `-` instead.
pub open spec fn sep_ok(c: char, hard: bool) -> bool {
    c == ':' || (!hard && c == '-')
}

fn sep_char(c: char, hard: bool) -> (r: bool)
    ensures
        r == sep_ok(c, hard),
{
    c == ':' || (!hard && c == '-')
}

/// First position at or after `i` that does not hold an ASCII digit.
pub open spec fn digit_run_end(s: Seq<char>, i: int) -> int
    decreases s.len() - i,
{
    if 0 <= i < s.len() {
        if is_digit(s[i]) {
            digit_run_end(s, i + 1)
        } else {
            i
        }
    } else {
        s.len() as int
    }
}

pub proof fn lemma_digit_run_end(s: Seq<char>, i: int)
    requires
        0 <= i <= s.len(),
    ensures
        i <= digit_run_end(s, i) <= s.len(),
        digit_run_end(s, i) < s.len() ==> !is_digit(s[digit_run_end(s, i)]),
        forall|j: int| i <= j < digit_run_end(s, i) ==> is_digit(s[j]),
    decreases s.len() - i,
{
    if i < s.len() && is_digit(s[i]) {
        lemma_digit_run_end(s, i + 1);
    }
}

fn digit_run(s: &str, len: usize, i: usize) -> (r: usize)
    requires
        len == s@.len(),
        i <= len,
    ensures
        r == digit_run_end(s@, i as int),
        i <= r <= len,
{
    proof {
        lemma_digit_run_end(s@, i as int);
    }
    let mut j: usize = i;
    while j < len
        invariant
            i <= j <= len,
            len == s@.len(),
            digit_run_end(s@, i as int) == digit_run_end(s@, j as int),
        decreases len - j,
    {
        if !digit_char(s.get_char(j)) {
            return j;
        }
        j += 1;
    }
    j
}

/// `".pdf"` stands immediately before position `q`.
pub open spec fn pdf_before(s: Seq<char>, q: int) -> bool {
    4 <= q <= s.len() && s[q - 4] == '.' && s[q - 3] == 'p' && s[q - 2] == 'd' && s[q - 1] == 'f'
}

/// An annotation `".pdf" SEP digits SEP "Page " digits ":"` whose first
/// separator stands at position `q`.
pub open spec fn ann_at(s: Seq<char>, q: int, hard: bool) -> bool {
    &&& pdf_before(s, q)
    &&& q < s.len()
    &&& sep_ok(s[q], hard)
    &&& {
        let j = digit_run_end(s, q + 1);
        &&& j < s.len()
        &&& sep_ok(s[j], hard)
        &&& j + 6 <= s.len()
        &&& s[j + 1] == 'P'
        &&& s[j + 2] == 'a'
        &&& s[j + 3] == 'g'
        &&& s[j + 4] == 'e'
        &&& s[j + 5] == ' '
        &&& {
            let k = digit_run_end(s, j + 6);
            k < s.len() && s[k] == ':'
        }
    }
}

/// One past the end of the annotation whose first separator stands at `q`,
/// swallowing one optional trailing space.
pub open spec fn ann_end(s: Seq<char>, q: int) -> int {
    let j = digit_run_end(s, q + 1);
    let k = digit_run_end(s, j + 6);
    if k + 1 < s.len() && s[k + 1] == ' ' {
        k + 2
    } else {
        k + 1
    }
}

pub proof fn lemma_ann_end_bounds(s: Seq<char>, q: int)
    requires
        ann_at(s, q, false) || ann_at(s, q, true),
    ensures
        q < ann_end(s, q) <= s.len(),
{
    lemma_digit_run_end(s, q + 1);
    lemma_digit_run_end(s, digit_run_end(s, q + 1) + 6);
}

/// A line that carries the hard-separator annotation: the actual search hit.
pub open spec fn is_match_line(s: Seq<char>) -> bool {
    exists|q: int| ann_at(s, q, true)
}

fn check_ann(s: &str, len: usize, q: usize, hard: bool) -> (r: bool)
    requires
        len == s@.len(),
        q < len,
    ensures
        r == ann_at(s@, q as int, hard),
{
    if q < 4 {
        return false;
    }
    if !(s.get_char(q - 4) == '.' && s.get_char(q - 3) == 'p' && s.get_char(q - 2) == 'd'
        && s.get_char(q - 1) == 'f') {
        return false;
    }
    if !sep_char(s.get_char(q), hard) {
        return false;
    }
    let j = digit_run(s, len, q + 1);
    if !(j < len && sep_char(s.get_char(j), hard)) {
        return false;
    }
    if len < 6 || j > len - 6 {
        return false;
    }
    if !(s.get_char(j + 1) == 'P' && s.get_char(j + 2) == 'a' && s.get_char(j + 3) == 'g'
        && s.get_char(j + 4) == 'e' && s.get_char(j + 5) == ' ') {
        return false;
    }
    let k = digit_run(s, len, j + 6);
    k < len && s.get_char(k) == ':'
}

/// Whether the line carries the hard-separator annotation somewhere.
pub fn is_match_line_exec(s: &str) -> (r: bool)
    ensures
        r == is_match_line(s@),
{
    let len = s.unicode_len();
    let mut q: usize = 0;
    while q < len
        invariant
            q <= len,
            len == s@.len(),
            forall|p: int| 0 <= p < q ==> !ann_at(s@, p, true),
        decreases len - q,
    {
        if check_ann(s, len, q, true) {
            assert(ann_at(s@, q as int, true));
            return true;
        }
        q += 1;
    }
    assert forall|p: int| !ann_at(s@, p, true) by {
        if 0 <= p < len {
        } else {
        }
    }
    false
}

/// The rightmost position `q' <= q` where a soft-form annotation stands, or
/// `-1` when there is none.
pub open spec fn last_ann(s: Seq<char>, q: int) -> int
    decreases q,
{
    if q < 4 {
        -1
    } else if ann_at(s, q, false) {
        q
    } else {
        last_ann(s, q - 1)
    }
}

/// The line with its annotation prefix removed: everything after the
/// rightmost annotation, or the whole line when no annotation matches.
pub open spec fn strip_ann(s: Seq<char>) -> Seq<char> {
    let q = last_ann(s, s.len() - 1);
    if q >= 0 {
        s.subrange(ann_end(s, q), s.len() as int)
    } else {
        s
    }
}

/// Removes the annotation prefix, in hard or soft form, when one is present.
pub fn strip_annotation(s: &str) -> (r: &str)
    ensures
        r@ == strip_ann(s@),
{
    let len = s.unicode_len();
    let mut q: usize = len;
    while q > 0
        invariant
            q <= len,
            len == s@.len(),
            last_ann(s@, s@.len() - 1) == last_ann(s@, q as int - 1),
        decreases q,
    {
        q -= 1;
        if check_ann(s, len, q, false) {
            proof {
                lemma_ann_end_bounds(s@, q as int);
            }
            let j = digit_run(s, len, q + 1);
            let k = digit_run(s, len, j + 6);
            let e = if k + 1 < len && s.get_char(k + 1) == ' ' {
                k + 2
            } else {
                k + 1
            };
            return s.substring_char(e, len);
        }
    }
    s
}

/// A line survives into the context exactly when its stripped text still
/// holds an ASCII letter.
pub open spec fn context_kept(line: Seq<char>) -> bool {
    crate::text::has_ascii_letter(strip_ann(line))
}

} // verus!
