//! Match records and the result parser.
//!
//! The parser turns one block of raw search output — the matched line plus
//! its surrounding context lines — into a [`SearchMatch`], and a whole
//! capture into an ordered sequence of them.  Malformed blocks are reported
//! as [`ParseError`]s carrying the offending block, never masked.

use crate::pattern::{
    context_kept, is_match_line, is_match_line_exec, strip_ann, strip_annotation,
};
use crate::text::{
    all_digits, digits_val, find_char, find_char_from, contains_ascii_letter, has_ascii_letter,
    join_lines, joined, lemma_find_char, parse_usize, split_lines, split_lines_exec, trim, trim_of,
};
use vstd::prelude::*;

verus! {

/// One located occurrence of the search term.
#[derive(Debug, Clone)]
pub struct SearchMatch {
    /// Path of the file holding the match, as the search tool printed it.
    pub path: String,
    /// 1-based page number; meaningful only for paginated documents.
    pub page: usize,
    /// 1-based line number of the matched line.
    pub line: usize,
    /// The matched line's text, annotation stripped and whitespace trimmed.
    pub content: String,
    /// Surrounding lines, annotation stripped, annotation-only lines dropped,
    /// joined with newlines in original order.
    pub context: String,
}

/// Why a block could not be parsed.
#[derive(Debug, Clone, Copy, PartialEq, Eq, Structural)]
pub enum ParseErrorKind {
    /// No line of the block carries the hard-separator annotation.
    MissingMatchLine,
    /// The line-number field is not a positive number that fits.
    BadLineNumber,
    /// The page annotation is not `Page ` followed by a positive number.
    BadPageNumber,
    /// The matched content is empty after trimming.
    EmptyContent,
}

/// A malformed block, surfaced with the block's own text.
#[derive(Debug, Clone)]
pub struct ParseError {
    pub kind: ParseErrorKind,
    /// The offending block, lines joined with newlines.
    pub block: String,
}

impl SearchMatch {
    /// Builds a record from already-parsed parts.
    pub fn new(path: String, page: usize, line: usize, content: String, context: String) -> (r:
        SearchMatch)
        ensures
            r.path@ == path@,
            r.page == page,
            r.line == line,
            r.content@ == content@,
            r.context@ == context@,
    {
        SearchMatch { path, page, line, content, context }
    }

    /// One-line rendering: path, page and matched content.
    pub fn fuzzy_display(&self) -> (r: String)
        ensures
            r@ == self.path@ + " : "@ + crate::text::dec_rep(self.page as int) + " : "@
                + self.content@,
    {
        let mut s = self.path.clone();
        s.append(" : ");
        let pg = crate::text::usize_to_string(self.page);
        s.append(pg.as_str());
        s.append(" : ");
        s.append(self.content.as_str());
        s
    }

    /// Whether the text holds at least one ASCII letter; annotation-only
    /// remains such as lone bullet glyphs do not.
    pub fn string_contains_ascii_letters(s: &str) -> (r: bool)
        ensures
            r == has_ascii_letter(s@),
    {
        contains_ascii_letter(s)
    }
}

impl PartialEq for SearchMatch {
    fn eq(&self, other: &SearchMatch) -> (r: bool) {
        self.path == other.path && self.page == other.page && self.line == other.line
            && self.content == other.content && self.context == other.context
    }
}

impl vstd::std_specs::cmp::PartialEqSpecImpl for SearchMatch {
    open spec fn obeys_eq_spec() -> bool {
        true
    }

    open spec fn eq_spec(&self, other: &SearchMatch) -> bool {
        self.path@ == other.path@ && self.page == other.page && self.line == other.line
            && self.content@ == other.content@ && self.context@ == other.context@
    }
}

/// The views of a vector of lines.
pub open spec fn views_of(ss: Seq<String>) -> Seq<Seq<char>> {
    Seq::new(ss.len(), |i: int| ss[i]@)
}

/// Index of the first matched line at or after `i`, or the block length.
pub open spec fn match_line_idx(b: Seq<Seq<char>>, i: int) -> int
    decreases b.len() - i,
{
    if 0 <= i < b.len() {
        if is_match_line(b[i]) {
            i
        } else {
            match_line_idx(b, i + 1)
        }
    } else {
        b.len() as int
    }
}

pub proof fn lemma_match_line_idx(b: Seq<Seq<char>>, i: int)
    requires
        0 <= i <= b.len(),
    ensures
        i <= match_line_idx(b, i) <= b.len(),
        match_line_idx(b, i) < b.len() ==> is_match_line(b[match_line_idx(b, i)]),
        forall|j: int| i <= j < match_line_idx(b, i) ==> !is_match_line(b[j]),
    decreases b.len() - i,
{
    if i < b.len() && !is_match_line(b[i]) {
        lemma_match_line_idx(b, i + 1);
    }
}

/// Position of the first hard separator of the matched line.
pub open spec fn colon1(m: Seq<char>) -> int {
    find_char(m, ':', 0)
}

/// Position of the second hard separator.
pub open spec fn colon2(m: Seq<char>) -> int {
    find_char(m, ':', colon1(m) + 1)
}

/// Position of the third hard separator.
pub open spec fn colon3(m: Seq<char>) -> int {
    find_char(m, ':', colon2(m) + 1)
}

/// The matched line splits on the hard separator into four fields.
pub open spec fn has_four_fields(m: Seq<char>) -> bool {
    colon3(m) < m.len()
}

/// Field before the first separator: the file path.
pub open spec fn field_path(m: Seq<char>) -> Seq<char> {
    m.subrange(0, colon1(m))
}

/// Field between the first two separators: the line number.
pub open spec fn field_line(m: Seq<char>) -> Seq<char> {
    m.subrange(colon1(m) + 1, colon2(m))
}

/// Field between the second and third separators: the page annotation.
pub open spec fn field_page_ann(m: Seq<char>) -> Seq<char> {
    m.subrange(colon2(m) + 1, colon3(m))
}

/// Everything after the third separator: the raw matched content.
pub open spec fn field_rest(m: Seq<char>) -> Seq<char> {
    m.subrange(colon3(m) + 1, m.len() as int)
}

/// A nonempty digit field holding a positive value that fits in `usize`.
pub open spec fn number_field_ok(f: Seq<char>) -> bool {
    f.len() > 0 && all_digits(f) && 1 <= digits_val(f) <= usize::MAX as int
}

/// The page annotation opens with the fixed prefix `Page `.
pub open spec fn page_ann_prefix_ok(f: Seq<char>) -> bool {
    f.len() >= 5 && f[0] == 'P' && f[1] == 'a' && f[2] == 'g' && f[3] == 'e' && f[4] == ' '
}

/// The digits of the page annotation, after the fixed prefix.
pub open spec fn page_digits(f: Seq<char>) -> Seq<char> {
    f.subrange(5, f.len() as int)
}

/// The page annotation as a whole: fixed prefix, then a positive number.
pub open spec fn page_ann_ok(f: Seq<char>) -> bool {
    page_ann_prefix_ok(f) && number_field_ok(page_digits(f))
}

/// A block parses into a record: it has a matched line whose four fields
/// are all well formed and whose content survives trimming.
pub open spec fn block_well_formed(b: Seq<Seq<char>>) -> bool {
    let mi = match_line_idx(b, 0);
    &&& mi < b.len()
    &&& {
        let m = b[mi];
        &&& has_four_fields(m)
        &&& number_field_ok(field_line(m))
        &&& page_ann_ok(field_page_ann(m))
        &&& trim_of(field_rest(m)).len() > 0
    }
}

/// The reason the block is rejected, following the order in which the
/// parser examines it.
pub open spec fn block_error_kind(b: Seq<Seq<char>>) -> ParseErrorKind {
    let mi = match_line_idx(b, 0);
    if mi >= b.len() {
        ParseErrorKind::MissingMatchLine
    } else {
        let m = b[mi];
        if !number_field_ok(field_line(m)) {
            ParseErrorKind::BadLineNumber
        } else if !page_ann_ok(field_page_ann(m)) {
            ParseErrorKind::BadPageNumber
        } else {
            ParseErrorKind::EmptyContent
        }
    }
}

/// The stripped survivors of the block's lines, in original order.
pub open spec fn context_lines_of(b: Seq<Seq<char>>) -> Seq<Seq<char>>
    decreases b.len(),
{
    if b.len() == 0 {
        Seq::<Seq<char>>::empty()
    } else {
        context_lines_of(b.drop_last()) + (if context_kept(b.last()) {
            seq![strip_ann(b.last())]
        } else {
            Seq::<Seq<char>>::empty()
        })
    }
}

/// How a record relates to the block it was parsed from.
pub open spec fn block_record(b: Seq<Seq<char>>, m: SearchMatch) -> bool {
    let ml = b[match_line_idx(b, 0)];
    &&& m.path@ == field_path(ml)
    &&& m.line as int == digits_val(field_line(ml))
    &&& m.page as int == digits_val(page_digits(field_page_ann(ml)))
    &&& m.content@ == trim_of(field_rest(ml))
    &&& m.context@ == joined(context_lines_of(b))
}

/// Parsing is deterministic: the block alone fixes every field, so any two
/// records that the block-record relation admits for one block agree
/// throughout.  With the parser's contracts this pins the whole record
/// sequence to the raw capture.
pub proof fn lemma_block_record_deterministic(b: Seq<Seq<char>>, m1: SearchMatch, m2: SearchMatch)
    requires
        block_record(b, m1),
        block_record(b, m2),
    ensures
        m1.path@ == m2.path@,
        m1.page == m2.page,
        m1.line == m2.line,
        m1.content@ == m2.content@,
        m1.context@ == m2.context@,
{
}

/// A produced record never has empty content: a well-formed block's matched
/// line keeps some text after trimming, and that text is the content.
pub proof fn lemma_record_content_nonempty(b: Seq<Seq<char>>, m: SearchMatch)
    requires
        block_well_formed(b),
        block_record(b, m),
    ensures
        m.content@.len() > 0,
{
}

/// A line the context filter keeps is found among the context lines.
pub proof fn lemma_context_lines_keep(b: Seq<Seq<char>>, i: int)
    requires
        0 <= i < b.len(),
        context_kept(b[i]),
    ensures
        context_lines_of(b).contains(strip_ann(b[i])),
    decreases b.len(),
{
    let cl = context_lines_of(b.drop_last());
    if i == b.len() - 1 {
        assert(context_lines_of(b)[cl.len() as int] == strip_ann(b[i]));
    } else {
        lemma_context_lines_keep(b.drop_last(), i);
        assert(b.drop_last()[i] == b[i]);
        let j = choose|j: int| 0 <= j < cl.len() && cl[j] == strip_ann(b[i]);
        assert(context_lines_of(b)[j] == strip_ann(b[i]));
    }
}

/// The context always holds the matched line's stripped text, provided that
/// text still holds an ASCII letter; a matched line whose content is, say,
/// digits only is dropped from the context like any other letterless line.
pub proof fn lemma_context_holds_match_line(b: Seq<Seq<char>>)
    requires
        0 <= match_line_idx(b, 0) < b.len(),
        has_ascii_letter(strip_ann(b[match_line_idx(b, 0)])),
    ensures
        context_lines_of(b).contains(strip_ann(b[match_line_idx(b, 0)])),
{
    lemma_context_lines_keep(b, match_line_idx(b, 0));
}

/// Lines whose stripped text has no ASCII letter never reach the context:
/// every context line holds at least one letter.
pub proof fn lemma_context_lines_have_letters(b: Seq<Seq<char>>, j: int)
    requires
        0 <= j < context_lines_of(b).len(),
    ensures
        has_ascii_letter(context_lines_of(b)[j]),
    decreases b.len(),
{
    if b.len() > 0 {
        let cl = context_lines_of(b.drop_last());
        if j < cl.len() {
            lemma_context_lines_have_letters(b.drop_last(), j);
        }
    }
}

/// A matched line always splits into four fields: the hard annotation it
/// carries supplies three separators itself.
pub proof fn lemma_match_line_has_fields(m: Seq<char>)
    requires
        is_match_line(m),
    ensures
        has_four_fields(m),
        colon1(m) < colon2(m) < colon3(m) < m.len(),
{
    let q = choose|q: int| crate::pattern::ann_at(m, q, true);
    crate::pattern::lemma_digit_run_end(m, q + 1);
    let j = crate::pattern::digit_run_end(m, q + 1);
    crate::pattern::lemma_digit_run_end(m, j + 6);
    let k = crate::pattern::digit_run_end(m, j + 6);
    lemma_find_char(m, ':', 0);
    if colon1(m) > q {
        assert(m[q] != ':');
    }
    lemma_find_char(m, ':', colon1(m) + 1);
    if colon2(m) > j {
        assert(m[j] != ':');
    }
    lemma_find_char(m, ':', colon2(m) + 1);
    if colon3(m) > k {
        assert(m[k] != ':');
    }
}

/// Parses the lines of one block.
fn from_lines(ls: &Vec<String>) -> (r: Result<SearchMatch, ParseError>)
    ensures
        ({
            let b = views_of(ls@);
            match r {
                Ok(m) => block_well_formed(b) && block_record(b, m),
                Err(e) => !block_well_formed(b) && e.kind == block_error_kind(b) && e.block@
                    == joined(b),
            }
        }),
{
    let ghost b = views_of(ls@);
    let mut mi: usize = 0;
    loop
        invariant
            mi <= ls@.len(),
            b == views_of(ls@),
            match_line_idx(b, 0) == match_line_idx(b, mi as int),
        ensures
            mi as int == match_line_idx(b, 0),
        decreases ls@.len() - mi,
    {
        if mi == ls.len() {
            break ;
        }
        if is_match_line_exec(ls[mi].as_str()) {
            break ;
        }
        mi += 1;
    }
    if mi == ls.len() {
        return Err(ParseError { kind: ParseErrorKind::MissingMatchLine, block: join_lines(ls) });
    }
    let m: &String = &ls[mi];
    let mstr: &str = m.as_str();
    let mlen = mstr.unicode_len();
    let ghost ml = b[mi as int];
    proof {
        lemma_match_line_idx(b, 0);
        lemma_match_line_has_fields(ml);
        lemma_find_char(ml, ':', 0);
        lemma_find_char(ml, ':', colon1(ml) + 1);
        lemma_find_char(ml, ':', colon2(ml) + 1);
    }
    let c1 = find_char_from(mstr, ':', 0);
    let c2 = find_char_from(mstr, ':', c1 + 1);
    let c3 = find_char_from(mstr, ':', c2 + 1);
    let line_field = mstr.substring_char(c1 + 1, c2);
    let line_no = match parse_usize(line_field) {
        Some(v) if v >= 1 => v,
        _ => {
            return Err(ParseError {
                kind: ParseErrorKind::BadLineNumber,
                block: join_lines(ls),
            });
        },
    };
    let page_ann = mstr.substring_char(c2 + 1, c3);
    let palen = page_ann.unicode_len();
    if palen < 5 || !(page_ann.get_char(0) == 'P' && page_ann.get_char(1) == 'a'
        && page_ann.get_char(2) == 'g' && page_ann.get_char(3) == 'e' && page_ann.get_char(4)
        == ' ') {
        return Err(ParseError { kind: ParseErrorKind::BadPageNumber, block: join_lines(ls) });
    }
    let page_field = page_ann.substring_char(5, palen);
    let page_no = match parse_usize(page_field) {
        Some(v) if v >= 1 => v,
        _ => {
            return Err(ParseError {
                kind: ParseErrorKind::BadPageNumber,
                block: join_lines(ls),
            });
        },
    };
    let rest = mstr.substring_char(c3 + 1, mlen);
    let content = trim(rest);
    if content.unicode_len() == 0 {
        return Err(ParseError { kind: ParseErrorKind::EmptyContent, block: join_lines(ls) });
    }
    let path = mstr.substring_char(0, c1);
    let mut kept: Vec<String> = Vec::new();
    let mut i: usize = 0;
    while i < ls.len()
        invariant
            i <= ls@.len(),
            b == views_of(ls@),
            views_of(kept@) =~= context_lines_of(b.subrange(0, i as int)),
        decreases ls@.len() - i,
    {
        let t = strip_annotation(ls[i].as_str());
        if contains_ascii_letter(t) {
            kept.push(t.to_owned());
        }
        proof {
            let pre = b.subrange(0, i + 1);
            assert(pre.drop_last() =~= b.subrange(0, i as int));
            assert(pre.last() == b[i as int]);
            assert(views_of(kept@) =~= context_lines_of(pre));
        }
        i += 1;
    }
    proof {
        assert(b.subrange(0, b.len() as int) =~= b);
    }
    let context = join_lines(&kept);
    Ok(SearchMatch {
        path: path.to_owned(),
        page: page_no,
        line: line_no,
        content: content.to_owned(),
        context,
    })
}

/// The record separator the search tool emits between match groups.
pub open spec fn is_sep_line(l: Seq<char>) -> bool {
    l.len() == 2 && l[0] == '-' && l[1] == '-'
}

/// Index of the first separator line at or after `i`, or the line count.
pub open spec fn find_sep(ls: Seq<Seq<char>>, i: int) -> int
    decreases ls.len() - i,
{
    if 0 <= i < ls.len() {
        if is_sep_line(ls[i]) {
            i
        } else {
            find_sep(ls, i + 1)
        }
    } else {
        ls.len() as int
    }
}

pub proof fn lemma_find_sep(ls: Seq<Seq<char>>, i: int)
    requires
        0 <= i <= ls.len(),
    ensures
        i <= find_sep(ls, i) <= ls.len(),
        find_sep(ls, i) < ls.len() ==> is_sep_line(ls[find_sep(ls, i)]),
        forall|j: int| i <= j < find_sep(ls, i) ==> !is_sep_line(ls[j]),
    decreases ls.len() - i,
{
    if i < ls.len() && !is_sep_line(ls[i]) {
        lemma_find_sep(ls, i + 1);
    }
}

/// The blocks of the lines from position `p` on: maximal runs between
/// separator lines, the separators themselves excluded.
pub open spec fn blocks_from(ls: Seq<Seq<char>>, p: int) -> Seq<Seq<Seq<char>>>
    decreases ls.len() - p,
{
    if 0 <= p <= ls.len() {
        let si = find_sep(ls, p);
        if 0 <= p <= si < ls.len() {
            seq![ls.subrange(p, si)] + blocks_from(ls, si + 1)
        } else {
            seq![ls.subrange(p, ls.len() as int)]
        }
    } else {
        Seq::<Seq<Seq<char>>>::empty()
    }
}

/// The blocks with the empty ones dropped: a leading, trailing or doubled
/// separator contributes nothing.
pub open spec fn keep_nonempty(bs: Seq<Seq<Seq<char>>>) -> Seq<Seq<Seq<char>>>
    decreases bs.len(),
{
    if bs.len() == 0 {
        Seq::<Seq<Seq<char>>>::empty()
    } else {
        keep_nonempty(bs.drop_last()) + (if bs.last().len() > 0 {
            seq![bs.last()]
        } else {
            Seq::<Seq<Seq<char>>>::empty()
        })
    }
}

/// Unfolds `keep_nonempty` at the front instead of the back.
pub proof fn lemma_keep_nonempty_first(bs: Seq<Seq<Seq<char>>>)
    requires
        bs.len() > 0,
    ensures
        keep_nonempty(bs) =~= (if bs[0].len() > 0 {
            seq![bs[0]]
        } else {
            Seq::<Seq<Seq<char>>>::empty()
        }) + keep_nonempty(bs.drop_first()),
    decreases bs.len(),
{
    let f = if bs[0].len() > 0 {
        seq![bs[0]]
    } else {
        Seq::<Seq<Seq<char>>>::empty()
    };
    if bs.len() == 1 {
        assert(bs.drop_last() =~= Seq::<Seq<Seq<char>>>::empty());
        assert(bs.drop_first() =~= Seq::<Seq<Seq<char>>>::empty());
        assert(keep_nonempty(bs.drop_first()) =~= Seq::<Seq<Seq<char>>>::empty());
        assert(bs.last() == bs[0]);
    } else {
        let dl = bs.drop_last();
        let df = bs.drop_first();
        let l = if bs.last().len() > 0 {
            seq![bs.last()]
        } else {
            Seq::<Seq<Seq<char>>>::empty()
        };
        lemma_keep_nonempty_first(dl);
        assert(dl.drop_first() =~= df.drop_last());
        assert(dl[0] == bs[0]);
        assert(df.last() == bs.last());
        assert(keep_nonempty(bs) == keep_nonempty(dl) + l);
        assert(keep_nonempty(dl) == f + keep_nonempty(dl.drop_first()));
        assert(keep_nonempty(df) == keep_nonempty(df.drop_last()) + l);
        assert(keep_nonempty(df.drop_last()) == keep_nonempty(dl.drop_first()));
    }
}

/// The record sequence a whole raw capture describes.
pub open spec fn raw_blocks(s: Seq<char>) -> Seq<Seq<Seq<char>>> {
    keep_nonempty(blocks_from(split_lines(s), 0))
}

/// Index of the first malformed block at or after `i`, or the block count.
pub open spec fn first_bad_block(bs: Seq<Seq<Seq<char>>>, i: int) -> int
    decreases bs.len() - i,
{
    if 0 <= i < bs.len() {
        if !block_well_formed(bs[i]) {
            i
        } else {
            first_bad_block(bs, i + 1)
        }
    } else {
        bs.len() as int
    }
}

pub proof fn lemma_first_bad_block(bs: Seq<Seq<Seq<char>>>, i: int)
    requires
        0 <= i <= bs.len(),
    ensures
        i <= first_bad_block(bs, i) <= bs.len(),
        first_bad_block(bs, i) < bs.len() ==> !block_well_formed(bs[first_bad_block(bs, i)]),
        forall|j: int| i <= j < first_bad_block(bs, i) ==> block_well_formed(bs[j]),
    decreases bs.len() - i,
{
    if i < bs.len() && block_well_formed(bs[i]) {
        lemma_first_bad_block(bs, i + 1);
    }
}

fn is_sep_line_exec(l: &str) -> (r: bool)
    ensures
        r == is_sep_line(l@),
{
    let len = l.unicode_len();
    len == 2 && l.get_char(0) == '-' && l.get_char(1) == '-'
}

/// Parses a whole raw capture into its ordered records.
///
/// Every nonempty block must parse; the first malformed one is surfaced as
/// the error, and records keep the order in which the tool emitted them.
pub fn parse(raw: &str) -> (r: Result<Vec<SearchMatch>, ParseError>)
    ensures
        ({
            let nbs = raw_blocks(raw@);
            match r {
                Ok(v) => {
                    &&& first_bad_block(nbs, 0) == nbs.len()
                    &&& v@.len() == nbs.len()
                    &&& forall|i: int|
                        0 <= i < nbs.len() ==> block_well_formed(#[trigger] nbs[i])
                            && block_record(nbs[i], v@[i])
                },
                Err(e) => {
                    let fb = first_bad_block(nbs, 0);
                    &&& fb < nbs.len()
                    &&& e.kind == block_error_kind(nbs[fb])
                    &&& e.block@ == joined(nbs[fb])
                },
            }
        }),
{
    let ls = split_lines_exec(raw);
    let ghost lv = views_of(ls@);
    proof {
        assert(lv =~= split_lines(raw@));
    }
    let ghost nbs = raw_blocks(raw@);
    let mut out: Vec<SearchMatch> = Vec::new();
    let mut p: usize = 0;
    loop
        invariant_except_break
            out@.len() + keep_nonempty(blocks_from(lv, p as int)).len() == nbs.len(),
            forall|i: int|
                0 <= i < keep_nonempty(blocks_from(lv, p as int)).len() ==> #[trigger] keep_nonempty(
                    blocks_from(lv, p as int),
                )[i] == nbs[out@.len() + i],
        invariant
            p <= ls@.len(),
            lv == views_of(ls@),
            lv == split_lines(raw@),
            nbs == raw_blocks(raw@),
            nbs =~= keep_nonempty(blocks_from(lv, 0)),
            out@.len() <= nbs.len(),
            forall|i: int|
                0 <= i < out@.len() ==> block_well_formed(#[trigger] nbs[i]) && block_record(
                    nbs[i],
                    out@[i],
                ),
        ensures
            out@.len() == nbs.len(),
            forall|i: int|
                0 <= i < out@.len() ==> block_well_formed(#[trigger] nbs[i]) && block_record(
                    nbs[i],
                    out@[i],
                ),
        decreases ls@.len() + 1 - p,
    {
        let ghost rem = keep_nonempty(blocks_from(lv, p as int));
        let ghost out_len0 = out@.len() as int;
        let si = find_sep_lines(&ls, p);
        let mut cur: Vec<String> = Vec::new();
        let mut i: usize = p;
        while i < si
            invariant
                p <= i <= si <= ls@.len(),
                lv == views_of(ls@),
                views_of(cur@) =~= lv.subrange(p as int, i as int),
            decreases si - i,
        {
            let ghost old_cur = cur@;
            cur.push(ls[i].clone());
            proof {
                assert(cur@ == old_cur.push(ls@[i as int]));
                assert(old_cur.len() == i - p) by {
                    assert(views_of(old_cur).len() == old_cur.len());
                }
                assert forall|k: int| 0 <= k < cur@.len() implies cur@[k]@ == lv.subrange(
                    p as int,
                    i + 1,
                )[k] by {
                    assert(lv.subrange(p as int, i + 1)[k] == lv[p + k]);
                    assert(lv[p + k] == ls@[p + k]@);
                    if k < old_cur.len() {
                        assert(cur@[k] == old_cur[k]);
                        assert(views_of(old_cur)[k] == old_cur[k]@);
                        assert(views_of(old_cur)[k] == lv.subrange(p as int, i as int)[k]);
                    } else {
                        assert(cur@[k] == ls@[i as int]);
                    }
                }
                assert(views_of(cur@) =~= lv.subrange(p as int, i + 1));
            }
            i += 1;
        }
        let ghost curv = lv.subrange(p as int, si as int);
        let ghost tail = if (si as int) < lv.len() {
            blocks_from(lv, si + 1)
        } else {
            Seq::<Seq<Seq<char>>>::empty()
        };
        let ghost front = if curv.len() > 0 {
            seq![curv]
        } else {
            Seq::<Seq<Seq<char>>>::empty()
        };
        proof {
            assert(views_of(cur@) =~= curv);
            assert(blocks_from(lv, p as int) =~= seq![curv] + tail);
            lemma_keep_nonempty_first(seq![curv] + tail);
            assert((seq![curv] + tail)[0] == curv);
            assert((seq![curv] + tail).drop_first() =~= tail);
            assert(rem =~= front + keep_nonempty(tail));
        }
        if cur.len() > 0 {
            proof {
                assert(curv.len() > 0);
                assert(rem[0] == curv);
                assert(rem[0] == nbs[out_len0]);
            }
            match from_lines(&cur) {
                Ok(m) => {
                    proof {
                        assert(block_well_formed(curv) && block_record(curv, m));
                    }
                    out.push(m);
                },
                Err(e) => {
                    proof {
                        assert(!block_well_formed(nbs[out_len0]));
                        lemma_first_bad_block(nbs, 0);
                        let fb = first_bad_block(nbs, 0);
                        assert(out_len0 < nbs.len());
                        if fb < out_len0 {
                            assert(block_well_formed(nbs[fb]));
                            assert(false);
                        }
                        if fb > out_len0 {
                            assert(block_well_formed(nbs[out_len0]));
                            assert(false);
                        }
                    }
                    return Err(e);
                },
            }
        }
        if si == ls.len() {
            proof {
                assert(tail =~= Seq::<Seq<Seq<char>>>::empty());
                assert(keep_nonempty(tail) =~= Seq::<Seq<Seq<char>>>::empty());
                assert(rem.len() == front.len());
                assert(out@.len() == out_len0 + front.len());
            }
            break ;
        }
        p = si + 1;
        proof {
            assert(keep_nonempty(blocks_from(lv, p as int)) == keep_nonempty(tail));
            assert(out@.len() == out_len0 + front.len());
            assert forall|k: int| 0 <= k < keep_nonempty(tail).len() implies #[trigger] keep_nonempty(
                tail,
            )[k] == nbs[out@.len() + k] by {
                assert(keep_nonempty(tail)[k] == rem[front.len() + k]);
            }
        }
    }
    proof {
        lemma_first_bad_block(nbs, 0);
        if first_bad_block(nbs, 0) < nbs.len() {
            assert(block_well_formed(nbs[first_bad_block(nbs, 0)]));
        }
    }
    Ok(out)
}

fn find_sep_lines(ls: &Vec<String>, from: usize) -> (r: usize)
    requires
        from <= ls@.len(),
    ensures
        r == find_sep(views_of(ls@), from as int),
        from <= r <= ls@.len(),
{
    proof {
        lemma_find_sep(views_of(ls@), from as int);
    }
    let mut i: usize = from;
    while i < ls.len()
        invariant
            from <= i <= ls@.len(),
            find_sep(views_of(ls@), from as int) == find_sep(views_of(ls@), i as int),
        decreases ls@.len() - i,
    {
        if is_sep_line_exec(ls[i].as_str()) {
            return i;
        }
        i += 1;
    }
    i
}

/// Parses one raw block: the lines between two record separators.
pub fn from_block(block: &str) -> (r: Result<SearchMatch, ParseError>)
    ensures
        ({
            let b = split_lines(block@);
            match r {
                Ok(m) => block_well_formed(b) && block_record(b, m) && m.content@.len() > 0,
                Err(e) => !block_well_formed(b) && e.kind == block_error_kind(b) && e.block@
                    == joined(b),
            }
        }),
{
    let ls = split_lines_exec(block);
    proof {
        assert(views_of(ls@) =~= split_lines(block@));
    }
    from_lines(&ls)
}

} // verus!
