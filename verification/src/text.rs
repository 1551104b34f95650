//! Character classes and small text utilities shared by the parser and the
//! preview renderer.

use vstd::prelude::*;

verus! {

/// An ASCII decimal digit.
pub open spec fn is_digit(c: char) -> bool {
    '0' <= c && c <= '9'
}

/// An ASCII letter.
pub open spec fn is_ascii_letter(c: char) -> bool {
    ('a' <= c && c <= 'z') || ('A' <= c && c <= 'Z')
}

/// ASCII whitespace as trimmed from matched content.
pub open spec fn is_space(c: char) -> bool {
    c == ' ' || c == '\t' || c == '\r' || c == '\n'
}

/// Whether some character of `s` is an ASCII letter.
pub open spec fn has_ascii_letter(s: Seq<char>) -> bool {
    exists|i: int| 0 <= i < s.len() && is_ascii_letter(s[i])
}

/// Whether every character of `s` is an ASCII digit.
pub open spec fn all_digits(s: Seq<char>) -> bool {
    forall|i: int| 0 <= i < s.len() ==> is_digit(s[i])
}

pub fn digit_char(c: char) -> (r: bool)
    ensures
        r == is_digit(c),
{
    '0' <= c && c <= '9'
}

pub fn letter_char(c: char) -> (r: bool)
    ensures
        r == is_ascii_letter(c),
{
    ('a' <= c && c <= 'z') || ('A' <= c && c <= 'Z')
}

pub fn space_char(c: char) -> (r: bool)
    ensures
        r == is_space(c),
{
    c == ' ' || c == '\t' || c == '\r' || c == '\n'
}

/// Value of a digit string, most significant digit first.
pub open spec fn digits_val(s: Seq<char>) -> int
    decreases s.len(),
{
    if s.len() == 0 {
        0
    } else {
        digits_val(s.drop_last()) * 10 + (s.last() as u32 - '0' as u32)
    }
}

pub proof fn lemma_digits_val_nonneg(s: Seq<char>)
    requires
        all_digits(s),
    ensures
        digits_val(s) >= 0,
    decreases s.len(),
{
    if s.len() > 0 {
        lemma_digits_val_nonneg(s.drop_last());
    }
}

/// The value of a digit string is at least the value of any of its prefixes.
pub proof fn lemma_digits_val_prefix(s: Seq<char>, i: int)
    requires
        all_digits(s),
        0 <= i <= s.len(),
    ensures
        digits_val(s.subrange(0, i)) <= digits_val(s),
    decreases s.len() - i,
{
    if i < s.len() {
        assert(s.subrange(0, i + 1).drop_last() =~= s.subrange(0, i));
        lemma_digits_val_nonneg(s.subrange(0, i));
        lemma_digits_val_prefix(s, i + 1);
    } else {
        assert(s.subrange(0, i) =~= s);
    }
}

/// Reads a decimal number: succeeds exactly on nonempty all-digit strings
/// whose value fits in `usize`.
pub fn parse_usize(s: &str) -> (r: Option<usize>)
    ensures
        match r {
            Some(v) => s@.len() > 0 && all_digits(s@) && v as int == digits_val(s@),
            None => !(s@.len() > 0 && all_digits(s@) && digits_val(s@) <= usize::MAX as int),
        },
{
    let len = s.unicode_len();
    if len == 0 {
        return None;
    }
    let mut i: usize = 0;
    let mut acc: usize = 0;
    while i < len
        invariant
            0 < len == s@.len(),
            i <= len,
            all_digits(s@.subrange(0, i as int)),
            acc as int == digits_val(s@.subrange(0, i as int)),
        decreases len - i,
    {
        let c = s.get_char(i);
        if !digit_char(c) {
            return None;
        }
        let d: usize = (c as u32 - '0' as u32) as usize;
        if acc > (usize::MAX - d) / 10 {
            proof {
                let t = s@.subrange(0, i + 1);
                assert(t.drop_last() =~= s@.subrange(0, i as int));
                assert(acc * 10 >= ((usize::MAX - d) / 10 + 1) * 10);
                assert((usize::MAX as int - d) / 10 * 10 + (usize::MAX as int - d) % 10
                    == usize::MAX as int - d);
                assert(digits_val(t) > usize::MAX as int);
                if all_digits(s@) {
                    lemma_digits_val_prefix(s@, i + 1);
                }
            }
            return None;
        }
        proof {
            assert(acc * 10 <= (usize::MAX - d) / 10 * 10);
            assert((usize::MAX as int - d) / 10 * 10 + (usize::MAX as int - d) % 10
                == usize::MAX as int - d);
            assert(s@.subrange(0, i + 1).drop_last() =~= s@.subrange(0, i as int));
        }
        acc = acc * 10 + d;
        i += 1;
    }
    proof {
        assert(s@.subrange(0, len as int) =~= s@);
    }
    Some(acc)
}

/// The character for a single decimal digit.
pub open spec fn digit_char_of(d: int) -> char {
    if d == 0 {
        '0'
    } else if d == 1 {
        '1'
    } else if d == 2 {
        '2'
    } else if d == 3 {
        '3'
    } else if d == 4 {
        '4'
    } else if d == 5 {
        '5'
    } else if d == 6 {
        '6'
    } else if d == 7 {
        '7'
    } else if d == 8 {
        '8'
    } else {
        '9'
    }
}

/// Decimal representation of a nonnegative number, no leading zeros.
pub open spec fn dec_rep(n: int) -> Seq<char>
    decreases n,
{
    if n < 10 {
        seq![digit_char_of(n)]
    } else {
        dec_rep(n / 10).push(digit_char_of(n % 10))
    }
}

fn digit_str(d: usize) -> (r: &'static str)
    requires
        d < 10,
    ensures
        r@ =~= seq![digit_char_of(d as int)],
{
    proof {
        reveal_strlit("0");
        reveal_strlit("1");
        reveal_strlit("2");
        reveal_strlit("3");
        reveal_strlit("4");
        reveal_strlit("5");
        reveal_strlit("6");
        reveal_strlit("7");
        reveal_strlit("8");
        reveal_strlit("9");
    }
    if d == 0 {
        "0"
    } else if d == 1 {
        "1"
    } else if d == 2 {
        "2"
    } else if d == 3 {
        "3"
    } else if d == 4 {
        "4"
    } else if d == 5 {
        "5"
    } else if d == 6 {
        "6"
    } else if d == 7 {
        "7"
    } else if d == 8 {
        "8"
    } else {
        "9"
    }
}

/// Writes a number in decimal.
pub fn usize_to_string(n: usize) -> (r: String)
    ensures
        r@ == dec_rep(n as int),
    decreases n,
{
    if n < 10 {
        let d = digit_str(n);
        d.to_owned()
    } else {
        proof {
            assert(n as int / 10 < n as int) by (nonlinear_arith)
                requires
                    n >= 10,
            ;
        }
        let mut s = usize_to_string(n / 10);
        s.append(digit_str(n % 10));
        s
    }
}

/// Whether the string holds at least one ASCII letter.
pub fn contains_ascii_letter(s: &str) -> (r: bool)
    ensures
        r == has_ascii_letter(s@),
{
    let len = s.unicode_len();
    let mut i: usize = 0;
    while i < len
        invariant
            i <= len,
            len == s@.len(),
            forall|j: int| 0 <= j < i ==> !is_ascii_letter(s@[j]),
        decreases len - i,
    {
        if letter_char(s.get_char(i)) {
            return true;
        }
        i += 1;
    }
    false
}

/// First position at or after `i` holding `c`, or the length of `s`.
pub open spec fn find_char(s: Seq<char>, c: char, i: int) -> int
    decreases s.len() - i,
{
    if 0 <= i < s.len() {
        if s[i] == c {
            i
        } else {
            find_char(s, c, i + 1)
        }
    } else {
        s.len() as int
    }
}

pub proof fn lemma_find_char(s: Seq<char>, c: char, i: int)
    requires
        0 <= i <= s.len(),
    ensures
        i <= find_char(s, c, i) <= s.len(),
        find_char(s, c, i) < s.len() ==> s[find_char(s, c, i)] == c,
        forall|j: int| i <= j < find_char(s, c, i) ==> s[j] != c,
    decreases s.len() - i,
{
    if i < s.len() && s[i] != c {
        lemma_find_char(s, c, i + 1);
    }
}

/// First position at or after `i` that is not whitespace, or the length of `s`.
pub open spec fn skip_ws(s: Seq<char>, i: int) -> int
    decreases s.len() - i,
{
    if 0 <= i < s.len() {
        if is_space(s[i]) {
            skip_ws(s, i + 1)
        } else {
            i
        }
    } else {
        s.len() as int
    }
}

/// One past the last non-whitespace position strictly before `j`.
pub open spec fn rtrim_end(s: Seq<char>, j: int) -> int
    decreases j,
{
    if 0 < j <= s.len() {
        if is_space(s[j - 1]) {
            rtrim_end(s, j - 1)
        } else {
            j
        }
    } else {
        0
    }
}

pub proof fn lemma_rtrim_end(s: Seq<char>, j: int)
    requires
        0 <= j <= s.len(),
    ensures
        0 <= rtrim_end(s, j) <= j,
        rtrim_end(s, j) > 0 ==> !is_space(s[rtrim_end(s, j) - 1]),
        forall|k: int| rtrim_end(s, j) <= k < j ==> is_space(s[k]),
    decreases j,
{
    if 0 < j && is_space(s[j - 1]) {
        lemma_rtrim_end(s, j - 1);
    }
}

/// `s` with leading and trailing whitespace removed.
pub open spec fn trim_of(s: Seq<char>) -> Seq<char> {
    let a = skip_ws(s, 0);
    if a == s.len() {
        Seq::<char>::empty()
    } else {
        s.subrange(a, rtrim_end(s, s.len() as int))
    }
}

/// Removes leading and trailing ASCII whitespace.
pub fn trim(s: &str) -> (r: &str)
    ensures
        r@ == trim_of(s@),
{
    let len = s.unicode_len();
    let mut a: usize = 0;
    while a < len && space_char(s.get_char(a))
        invariant
            a <= len,
            len == s@.len(),
            skip_ws(s@, 0) == skip_ws(s@, a as int),
        decreases len - a,
    {
        a += 1;
    }
    if a == len {
        return s.substring_char(len, len);
    }
    let mut b: usize = len;
    while space_char(s.get_char(b - 1))
        invariant
            a < b <= len,
            len == s@.len(),
            skip_ws(s@, 0) == a as int,
            !is_space(s@[a as int]),
            rtrim_end(s@, len as int) == rtrim_end(s@, b as int),
        decreases b,
    {
        proof {
            lemma_rtrim_end(s@, b - 1);
        }
        b -= 1;
    }
    s.substring_char(a, b)
}

/// A line piece with one trailing carriage return removed.
pub open spec fn strip_cr(s: Seq<char>) -> Seq<char> {
    if s.len() > 0 && s.last() == '\r' {
        s.drop_last()
    } else {
        s
    }
}

/// The lines of `s`: pieces between newline characters, each without a
/// trailing carriage return; a final newline closes the last line rather
/// than opening an empty one.
pub open spec fn split_lines(s: Seq<char>) -> Seq<Seq<char>>
    decreases s.len(),
{
    if s.len() == 0 {
        Seq::<Seq<char>>::empty()
    } else {
        let i = find_char(s, '\n', 0);
        if 0 <= i < s.len() {
            seq![strip_cr(s.subrange(0, i))] + split_lines(s.subrange(i + 1, s.len() as int))
        } else {
            seq![strip_cr(s)]
        }
    }
}

/// The kept lines joined with single newlines, no trailing newline.
pub open spec fn joined(ls: Seq<Seq<char>>) -> Seq<char>
    decreases ls.len(),
{
    if ls.len() == 0 {
        Seq::<char>::empty()
    } else if ls.len() == 1 {
        ls[0]
    } else {
        joined(ls.drop_last()) + seq!['\n'] + ls.last()
    }
}

/// Joins the pieces with single newlines.
pub fn join_lines(ls: &Vec<String>) -> (r: String)
    ensures
        r@ == joined(Seq::new(ls@.len(), |i: int| ls@[i]@)),
{
    let ghost full = Seq::new(ls@.len(), |i: int| ls@[i]@);
    proof {
        reveal_strlit("\n");
    }
    let mut out = String::new();
    let mut i: usize = 0;
    while i < ls.len()
        invariant
            i <= ls@.len(),
            full == Seq::new(ls@.len(), |j: int| ls@[j]@),
            out@ == joined(full.subrange(0, i as int)),
        decreases ls@.len() - i,
    {
        if i > 0 {
            out.append("\n");
            proof {
                reveal_strlit("\n");
                assert("\n"@ =~= seq!['\n']);
            }
        }
        out.append(ls[i].as_str());
        proof {
            let t = full.subrange(0, i + 1);
            assert(t.drop_last() =~= full.subrange(0, i as int));
            assert(t.last() == full[i as int]);
        }
        i += 1;
    }
    proof {
        assert(full.subrange(0, full.len() as int) =~= full);
    }
    out
}

/// First position at or after `from` holding `c`, or the length of `s`.
pub fn find_char_from(s: &str, c: char, from: usize) -> (r: usize)
    requires
        from <= s@.len(),
    ensures
        r == find_char(s@, c, from as int),
        from <= r <= s@.len(),
        r < s@.len() ==> s@[r as int] == c,
{
    proof {
        lemma_find_char(s@, c, from as int);
    }
    let len = s.unicode_len();
    let mut i: usize = from;
    while i < len
        invariant
            from <= i <= len,
            len == s@.len(),
            find_char(s@, c, from as int) == find_char(s@, c, i as int),
        decreases len - i,
    {
        if s.get_char(i) == c {
            return i;
        }
        i += 1;
    }
    i
}

fn line_piece(s: &str, from: usize, to: usize) -> (r: String)
    requires
        from <= to <= s@.len(),
    ensures
        r@ == strip_cr(s@.subrange(from as int, to as int)),
{
    let piece = if to > from && s.get_char(to - 1) == '\r' {
        s.substring_char(from, to - 1)
    } else {
        s.substring_char(from, to)
    };
    proof {
        if to > from && s@[to - 1] == '\r' {
            assert(s@.subrange(from as int, to - 1) =~= s@.subrange(
                from as int,
                to as int,
            ).drop_last());
        }
    }
    piece.to_owned()
}

/// Splits `s` into its lines.
pub fn split_lines_exec(s: &str) -> (r: Vec<String>)
    ensures
        r@.len() == split_lines(s@).len(),
        forall|i: int| 0 <= i < r@.len() ==> #[trigger] r@[i]@ == split_lines(s@)[i],
{
    let mut out: Vec<String> = Vec::new();
    let mut rest: &str = s;
    let ghost total = split_lines(s@);
    loop
        invariant
            total == split_lines(s@),
            out@.len() + split_lines(rest@).len() == total.len(),
            forall|i: int| 0 <= i < out@.len() ==> #[trigger] out@[i]@ == total[i],
            forall|i: int|
                0 <= i < split_lines(rest@).len() ==> split_lines(rest@)[i] == total[out@.len()
                    + i],
        ensures
            rest@.len() == 0,
        decreases rest@.len(),
    {
        let len = rest.unicode_len();
        if len == 0 {
            break ;
        }
        let ghost old_rest = rest@;
        let ghost old_count = out@.len() as int;
        let i = find_char_from(rest, '\n', 0);
        let piece = line_piece(rest, 0, i);
        out.push(piece);
        if i == len {
            rest = rest.substring_char(len, len);
            proof {
                assert(old_rest.subrange(0, i as int) =~= old_rest);
                assert(split_lines(old_rest) =~= seq![strip_cr(old_rest)]);
            }
        } else {
            rest = rest.substring_char(i + 1, len);
        }
        proof {
            assert(split_lines(old_rest) =~= seq![strip_cr(old_rest.subrange(0, i as int))]
                + split_lines(rest@));
            assert(piece@ == split_lines(old_rest)[0]);
            assert(out@[old_count]@ == total[old_count]);
            assert forall|k: int| 0 <= k < split_lines(rest@).len() implies split_lines(rest@)[k]
                == total[out@.len() + k] by {
                assert(split_lines(rest@)[k] == split_lines(old_rest)[k + 1]);
            }
        }
    }
    out
}

/// `n` occurs in `h` as a contiguous run starting at `i`.
pub open spec fn occurs_at(h: Seq<char>, n: Seq<char>, i: int) -> bool {
    0 <= i && i + n.len() <= h.len() && h.subrange(i, i + n.len()) == n
}

/// `n` occurs somewhere in `h`; every string contains the empty string.
pub open spec fn contains_seq(h: Seq<char>, n: Seq<char>) -> bool {
    exists|i: int| occurs_at(h, n, i)
}

fn occurs_at_exec(h: &str, n: &str, i: usize) -> (r: bool)
    requires
        i + n@.len() <= h@.len(),
    ensures
        r == occurs_at(h@, n@, i as int),
{
    let hlen = h.unicode_len();
    let nlen = n.unicode_len();
    let mut j: usize = 0;
    while j < nlen
        invariant
            j <= nlen,
            nlen == n@.len(),
            hlen == h@.len(),
            i + nlen <= h@.len(),
            forall|k: int| 0 <= k < j ==> h@[i + k] == n@[k],
        decreases nlen - j,
    {
        if h.get_char(i + j) != n.get_char(j) {
            assert(h@.subrange(i as int, i + n@.len())[j as int] != n@[j as int]);
            return false;
        }
        j += 1;
    }
    assert(h@.subrange(i as int, i + n@.len()) =~= n@);
    true
}

/// Substring test: whether `n` occurs contiguously in `h`.
pub fn contains_substring(h: &str, n: &str) -> (r: bool)
    ensures
        r == contains_seq(h@, n@),
{
    let hlen = h.unicode_len();
    let nlen = n.unicode_len();
    if nlen > hlen {
        assert(forall|i: int| !occurs_at(h@, n@, i));
        return false;
    }
    let mut i: usize = 0;
    loop
        invariant
            nlen == n@.len() <= hlen == h@.len(),
            i <= hlen - nlen,
            forall|k: int| 0 <= k < i ==> !occurs_at(h@, n@, k),
        ensures
            forall|k: int| 0 <= k <= hlen - nlen ==> !occurs_at(h@, n@, k),
        decreases hlen - nlen - i,
    {
        if occurs_at_exec(h, n, i) {
            return true;
        }
        if i == hlen - nlen {
            break ;
        }
        i += 1;
    }
    assert(forall|k: int| occurs_at(h@, n@, k) ==> 0 <= k <= hlen - nlen);
    false
}

/// The lowercase form of a character sequence, as `str::to_lowercase`
/// produces it.
pub uninterp spec fn lower_of(s: Seq<char>) -> Seq<char>;

/// Relies on str::to_lowercase: the result depends on the characters alone.
#[verifier::external_body]
pub(crate) fn to_lower(s: &str) -> (r: String)
    ensures
        r@ == lower_of(s@),
{
    s.to_lowercase()
}

} // verus!
