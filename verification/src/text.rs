//! Character-level text utilities with exact specifications.
use vstd::prelude::*;

verus! {

/// The characters of a string slice, in order.
pub fn chars_of(s: &str) -> (out: Vec<char>)
    ensures
        out@ == s@,
{
    let mut out: Vec<char> = Vec::new();
    for c in it: s.chars()
        invariant
            out@ == it.seq().take(it.index() as int),
            it.seq() == s@,
    {
        out.push(c);
    }
    out
}

/// Appends one character to a string (std's `String::push`).
#[verifier::external_body]
fn push_char(s: &mut String, c: char)
    ensures
        final(s)@ == old(s)@.push(c),
{
    s.push(c);
}

/// The string made of the given characters.
pub fn string_from_chars(chars: &[char]) -> (out: String)
    ensures
        out@ == chars@,
{
    let mut out = String::new();
    let mut i: usize = 0;
    while i < chars.len()
        invariant
            i <= chars@.len(),
            out@ == chars@.take(i as int),
        decreases chars@.len() - i,
    {
        push_char(&mut out, chars[i]);
        assert(chars@.take(i as int).push(chars@[i as int]) =~= chars@.take(i + 1));
        i = i + 1;
    }
    assert(chars@.take(chars@.len() as int) =~= chars@);
    out
}



/// ASCII lower-casing of one character; every other character is kept.
pub open spec fn ascii_lower(c: char) -> char {
    if 'A' <= c && c <= 'Z' {
        ((c as u32) + 32) as char
    } else {
        c
    }
}

/// Equality of two texts when ASCII letters are compared without case.
pub open spec fn eq_ignoring_ascii_case(a: Seq<char>, b: Seq<char>) -> bool {
    &&& a.len() == b.len()
    &&& forall|i: int| 0 <= i < a.len() ==> ascii_lower(#[trigger] a[i]) == ascii_lower(b[i])
}

fn char_ascii_lower(c: char) -> (r: char)
    ensures
        r == ascii_lower(c),
{
    if 'A' <= c && c <= 'Z' {
        let code: u32 = (c as u32) + 32;
        assert(code <= 0x7f);
        let lowered: u8 = code as u8;
        lowered as char
    } else {
        c
    }
}

/// Whether two strings are equal when ASCII letters are compared without case
/// (std's `str::eq_ignore_ascii_case`).
pub fn eq_ignore_ascii_case(a: &str, b: &str) -> (r: bool)
    ensures
        r == eq_ignoring_ascii_case(a@, b@),
{
    let x = chars_of(a);
    let y = chars_of(b);
    if x.len() != y.len() {
        return false;
    }
    let mut i: usize = 0;
    while i < x.len()
        invariant
            x@ == a@,
            y@ == b@,
            x@.len() == y@.len(),
            i <= x@.len(),
            forall|k: int| 0 <= k < i ==> ascii_lower(#[trigger] x@[k]) == ascii_lower(y@[k]),
        decreases x@.len() - i,
    {
        if char_ascii_lower(x[i]) != char_ascii_lower(y[i]) {
            return false;
        }
        i = i + 1;
    }
    true
}


/// `c` has the Unicode White_Space property (what std's `char::is_whitespace` tests).
pub open spec fn is_white_space(c: char) -> bool {
    ||| ('\u{9}' <= c && c <= '\u{d}')
    ||| c == ' '
    ||| c == '\u{85}'
    ||| c == '\u{a0}'
    ||| c == '\u{1680}'
    ||| ('\u{2000}' <= c && c <= '\u{200a}')
    ||| c == '\u{2028}'
    ||| c == '\u{2029}'
    ||| c == '\u{202f}'
    ||| c == '\u{205f}'
    ||| c == '\u{3000}'
}

/// Whether `c` has the Unicode White_Space property.
pub fn char_is_white_space(c: char) -> (r: bool)
    ensures
        r == is_white_space(c),
{
    ('\u{9}' <= c && c <= '\u{d}') || c == ' ' || c == '\u{85}' || c == '\u{a0}' || c == '\u{1680}'
        || ('\u{2000}' <= c && c <= '\u{200a}') || c == '\u{2028}' || c == '\u{2029}' || c
        == '\u{202f}' || c == '\u{205f}' || c == '\u{3000}'
}

/// `s` without its leading white space.
pub open spec fn trim_start(s: Seq<char>) -> Seq<char>
    decreases s.len(),
{
    if s.len() > 0 && is_white_space(s[0]) {
        trim_start(s.drop_first())
    } else {
        s
    }
}

/// `s` without its trailing white space.
pub open spec fn trim_end(s: Seq<char>) -> Seq<char>
    decreases s.len(),
{
    if s.len() > 0 && is_white_space(s.last()) {
        trim_end(s.drop_last())
    } else {
        s
    }
}

/// `s` without leading and trailing white space (std's `str::trim`).
pub open spec fn trim(s: Seq<char>) -> Seq<char> {
    trim_end(trim_start(s))
}

/// The characters of `s` from `lo` (inclusive) to `hi` (exclusive).
pub fn slice_chars(s: &[char], lo: usize, hi: usize) -> (out: Vec<char>)
    requires
        lo <= hi <= s@.len(),
    ensures
        out@ == s@.subrange(lo as int, hi as int),
{
    let mut out: Vec<char> = Vec::new();
    let mut i: usize = lo;
    while i < hi
        invariant
            lo <= i <= hi,
            hi <= s@.len(),
            out@ == s@.subrange(lo as int, i as int),
        decreases hi - i,
    {
        out.push(s[i]);
        assert(out@ =~= s@.subrange(lo as int, i + 1));
        i = i + 1;
    }
    out
}

proof fn lemma_trim_start_skip(s: Seq<char>, i: int)
    requires
        0 <= i <= s.len(),
        forall|k: int| 0 <= k < i ==> is_white_space(#[trigger] s[k]),
    ensures
        trim_start(s) == trim_start(s.skip(i)),
    decreases i,
{
    if i > 0 {
        assert(s.drop_first().skip(i - 1) =~= s.skip(i));
        lemma_trim_start_skip(s.drop_first(), i - 1);
    } else {
        assert(s.skip(0) =~= s);
    }
}

proof fn lemma_trim_end_take(s: Seq<char>, j: int)
    requires
        0 <= j <= s.len(),
        forall|k: int| j <= k < s.len() ==> is_white_space(#[trigger] s[k]),
    ensures
        trim_end(s) == trim_end(s.take(j)),
    decreases s.len() - j,
{
    if j < s.len() {
        assert(s.drop_last().take(j) =~= s.take(j));
        lemma_trim_end_take(s.drop_last(), j);
    } else {
        assert(s.take(j) =~= s);
    }
}

/// The characters of `s` without leading and trailing white space.
pub fn trim_chars(s: &[char]) -> (out: Vec<char>)
    ensures
        out@ == trim(s@),
{
    let mut lo: usize = 0;
    while lo < s.len() && char_is_white_space(s[lo])
        invariant
            lo <= s@.len(),
            forall|k: int| 0 <= k < lo ==> is_white_space(#[trigger] s@[k]),
        decreases s@.len() - lo,
    {
        lo = lo + 1;
    }
    proof {
        lemma_trim_start_skip(s@, lo as int);
    }
    let mut hi: usize = s.len();
    while hi > lo && char_is_white_space(s[hi - 1])
        invariant
            lo <= hi <= s@.len(),
            forall|k: int| hi <= k < s@.len() ==> is_white_space(#[trigger] s@[k]),
        decreases hi,
    {
        hi = hi - 1;
    }
    let ghost rest = s@.skip(lo as int);
    proof {
        assert(lo == s@.len() || !is_white_space(s@[lo as int]));
        assert(trim_start(rest) == rest);
        assert forall|k: int| hi - lo <= k < rest.len() implies is_white_space(#[trigger] rest[k]) by {
            assert(rest[k] == s@[k + lo]);
        }
        lemma_trim_end_take(rest, hi - lo);
        assert(rest.take(hi - lo) =~= s@.subrange(lo as int, hi as int));
        if hi > lo {
            assert(s@.subrange(lo as int, hi as int).last() == s@[hi - 1]);
        }
    }
    slice_chars(s, lo, hi)
}

/// `s` begins with `prefix`.
pub open spec fn has_prefix(s: Seq<char>, prefix: Seq<char>) -> bool {
    prefix.len() <= s.len() && s.take(prefix.len() as int) == prefix
}

/// `s` ends with `suffix`.
pub open spec fn has_suffix(s: Seq<char>, suffix: Seq<char>) -> bool {
    suffix.len() <= s.len() && s.skip(s.len() - suffix.len()) == suffix
}

/// Whether `s` begins with `prefix`.
pub fn starts_with(s: &[char], prefix: &[char]) -> (r: bool)
    ensures
        r == has_prefix(s@, prefix@),
{
    if prefix.len() > s.len() {
        return false;
    }
    let mut i: usize = 0;
    while i < prefix.len()
        invariant
            prefix@.len() <= s@.len(),
            i <= prefix@.len(),
            forall|k: int| 0 <= k < i ==> #[trigger] s@[k] == prefix@[k],
        decreases prefix@.len() - i,
    {
        if s[i] != prefix[i] {
            assert(s@.take(prefix@.len() as int)[i as int] != prefix@[i as int]);
            return false;
        }
        i = i + 1;
    }
    assert(s@.take(prefix@.len() as int) =~= prefix@);
    true
}

/// Whether `s` ends with `suffix`.
pub fn ends_with(s: &[char], suffix: &[char]) -> (r: bool)
    ensures
        r == has_suffix(s@, suffix@),
{
    if suffix.len() > s.len() {
        return false;
    }
    let n = s.len();
    let offset = n - suffix.len();
    let mut i: usize = 0;
    while i < suffix.len()
        invariant
            n == s@.len(),
            suffix@.len() <= s@.len(),
            offset == s@.len() - suffix@.len(),
            i <= suffix@.len(),
            forall|k: int| 0 <= k < i ==> #[trigger] s@[offset + k] == suffix@[k],
        decreases suffix@.len() - i,
    {
        if s[offset + i] != suffix[i] {
            assert(s@.skip(offset as int)[i as int] != suffix@[i as int]);
            return false;
        }
        i = i + 1;
    }
    assert forall|k: int| 0 <= k < suffix@.len() implies #[trigger] s@.skip(offset as int)[k]
        == suffix@[k] by {
        assert(s@[offset + k] == suffix@[k]);
    }
    assert(s@.skip(offset as int) =~= suffix@);
    true
}


/// Pushing onto a vector pushes the pushed element's value onto its value.
pub proof fn lemma_deep_push<T: DeepView>(before: Vec<T>, after: Vec<T>, pushed: T)
    requires
        after@ == before@.push(pushed),
    ensures
        after.deep_view() == before.deep_view().push(pushed.deep_view()),
{
    assert(after.deep_view() =~= before.deep_view().push(pushed.deep_view())) by {
        assert forall|k: int| 0 <= k < after@.len() implies #[trigger] after.deep_view()[k]
            == before.deep_view().push(pushed.deep_view())[k] by {
            if k < before@.len() {
                assert(after@[k] == before@[k]);
            }
        }
    }
}

/// The index of the first `c` in `s` at or after `i`, or the length of `s`
/// when there is none.
pub open spec fn find_from(s: Seq<char>, c: char, i: int) -> int
    decreases s.len() - i,
{
    if i >= s.len() {
        s.len() as int
    } else if s[i] == c {
        i
    } else {
        find_from(s, c, i + 1)
    }
}

pub proof fn lemma_find_from(s: Seq<char>, c: char, i: int)
    requires
        0 <= i <= s.len(),
    ensures
        i <= find_from(s, c, i) <= s.len(),
        find_from(s, c, i) < s.len() ==> s[find_from(s, c, i)] == c,
        forall|k: int| i <= k < find_from(s, c, i) ==> #[trigger] s[k] != c,
    decreases s.len() - i,
{
    if i < s.len() && s[i] != c {
        lemma_find_from(s, c, i + 1);
    }
}

proof fn lemma_find_shift(s: Seq<char>, c: char, pos: int, i: int)
    requires
        0 <= pos <= s.len(),
        0 <= i <= s.len() - pos,
    ensures
        find_from(s.skip(pos), c, i) == find_from(s, c, pos + i) - pos,
    decreases s.len() - pos - i,
{
    if i < s.len() - pos && s[pos + i] != c {
        lemma_find_shift(s, c, pos, i + 1);
    }
}

/// The index of the first `c` in `s` at or after `from`, or the length of `s`.
pub fn find_char(s: &[char], c: char, from: usize) -> (k: usize)
    requires
        from <= s@.len(),
    ensures
        k == find_from(s@, c, from as int),
{
    let mut k = from;
    while k < s.len() && s[k] != c
        invariant
            from <= k <= s@.len(),
            find_from(s@, c, k as int) == find_from(s@, c, from as int),
        decreases s@.len() - k,
    {
        k = k + 1;
    }
    k
}

/// A line without the carriage return that ended it.
pub open spec fn strip_cr(line: Seq<char>) -> Seq<char> {
    if line.len() > 0 && line.last() == '\r' {
        line.drop_last()
    } else {
        line
    }
}

/// The lines of `s` (std's `str::lines`): split at each `\n`, a `\r` before it
/// dropped, with no empty line after a final `\n`.
pub open spec fn lines_of(s: Seq<char>) -> Seq<Seq<char>>
    decreases s.len(),
{
    if s.len() == 0 {
        Seq::empty()
    } else {
        let k = find_from(s, '\n', 0);
        if k >= s.len() {
            seq![s]
        } else {
            proof {
                lemma_find_from(s, '\n', 0);
            }
            seq![strip_cr(s.take(k))] + lines_of(s.skip(k + 1))
        }
    }
}

/// The lines of `s`.
pub fn lines(s: &[char]) -> (out: Vec<Vec<char>>)
    ensures
        out.deep_view() == lines_of(s@),
{
    let mut out: Vec<Vec<char>> = Vec::new();
    let mut pos: usize = 0;
    assert(s@.skip(0) =~= s@);
    while pos < s.len()
        invariant
            pos <= s@.len(),
            out.deep_view() + lines_of(s@.skip(pos as int)) == lines_of(s@),
        decreases s@.len() - pos,
    {
        let ghost rest = s@.skip(pos as int);
        let k = find_char(s, '\n', pos);
        proof {
            lemma_find_from(s@, '\n', pos as int);
            lemma_find_shift(s@, '\n', pos as int, 0);
        }
        let ghost before = out;
        if k == s.len() {
            let piece = slice_chars(s, pos, k);
            assert(piece@ =~= rest);
            out.push(piece);
            proof {
                lemma_deep_push(before, out, piece);
                assert(piece.deep_view() =~= piece@);
                assert(lines_of(rest) == seq![rest]);
                assert(s@.skip(k as int) =~= Seq::<char>::empty());
                assert(lines_of(s@.skip(k as int)) =~= Seq::<Seq<char>>::empty());
                assert(out.deep_view() + lines_of(s@.skip(k as int)) =~= before.deep_view() + lines_of(rest));
            }
            pos = k;
        } else {
            let mut piece = slice_chars(s, pos, k);
            if piece.len() > 0 && piece[piece.len() - 1] == '\r' {
                piece.pop();
            }
            assert(s@.subrange(pos as int, k as int) =~= rest.take(k - pos));
            assert(piece@ == strip_cr(rest.take(k - pos)));
            out.push(piece);
            proof {
                lemma_deep_push(before, out, piece);
                assert(piece.deep_view() =~= piece@);
                assert(rest.skip(k - pos + 1) =~= s@.skip(k + 1));
                assert(lines_of(rest) == seq![strip_cr(rest.take(k - pos))] + lines_of(s@.skip(k + 1)));
                assert(out.deep_view() + lines_of(s@.skip(k + 1)) =~= before.deep_view() + lines_of(rest));
            }
            pos = k + 1;
        }
    }
    assert(s@.skip(pos as int) =~= Seq::<char>::empty());
    assert(out.deep_view() + Seq::<Seq<char>>::empty() =~= out.deep_view());
    out
}


/// The pieces of `s` between occurrences of `sep` (std's `str::split` with a
/// character): there is always at least one piece, possibly empty.
pub open spec fn split_on(s: Seq<char>, sep: char) -> Seq<Seq<char>>
    decreases s.len(),
{
    let k = find_from(s, sep, 0);
    if k >= s.len() {
        seq![s]
    } else {
        proof {
            lemma_find_from(s, sep, 0);
        }
        seq![s.take(k)] + split_on(s.skip(k + 1), sep)
    }
}

/// The pieces of `s` between occurrences of `sep`.
pub fn split_chars(s: &[char], sep: char) -> (out: Vec<Vec<char>>)
    ensures
        out.deep_view() == split_on(s@, sep),
{
    let mut out: Vec<Vec<char>> = Vec::new();
    let mut pos: usize = 0;
    assert(s@.skip(0) =~= s@);
    loop
        invariant
            pos <= s@.len(),
            out.deep_view() + split_on(s@.skip(pos as int), sep) == split_on(s@, sep),
        decreases s@.len() - pos,
    {
        let ghost rest = s@.skip(pos as int);
        let k = find_char(s, sep, pos);
        proof {
            lemma_find_from(s@, sep, pos as int);
            lemma_find_shift(s@, sep, pos as int, 0);
        }
        let ghost before = out;
        let piece = slice_chars(s, pos, k);
        out.push(piece);
        proof {
            lemma_deep_push(before, out, piece);
            assert(piece.deep_view() =~= piece@);
        }
        if k == s.len() {
            proof {
                assert(piece@ =~= rest);
                assert(split_on(rest, sep) == seq![rest]);
                assert(out.deep_view() =~= before.deep_view() + split_on(rest, sep));
            }
            return out;
        }
        proof {
            assert(piece@ =~= rest.take(k - pos));
            assert(rest.skip(k - pos + 1) =~= s@.skip(k + 1));
            assert(split_on(rest, sep) == seq![rest.take(k - pos)] + split_on(s@.skip(k + 1), sep));
            assert(out.deep_view() + split_on(s@.skip(k + 1), sep) =~= before.deep_view() + split_on(
                rest,
                sep,
            ));
        }
        pos = k + 1;
    }
}

/// The index of the first white space in `s` at or after `i`, or the length of `s`.
pub open spec fn white_space_from(s: Seq<char>, i: int) -> int
    decreases s.len() - i,
{
    if i >= s.len() {
        s.len() as int
    } else if is_white_space(s[i]) {
        i
    } else {
        white_space_from(s, i + 1)
    }
}

/// The first whitespace-separated word of `s` (what std's
/// `str::split_whitespace` yields first).
pub open spec fn first_word(s: Seq<char>) -> Option<Seq<char>> {
    let t = trim_start(s);
    if t.len() == 0 {
        None
    } else {
        Some(t.take(white_space_from(t, 0)))
    }
}

proof fn lemma_white_space_shift(s: Seq<char>, pos: int, i: int)
    requires
        0 <= pos <= s.len(),
        0 <= i <= s.len() - pos,
    ensures
        white_space_from(s.skip(pos), i) == white_space_from(s, pos + i) - pos,
    decreases s.len() - pos - i,
{
    if i < s.len() - pos && !is_white_space(s[pos + i]) {
        lemma_white_space_shift(s, pos, i + 1);
    }
}

/// The first whitespace-separated word of `s`.
pub fn first_word_chars(s: &[char]) -> (out: Option<Vec<char>>)
    ensures
        match out {
            Some(w) => first_word(s@) == Some(w@),
            None => first_word(s@) is None,
        },
{
    let mut lo: usize = 0;
    while lo < s.len() && char_is_white_space(s[lo])
        invariant
            lo <= s@.len(),
            forall|k: int| 0 <= k < lo ==> is_white_space(#[trigger] s@[k]),
        decreases s@.len() - lo,
    {
        lo = lo + 1;
    }
    proof {
        lemma_trim_start_skip(s@, lo as int);
    }
    if lo == s.len() {
        assert(s@.skip(lo as int).len() == 0);
        return None;
    }
    let mut hi: usize = lo;
    while hi < s.len() && !char_is_white_space(s[hi])
        invariant
            lo <= hi <= s@.len(),
            white_space_from(s@, hi as int) == white_space_from(s@, lo as int),
        decreases s@.len() - hi,
    {
        hi = hi + 1;
    }
    proof {
        let t = s@.skip(lo as int);
        assert(trim_start(t) == t);
        lemma_white_space_shift(s@, lo as int, 0);
        assert(t.take(hi - lo) =~= s@.subrange(lo as int, hi as int));
    }
    Some(slice_chars(s, lo, hi))
}

/// The index of the first occurrence of the pair `a`, `b` in `s` at or after
/// `i`, or the length of `s` when there is none.
pub open spec fn find_pair_from(s: Seq<char>, a: char, b: char, i: int) -> int
    decreases s.len() - i,
{
    if i + 1 >= s.len() {
        s.len() as int
    } else if s[i] == a && s[i + 1] == b {
        i
    } else {
        find_pair_from(s, a, b, i + 1)
    }
}

/// `s` split around the first occurrence of the two-character separator
/// `a`, `b` (std's `str::split_once` with a two-character pattern).
pub open spec fn split_once_pair(s: Seq<char>, a: char, b: char) -> Option<(Seq<char>, Seq<char>)> {
    let k = find_pair_from(s, a, b, 0);
    if k >= s.len() {
        None
    } else {
        Some((s.take(k), s.skip(k + 2)))
    }
}

/// `s` split around the first occurrence of the separator `a`, `b`.
pub fn split_once_chars(s: &[char], a: char, b: char) -> (out: Option<(Vec<char>, Vec<char>)>)
    ensures
        match out {
            Some(parts) => split_once_pair(s@, a, b) == Some((parts.0@, parts.1@)),
            None => split_once_pair(s@, a, b) is None,
        },
{
    let n = s.len();
    if n < 2 {
        return None;
    }
    let mut k: usize = 0;
    while k < n - 1 && !(s[k] == a && s[k + 1] == b)
        invariant
            n == s@.len(),
            n >= 2,
            k <= s@.len() - 1,
            find_pair_from(s@, a, b, k as int) == find_pair_from(s@, a, b, 0),
        decreases s@.len() - k,
    {
        k = k + 1;
    }
    if k >= n - 1 {
        return None;
    }
    let head = slice_chars(s, 0, k);
    let tail = slice_chars(s, k + 2, s.len());
    assert(head@ =~= s@.take(k as int));
    assert(tail@ =~= s@.skip(k + 2));
    Some((head, tail))
}

/// `s` with every `from` replaced by `to` (std's `str::replace` with a
/// character pattern).
pub open spec fn replace_char(s: Seq<char>, from: char, to: Seq<char>) -> Seq<char>
    decreases s.len(),
{
    if s.len() == 0 {
        Seq::empty()
    } else {
        replace_char(s.drop_last(), from, to) + if s.last() == from {
            to
        } else {
            seq![s.last()]
        }
    }
}

/// The characters of `s` with every `from` replaced by `to`.
pub fn replace_chars(s: &[char], from: char, to: &[char]) -> (out: Vec<char>)
    ensures
        out@ == replace_char(s@, from, to@),
{
    let mut out: Vec<char> = Vec::new();
    let mut i: usize = 0;
    while i < s.len()
        invariant
            i <= s@.len(),
            out@ == replace_char(s@.take(i as int), from, to@),
        decreases s@.len() - i,
    {
        assert(s@.take(i + 1).drop_last() =~= s@.take(i as int));
        assert(s@.take(i + 1).last() == s@[i as int]);
        if s[i] == from {
            let mut j: usize = 0;
            let ghost before = out@;
            while j < to.len()
                invariant
                    j <= to@.len(),
                    out@ == before + to@.take(j as int),
                decreases to@.len() - j,
            {
                out.push(to[j]);
                assert(out@ =~= before + to@.take(j + 1));
                j = j + 1;
            }
            assert(to@.take(j as int) =~= to@);
        } else {
            out.push(s[i]);
        }
        i = i + 1;
    }
    assert(s@.take(i as int) =~= s@);
    out
}

/// The decimal digit for `d`, which is below ten.
pub open spec fn digit_char(d: int) -> char {
    if d == 0 {
        '0'
    } else if d == 1 {
        '1'
    } else if d == 2 {
        '2'
    } else if d == 3 {
        '3'
    } else if d == 4 {
        '4'
    } else if d == 5 {
        '5'
    } else if d == 6 {
        '6'
    } else if d == 7 {
        '7'
    } else if d == 8 {
        '8'
    } else {
        '9'
    }
}

fn digit(d: u64) -> (c: char)
    requires
        d < 10,
    ensures
        c == digit_char(d as int),
{
    if d == 0 {
        '0'
    } else if d == 1 {
        '1'
    } else if d == 2 {
        '2'
    } else if d == 3 {
        '3'
    } else if d == 4 {
        '4'
    } else if d == 5 {
        '5'
    } else if d == 6 {
        '6'
    } else if d == 7 {
        '7'
    } else if d == 8 {
        '8'
    } else {
        '9'
    }
}

/// The decimal digits of `n`, most significant first, without leading zeros.
pub open spec fn digits_of(n: nat) -> Seq<char>
    decreases n,
{
    if n < 10 {
        seq![digit_char(n as int)]
    } else {
        digits_of(n / 10).push(digit_char((n % 10) as int))
    }
}

/// The decimal notation of `v`, with a minus sign when it is negative (as
/// std's `to_string` writes integers).
pub open spec fn decimal(v: int) -> Seq<char> {
    if v < 0 {
        seq!['-'] + digits_of((-v) as nat)
    } else {
        digits_of(v as nat)
    }
}

fn push_digits(n: u64, out: &mut Vec<char>)
    ensures
        final(out)@ == old(out)@ + digits_of(n as nat),
    decreases n,
{
    if n >= 10 {
        push_digits(n / 10, out);
    }
    let c: char = digit(n % 10);
    out.push(c);
    proof {
        if n >= 10 {
            assert(digits_of(n as nat) == digits_of((n / 10) as nat).push(digit_char((n % 10) as int)));
        }
    }
    assert(final(out)@ =~= old(out)@ + digits_of(n as nat));
}

/// The decimal notation of `v`.
pub fn decimal_chars(v: i64) -> (out: Vec<char>)
    ensures
        out@ == decimal(v as int),
{
    let mut out: Vec<char> = Vec::new();
    if v < 0 {
        out.push('-');
        let magnitude: u64 = if v == i64::MIN {
            9223372036854775808u64
        } else {
            (-v) as u64
        };
        push_digits(magnitude, &mut out);
        assert(out@ =~= seq!['-'] + digits_of((-(v as int)) as nat));
    } else {
        push_digits(v as u64, &mut out);
        assert(out@ =~= digits_of(v as nat));
    }
    out
}

/// `c` is an ASCII decimal digit.
pub open spec fn is_digit(c: char) -> bool {
    '0' <= c && c <= '9'
}

/// The value of a string of decimal digits.
pub open spec fn digits_value(s: Seq<char>) -> int
    decreases s.len(),
{
    if s.len() == 0 {
        0
    } else {
        10 * digits_value(s.drop_last()) + (s.last() as int - 48)
    }
}

/// Every character of `d` is an ASCII decimal digit.
pub open spec fn all_digits(d: Seq<char>) -> bool {
    forall|i: int| 0 <= i < d.len() ==> is_digit(#[trigger] d[i])
}

/// The length of the sign (`+` or `-`) that `s` begins with, if any.
pub open spec fn sign_len(s: Seq<char>) -> int {
    if s.len() > 0 && (s[0] == '+' || s[0] == '-') {
        1
    } else {
        0
    }
}

/// What std's `str::parse::<i32>` gives for `s`: an optional `+` or `-`, then
/// at least one ASCII digit and nothing else, of a value that fits in `i32`.
pub open spec fn parse_i32(s: Seq<char>) -> Option<i32> {
    let digits = s.skip(sign_len(s));
    let magnitude = digits_value(digits);
    let value = if s.len() > 0 && s[0] == '-' {
        -magnitude
    } else {
        magnitude
    };
    if digits.len() == 0 || !all_digits(digits) {
        None
    } else if i32::MIN <= value <= i32::MAX {
        Some(value as i32)
    } else {
        None
    }
}

proof fn lemma_digits_value_grows(s: Seq<char>, i: int)
    requires
        0 <= i <= s.len(),
        forall|k: int| 0 <= k < s.len() ==> is_digit(#[trigger] s[k]),
    ensures
        digits_value(s.take(i)) <= digits_value(s),
        0 <= digits_value(s.take(i)),
    decreases s.len() - i,
{
    if i < s.len() {
        lemma_digits_value_grows(s, i + 1);
        assert(s.take(i + 1).drop_last() =~= s.take(i));
        assert(s.take(i + 1).last() == s[i]);
    } else {
        assert(s.take(i) =~= s);
        lemma_digits_value_nonneg(s);
    }
}

proof fn lemma_digits_value_nonneg(s: Seq<char>)
    requires
        forall|k: int| 0 <= k < s.len() ==> is_digit(#[trigger] s[k]),
    ensures
        0 <= digits_value(s),
    decreases s.len(),
{
    if s.len() > 0 {
        lemma_digits_value_nonneg(s.drop_last());
    }
}

/// Parses a decimal `i32` as std's `str::parse::<i32>` does.
pub fn parse_i32_chars(s: &[char]) -> (r: Option<i32>)
    ensures
        r == parse_i32(s@),
{
    let signed = s.len() > 0 && (s[0] == '+' || s[0] == '-');
    let negative = s.len() > 0 && s[0] == '-';
    let start: usize = if signed {
        1
    } else {
        0
    };
    let ghost digits = s@.skip(sign_len(s@));
    assert(start == sign_len(s@));
    if start == s.len() {
        return None;
    }
    let mut i: usize = start;
    while i < s.len()
        invariant
            start <= i <= s@.len(),
            digits == s@.skip(start as int),
            digits == s@.skip(sign_len(s@)),
            forall|k: int| start <= k < i ==> is_digit(#[trigger] s@[k]),
        decreases s@.len() - i,
    {
        if !('0' <= s[i] && s[i] <= '9') {
            assert(!is_digit(digits[i - start]));
            return None;
        }
        i = i + 1;
    }
    assert(all_digits(digits)) by {
        assert forall|k: int| 0 <= k < digits.len() implies is_digit(#[trigger] digits[k]) by {
            assert(digits[k] == s@[k + start]);
        }
    }
    let mut magnitude: i64 = 0;
    let mut j: usize = start;
    while j < s.len()
        invariant
            start <= j <= s@.len(),
            digits == s@.skip(start as int),
            digits == s@.skip(sign_len(s@)),
            negative == (s@.len() > 0 && s@[0] == '-'),
            all_digits(digits),
            magnitude == digits_value(digits.take(j - start)),
            0 <= magnitude <= 2147483648,
        decreases s@.len() - j,
    {
        let code: u32 = s[j] as u32;
        let d: i64 = (code as i64) - 48;
        proof {
            assert(digits.take(j + 1 - start).drop_last() =~= digits.take(j - start));
            assert(digits.take(j + 1 - start).last() == digits[j - start]);
            assert(digits[j - start] == s@[j as int]);
            assert(is_digit(digits[j - start]));
        }
        let next: i64 = magnitude * 10 + d;
        if next > 2147483648 {
            proof {
                lemma_digits_value_grows(digits, j + 1 - start);
            }
            return None;
        }
        magnitude = next;
        j = j + 1;
    }
    assert(digits.take(j - start) =~= digits);
    let value: i64 = if negative {
        -magnitude
    } else {
        magnitude
    };
    if value > 2147483647 {
        return None;
    }
    Some(value as i32)
}


/// Whether two character sequences are equal.
pub fn same_chars(a: &[char], b: &[char]) -> (r: bool)
    ensures
        r == (a@ == b@),
{
    if a.len() != b.len() {
        return false;
    }
    let mut i: usize = 0;
    while i < a.len()
        invariant
            a@.len() == b@.len(),
            i <= a@.len(),
            forall|k: int| 0 <= k < i ==> #[trigger] a@[k] == b@[k],
        decreases a@.len() - i,
    {
        if a[i] != b[i] {
            return false;
        }
        i = i + 1;
    }
    assert(a@ =~= b@);
    true
}

/// Whether two strings are equal.
pub fn same_text(a: &str, b: &str) -> (r: bool)
    ensures
        r == (a@ == b@),
{
    let x = chars_of(a);
    let y = chars_of(b);
    same_chars(x.as_slice(), y.as_slice())
}


proof fn lemma_digit_char(d: int)
    requires
        0 <= d < 10,
    ensures
        digit_char(d) as int == 48 + d,
        is_digit(digit_char(d)),
{

}

proof fn lemma_digits_round_trip(n: nat)
    ensures
        digits_of(n).len() > 0,
        all_digits(digits_of(n)),
        digits_value(digits_of(n)) == n,
        digits_of(n)[0] != '-' && digits_of(n)[0] != '+',
    decreases n,
{
    lemma_digit_char((n % 10) as int);
    if n < 10 {
        assert(n % 10 == n);
        let d = digits_of(n);
        assert(d.drop_last() =~= Seq::<char>::empty());
        assert(digits_value(d.drop_last()) == 0);
        assert(digits_value(d) == 10 * digits_value(d.drop_last()) + (d.last() as int - 48));
    }
    if n >= 10 {
        lemma_digits_round_trip(n / 10);
        let d = digits_of(n);
        assert(d.drop_last() =~= digits_of(n / 10));
        assert(d.last() == digit_char((n % 10) as int));
        assert(digits_value(d) == 10 * digits_value(d.drop_last()) + (d.last() as int - 48));
        assert(10 * ((n / 10) as int) + (n % 10) as int == n);
        assert forall|i: int| 0 <= i < d.len() implies is_digit(#[trigger] d[i]) by {
            if i < d.len() - 1 {
                assert(d[i] == digits_of(n / 10)[i]);
            }
        }
    }
}

/// Law: the decimal notation of an `i32` parses back to the same `i32`.
pub proof fn law_decimal_parses_back(v: i32)
    ensures
        parse_i32(decimal(v as int)) == Some(v),
{
    let magnitude: nat = if v < 0 {
        (-(v as int)) as nat
    } else {
        v as nat
    };
    lemma_digits_round_trip(magnitude);
    let text = decimal(v as int);
    if v < 0 {
        assert(text.skip(1) =~= digits_of(magnitude));
        assert(sign_len(text) == 1);
    } else {
        assert(text.skip(0) =~= digits_of(magnitude));
        assert(sign_len(text) == 0);
    }
}


/// Replacing every `from` by a text without `c` leaves no `c` that `s` did not
/// have; in particular no `from` is left when `to` has none.
pub proof fn lemma_replace_char_absent(s: Seq<char>, from: char, to: Seq<char>, c: char)
    requires
        !to.contains(c),
        c == from || !s.contains(c),
    ensures
        !replace_char(s, from, to).contains(c),
    decreases s.len(),
{
    if s.len() > 0 {
        let rest = s.drop_last();
        assert(c == from || !rest.contains(c)) by {
            if c != from && rest.contains(c) {
                let k = choose|k: int| 0 <= k < rest.len() && rest[k] == c;
                assert(s[k] == c);
            }
        }
        lemma_replace_char_absent(rest, from, to, c);
        let piece = if s.last() == from {
            to
        } else {
            seq![s.last()]
        };
        assert(!piece.contains(c)) by {
            if s.last() != from && piece.contains(c) {
                assert(piece[0] == c);
                assert(s[s.len() - 1] == c);
            }
        }
        let whole = replace_char(rest, from, to) + piece;
        assert forall|k: int| 0 <= k < whole.len() implies whole[k] != c by {
            if k < replace_char(rest, from, to).len() {
                assert(whole[k] == replace_char(rest, from, to)[k]);
            } else {
                assert(whole[k] == piece[k - replace_char(rest, from, to).len()]);
            }
        }
    }
}

} // verus!
