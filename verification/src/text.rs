//! Text as sequences of characters: the conversions between `str` and
//! character vectors, and the scanning primitives the parsers are built on.
//!
//! Every specification here is stated over `Seq<char>`, the view of `str` and
//! `String`. The executable functions work on `Vec<char>` so that a character
//! can be reached by its index in constant time.

use crate::order::{Rank, rank};
use vstd::prelude::*;
use vstd::std_specs::iter::IteratorSpec;
use vstd::utf8::{decode_utf8, valid_utf8};

verus! {

/// `String::push` appends one character to the end of the string.
pub assume_specification[ std::string::String::push ](s: &mut std::string::String, c: char)
    ensures
        final(s)@ == old(s)@.push(c),
;

/// The views of a sequence of character vectors.
pub open spec fn rows(v: Seq<Vec<char>>) -> Seq<Seq<char>> {
    v.map_values(|r: Vec<char>| r@)
}

/// The views of a sequence of strings.
pub open spec fn texts(v: Seq<String>) -> Seq<Seq<char>> {
    v.map_values(|s: String| s@)
}

/// The view of a text that may be missing.
pub open spec fn text_view(text: Option<String>) -> Option<Seq<char>> {
    match text {
        Some(t) => Some(t@),
        None => None,
    }
}

/// Whether `c` is white space: whether Unicode marks it `White_Space`.
pub open spec fn is_space(c: char) -> bool {
    let u = c as u32;
    ||| 0x09 <= u <= 0x0D
    ||| u == 0x20
    ||| u == 0x85
    ||| u == 0xA0
    ||| u == 0x1680
    ||| 0x2000 <= u <= 0x200A
    ||| u == 0x2028
    ||| u == 0x2029
    ||| u == 0x202F
    ||| u == 0x205F
    ||| u == 0x3000
}

/// Whether `c` is the double quote.
pub open spec fn is_quote(c: char) -> bool {
    c == '"'
}

/// The index of the first `c` in `s`, or the length of `s` when `c` does not
/// occur in it.
pub open spec fn first_index(s: Seq<char>, c: char) -> int
    decreases s.len(),
{
    if s.len() == 0 || s[0] == c {
        0
    } else {
        1 + first_index(s.drop_first(), c)
    }
}

/// The index of the last `c` in `s`, or `-1` when `c` does not occur in it.
pub open spec fn last_index(s: Seq<char>, c: char) -> int
    decreases s.len(),
{
    if s.len() == 0 {
        -1
    } else if s.last() == c {
        s.len() - 1
    } else {
        last_index(s.drop_last(), c)
    }
}

/// How many characters at the start of `s` satisfy `p`.
pub open spec fn leading(s: Seq<char>, p: spec_fn(char) -> bool) -> int
    decreases s.len(),
{
    if s.len() > 0 && p(s[0]) {
        1 + leading(s.drop_first(), p)
    } else {
        0
    }
}

/// How many characters at the end of `s` satisfy `p`.
pub open spec fn trailing(s: Seq<char>, p: spec_fn(char) -> bool) -> int
    decreases s.len(),
{
    if s.len() > 0 && p(s.last()) {
        1 + trailing(s.drop_last(), p)
    } else {
        0
    }
}

/// `s` without the characters at its start and at its end that satisfy `p`.
pub open spec fn strip(s: Seq<char>, p: spec_fn(char) -> bool) -> Seq<char> {
    let rest = s.skip(leading(s, p));
    rest.take(rest.len() - trailing(rest, p))
}

/// `s` without leading and trailing white space.
pub open spec fn trim(s: Seq<char>) -> Seq<char> {
    strip(s, |c: char| is_space(c))
}

/// `s` without leading and trailing double quotes.
pub open spec fn unquote(s: Seq<char>) -> Seq<char> {
    strip(s, |c: char| is_quote(c))
}

/// `s` without leading and trailing white space and then without leading and
/// trailing double quotes.
pub open spec fn clean(s: Seq<char>) -> Seq<char> {
    unquote(trim(s))
}

/// `line` without one carriage return at its end.
pub open spec fn strip_cr(line: Seq<char>) -> Seq<char> {
    if line.len() > 0 && line.last() == '\r' {
        line.drop_last()
    } else {
        line
    }
}

/// The lines of `s`. A line ends at a line feed, or at the end of `s`. The
/// line feed is not part of the line, nor is a carriage return directly
/// before it. A text that ends with a line feed has no empty last line, and
/// the empty text has no line at all.
pub open spec fn lines(s: Seq<char>) -> Seq<Seq<char>>
    decreases s.len(),
{
    if s.len() == 0 {
        Seq::empty()
    } else {
        let i = first_index(s, '\n');
        if 0 <= i < s.len() {
            seq![strip_cr(s.take(i))] + lines(s.skip(i + 1))
        } else {
            seq![s]
        }
    }
}

/// The pieces of `s` between the occurrences of `c`. There is always one
/// piece more than there are occurrences.
pub open spec fn split(s: Seq<char>, c: char) -> Seq<Seq<char>>
    decreases s.len(),
{
    let i = first_index(s, c);
    if 0 <= i < s.len() {
        seq![s.take(i)] + split(s.skip(i + 1), c)
    } else {
        seq![s]
    }
}

/// What stands before and after the first `c` in `s`, if `c` occurs.
pub open spec fn split_once(s: Seq<char>, c: char) -> Option<(Seq<char>, Seq<char>)> {
    let i = first_index(s, c);
    if i < s.len() {
        Some((s.take(i), s.skip(i + 1)))
    } else {
        None
    }
}

/// Whether `needle` occurs in `s` at index `i`.
pub open spec fn occurs_at(s: Seq<char>, needle: Seq<char>, i: int) -> bool {
    0 <= i && i + needle.len() <= s.len() && s.subrange(i, i + needle.len()) == needle
}

/// Whether `needle` occurs somewhere in `s`.
pub open spec fn contains_text(s: Seq<char>, needle: Seq<char>) -> bool {
    exists|i: int| occurs_at(s, needle, i)
}

/// The concatenation of all `parts`, in order.
pub open spec fn concat_all(parts: Seq<Seq<char>>) -> Seq<char>
    decreases parts.len(),
{
    if parts.len() == 0 {
        Seq::empty()
    } else {
        concat_all(parts.drop_last()) + parts.last()
    }
}

/// `s` with every `from` replaced by `to`.
pub open spec fn replace_char(s: Seq<char>, from: char, to: char) -> Seq<char> {
    s.map_values(
        |c: char|
            if c == from {
                to
            } else {
                c
            },
    )
}

/// The index of the first `c` is the one index before which `c` does not
/// occur and at which it stands, or the length where it does not occur.
pub proof fn lemma_first_index_is(s: Seq<char>, c: char, i: int)
    requires
        0 <= i <= s.len(),
        forall|k: int| 0 <= k < i ==> s[k] != c,
        i < s.len() ==> s[i] == c,
    ensures
        first_index(s, c) == i,
    decreases s.len(),
{
    if !(s.len() == 0 || s[0] == c) {
        let rest = s.drop_first();
        assert(i > 0);
        assert forall|k: int| 0 <= k < i - 1 implies rest[k] != c by {
            assert(rest[k] == s[k + 1]);
        }
        if i - 1 < rest.len() {
            assert(rest[i - 1] == s[i]);
        }
        lemma_first_index_is(rest, c, i - 1);
    }
}

/// The index of the last `c` is the one index after which `c` does not
/// occur and at which it stands, or `-1` where it does not occur.
proof fn lemma_last_index_is(s: Seq<char>, c: char, i: int)
    requires
        -1 <= i < s.len(),
        forall|k: int| i < k < s.len() ==> s[k] != c,
        i >= 0 ==> s[i] == c,
    ensures
        last_index(s, c) == i,
    decreases s.len(),
{
    if s.len() > 0 && s.last() != c {
        let rest = s.drop_last();
        assert(i < s.len() - 1);
        assert forall|k: int| i < k < rest.len() implies rest[k] != c by {
            assert(rest[k] == s[k]);
        }
        if i >= 0 {
            assert(rest[i] == s[i]);
        }
        lemma_last_index_is(rest, c, i);
    }
}

/// The characters counted at the start satisfy `p`, and the one after them
/// does not.
pub proof fn lemma_leading(s: Seq<char>, p: spec_fn(char) -> bool)
    ensures
        0 <= leading(s, p) <= s.len(),
        forall|k: int| 0 <= k < leading(s, p) ==> p(s[k]),
        leading(s, p) < s.len() ==> !p(s[leading(s, p)]),
    decreases s.len(),
{
    if s.len() > 0 && p(s[0]) {
        let rest = s.drop_first();
        lemma_leading(rest, p);
        assert forall|k: int| 0 <= k < leading(s, p) implies p(s[k]) by {
            if k > 0 {
                assert(s[k] == rest[k - 1]);
            }
        }
        if leading(s, p) < s.len() {
            assert(s[leading(s, p)] == rest[leading(rest, p)]);
        }
    }
}

/// The count at the start is the one number of characters that satisfy `p`
/// and are followed by one that does not, or by nothing.
proof fn lemma_leading_is(s: Seq<char>, p: spec_fn(char) -> bool, i: int)
    requires
        0 <= i <= s.len(),
        forall|k: int| 0 <= k < i ==> p(s[k]),
        i < s.len() ==> !p(s[i]),
    ensures
        leading(s, p) == i,
    decreases s.len(),
{
    if s.len() > 0 && p(s[0]) {
        let rest = s.drop_first();
        assert(i > 0);
        assert forall|k: int| 0 <= k < i - 1 implies p(rest[k]) by {
            assert(rest[k] == s[k + 1]);
        }
        if i - 1 < rest.len() {
            assert(rest[i - 1] == s[i]);
        }
        lemma_leading_is(rest, p, i - 1);
    }
}

/// The characters counted at the end satisfy `p`, and the one before them
/// does not.
pub proof fn lemma_trailing(s: Seq<char>, p: spec_fn(char) -> bool)
    ensures
        0 <= trailing(s, p) <= s.len(),
        forall|k: int| s.len() - trailing(s, p) <= k < s.len() ==> p(s[k]),
        trailing(s, p) < s.len() ==> !p(s[s.len() - trailing(s, p) - 1]),
    decreases s.len(),
{
    if s.len() > 0 && p(s.last()) {
        let rest = s.drop_last();
        lemma_trailing(rest, p);
        assert forall|k: int| s.len() - trailing(s, p) <= k < s.len() implies p(s[k]) by {
            if k < s.len() - 1 {
                assert(s[k] == rest[k]);
            }
        }
        if trailing(s, p) < s.len() {
            assert(s[s.len() - trailing(s, p) - 1] == rest[rest.len() - trailing(rest, p) - 1]);
        }
    }
}

/// The count at the end is the one number of characters that satisfy `p`
/// and are preceded by one that does not, or by nothing.
proof fn lemma_trailing_is(s: Seq<char>, p: spec_fn(char) -> bool, n: int)
    requires
        0 <= n <= s.len(),
        forall|k: int| s.len() - n <= k < s.len() ==> p(s[k]),
        n < s.len() ==> !p(s[s.len() - n - 1]),
    ensures
        trailing(s, p) == n,
    decreases s.len(),
{
    if s.len() > 0 && p(s.last()) {
        let rest = s.drop_last();
        assert(n > 0);
        assert forall|k: int| rest.len() - (n - 1) <= k < rest.len() implies p(rest[k]) by {
            assert(rest[k] == s[k]);
        }
        if n - 1 < rest.len() {
            assert(rest[rest.len() - (n - 1) - 1] == s[s.len() - n - 1]);
        }
        lemma_trailing_is(rest, p, n - 1);
    }
}

/// The bounds that `strip` keeps: `s.subrange(a, b)` is `strip(s, p)` when
/// everything before `a` and from `b` on satisfies `p`, and neither the
/// character at `a` nor the one before `b` does.
proof fn lemma_strip_is(s: Seq<char>, p: spec_fn(char) -> bool, a: int, b: int)
    requires
        0 <= a <= b <= s.len(),
        forall|k: int| 0 <= k < a ==> p(s[k]),
        forall|k: int| b <= k < s.len() ==> p(s[k]),
        a < s.len() ==> !p(s[a]),
        a < b ==> !p(s[b - 1]),
    ensures
        strip(s, p) == s.subrange(a, b),
{
    lemma_leading_is(s, p, a);
    let rest = s.skip(a);
    let n = s.len() - b;
    assert forall|k: int| rest.len() - n <= k < rest.len() implies p(rest[k]) by {
        assert(rest[k] == s[k + a]);
    }
    if n < rest.len() {
        assert(rest[rest.len() - n - 1] == s[b - 1]);
    }
    lemma_trailing_is(rest, p, n);
    assert(rest.take(rest.len() - n) =~= s.subrange(a, b));
}

/// The characters of `s`, in order.
pub fn chars_of(s: &str) -> (out: Vec<char>)
    ensures
        out@ == s@,
{
    let mut out: Vec<char> = Vec::new();
    let mut it = s.chars();
    loop
        invariant
            it.decrease() is Some,
            out@ + it.remaining() == s@,
        ensures
            out@ == s@,
        decreases it.decrease()->0,
    {
        match it.next() {
            Some(c) => {
                out.push(c);
            },
            None => {
                break ;
            },
        }
    }
    out
}

/// The string made of the characters of `chars` from index `from` up to, and
/// without, index `to`.
pub fn substring(chars: &Vec<char>, from: usize, to: usize) -> (out: String)
    requires
        from <= to <= chars.len(),
    ensures
        out@ == chars@.subrange(from as int, to as int),
{
    let mut out = String::new();
    let mut i: usize = from;
    while i < to
        invariant
            from <= i <= to <= chars.len(),
            out@ == chars@.subrange(from as int, i as int),
        decreases to - i,
    {
        out.push(chars[i]);
        assert(chars@.subrange(from as int, i + 1) =~= chars@.subrange(from as int, i as int).push(
            chars@[i as int],
        ));
        i += 1;
    }
    out
}

/// Appends `text` to `out`.
pub fn push_text(out: &mut String, text: &str)
    ensures
        final(out)@ == old(out)@ + text@,
{
    let chars = chars_of(text);
    let mut i: usize = 0;
    assert(chars@.take(0) =~= Seq::<char>::empty());
    assert(out@ + Seq::<char>::empty() =~= out@);
    while i < chars.len()
        invariant
            i <= chars@.len(),
            chars@ == text@,
            out@ == old(out)@ + chars@.take(i as int),
        decreases chars.len() - i,
    {
        out.push(chars[i]);
        assert(chars@.take(i + 1) =~= chars@.take(i as int).push(chars@[i as int]));
        assert(old(out)@ + chars@.take(i + 1) =~= (old(out)@ + chars@.take(i as int)).push(
            chars@[i as int],
        ));
        i += 1;
    }
    assert(chars@.take(i as int) =~= chars@);
}

/// The string made of the characters of `chars`, in order.
pub fn string_of(chars: &Vec<char>) -> (out: String)
    ensures
        out@ == chars@,
{
    let out = substring(chars, 0, chars.len());
    assert(chars@.subrange(0, chars.len() as int) =~= chars@);
    out
}

/// The characters of `chars` from index `from` up to, and without, index
/// `to`.
pub fn slice_of(chars: &Vec<char>, from: usize, to: usize) -> (out: Vec<char>)
    requires
        from <= to <= chars.len(),
    ensures
        out@ == chars@.subrange(from as int, to as int),
{
    let mut out: Vec<char> = Vec::new();
    let mut i: usize = from;
    while i < to
        invariant
            from <= i <= to <= chars.len(),
            out@ == chars@.subrange(from as int, i as int),
        decreases to - i,
    {
        out.push(chars[i]);
        assert(chars@.subrange(from as int, i + 1) =~= chars@.subrange(from as int, i as int).push(
            chars@[i as int],
        ));
        i += 1;
    }
    out
}

/// Whether `c` is white space.
pub fn is_space_char(c: char) -> (r: bool)
    ensures
        r == is_space(c),
{
    let u: u32 = c as u32;
    (0x09 <= u && u <= 0x0D) || u == 0x20 || u == 0x85 || u == 0xA0 || u == 0x1680 || (0x2000 <= u
        && u <= 0x200A) || u == 0x2028 || u == 0x2029 || u == 0x202F || u == 0x205F || u == 0x3000
}

/// The index of the first `c` in `chars` at or after `from`, or the length
/// of `chars` when there is none.
pub fn find_char(chars: &Vec<char>, c: char, from: usize) -> (i: usize)
    requires
        from <= chars.len(),
    ensures
        from <= i <= chars.len(),
        i - from == first_index(chars@.skip(from as int), c),
{
    let mut i: usize = from;
    while i < chars.len() && chars[i] != c
        invariant
            from <= i <= chars.len(),
            forall|k: int| from <= k < i ==> chars@[k] != c,
        decreases chars.len() - i,
    {
        i += 1;
    }
    proof {
        let rest = chars@.skip(from as int);
        assert forall|k: int| 0 <= k < i - from implies rest[k] != c by {
            assert(rest[k] == chars@[k + from]);
        }
        lemma_first_index_is(rest, c, i - from);
    }
    i
}

/// The bounds of `chars[from..to]` without its leading and trailing white
/// space.
pub fn trim_bounds(chars: &Vec<char>, from: usize, to: usize) -> (r: (usize, usize))
    requires
        from <= to <= chars.len(),
    ensures
        from <= r.0 <= r.1 <= to,
        chars@.subrange(r.0 as int, r.1 as int) == trim(chars@.subrange(from as int, to as int)),
{
    let mut a: usize = from;
    while a < to && is_space_char(chars[a])
        invariant
            from <= a <= to <= chars.len(),
            forall|k: int| from <= k < a ==> is_space(chars@[k]),
        decreases to - a,
    {
        a += 1;
    }
    let mut b: usize = to;
    while b > a && is_space_char(chars[b - 1])
        invariant
            a <= b <= to <= chars.len(),
            forall|k: int| b <= k < to ==> is_space(chars@[k]),
        decreases b,
    {
        b -= 1;
    }
    proof {
        let s = chars@.subrange(from as int, to as int);
        let p = |c: char| is_space(c);
        assert forall|k: int| 0 <= k < a - from implies p(s[k]) by {
            assert(s[k] == chars@[k + from]);
        }
        assert forall|k: int| b - from <= k < s.len() implies p(s[k]) by {
            assert(s[k] == chars@[k + from]);
        }
        lemma_strip_is(s, p, a - from, b - from);
        assert(s.subrange(a - from, b - from) =~= chars@.subrange(a as int, b as int));
    }
    (a, b)
}

/// The bounds of `chars[from..to]` without its leading and trailing double
/// quotes.
pub fn unquote_bounds(chars: &Vec<char>, from: usize, to: usize) -> (r: (usize, usize))
    requires
        from <= to <= chars.len(),
    ensures
        from <= r.0 <= r.1 <= to,
        chars@.subrange(r.0 as int, r.1 as int) == unquote(
            chars@.subrange(from as int, to as int),
        ),
{
    let mut a: usize = from;
    while a < to && chars[a] == '"'
        invariant
            from <= a <= to <= chars.len(),
            forall|k: int| from <= k < a ==> is_quote(chars@[k]),
        decreases to - a,
    {
        a += 1;
    }
    let mut b: usize = to;
    while b > a && chars[b - 1] == '"'
        invariant
            a <= b <= to <= chars.len(),
            forall|k: int| b <= k < to ==> is_quote(chars@[k]),
        decreases b,
    {
        b -= 1;
    }
    proof {
        let s = chars@.subrange(from as int, to as int);
        let p = |c: char| is_quote(c);
        assert forall|k: int| 0 <= k < a - from implies p(s[k]) by {
            assert(s[k] == chars@[k + from]);
        }
        assert forall|k: int| b - from <= k < s.len() implies p(s[k]) by {
            assert(s[k] == chars@[k + from]);
        }
        lemma_strip_is(s, p, a - from, b - from);
        assert(s.subrange(a - from, b - from) =~= chars@.subrange(a as int, b as int));
    }
    (a, b)
}

/// The bounds of `chars[from..to]` without white space at its ends and then
/// without double quotes at its ends.
pub fn clean_bounds(chars: &Vec<char>, from: usize, to: usize) -> (r: (usize, usize))
    requires
        from <= to <= chars.len(),
    ensures
        from <= r.0 <= r.1 <= to,
        chars@.subrange(r.0 as int, r.1 as int) == clean(chars@.subrange(from as int, to as int)),
{
    let (a, b) = trim_bounds(chars, from, to);
    unquote_bounds(chars, a, b)
}

/// The lines of `chars`.
pub fn lines_of(chars: &Vec<char>) -> (out: Vec<Vec<char>>)
    ensures
        rows(out@) == lines(chars@),
{
    let mut out: Vec<Vec<char>> = Vec::new();
    let mut pos: usize = 0;
    assert(chars@.skip(0) =~= chars@);
    assert(rows(out@) + lines(chars@) =~= lines(chars@));
    while pos < chars.len()
        invariant
            pos <= chars.len(),
            rows(out@) + lines(chars@.skip(pos as int)) == lines(chars@),
        decreases chars.len() - pos,
    {
        let end = find_char(chars, '\n', pos);
        let ghost rest = chars@.skip(pos as int);
        let ghost before = rows(out@);
        let stop = if end < chars.len() && end > pos && chars[end - 1] == '\r' {
            end - 1
        } else {
            end
        };
        let line = slice_of(chars, pos, stop);
        out.push(line);
        proof {
            assert(rows(out@) =~= before.push(line@));
            assert(rest.take(end - pos) =~= chars@.subrange(pos as int, end as int));
            if end < chars.len() {
                assert(rest.skip(end - pos + 1) =~= chars@.skip(end + 1));
                if end > pos {
                    assert(rest.take(end - pos).last() == chars@[end - 1]);
                }
                assert(line@ =~= strip_cr(rest.take(end - pos)));
                assert(before.push(line@) + lines(chars@.skip(end + 1)) =~= before + lines(rest));
            } else {
                assert(rest =~= chars@.subrange(pos as int, end as int));
                assert(chars@.skip(end as int).len() == 0);
                assert(before.push(line@) + lines(chars@.skip(end as int)) =~= before + lines(
                    rest,
                ));
            }
        }
        pos = if end < chars.len() {
            end + 1
        } else {
            end
        };
    }
    assert(chars@.skip(pos as int).len() == 0);
    assert(rows(out@) + lines(chars@.skip(pos as int)) =~= rows(out@));
    out
}

/// The pieces of `chars` between the occurrences of `c`.
pub fn split_text(chars: &Vec<char>, c: char) -> (out: Vec<Vec<char>>)
    ensures
        rows(out@) == split(chars@, c),
{
    let mut out: Vec<Vec<char>> = Vec::new();
    let mut pos: usize = 0;
    assert(chars@.skip(0) =~= chars@);
    assert(rows(out@) + split(chars@, c) =~= split(chars@, c));
    loop
        invariant_except_break
            pos <= chars.len(),
            rows(out@) + split(chars@.skip(pos as int), c) == split(chars@, c),
        ensures
            rows(out@) == split(chars@, c),
        decreases chars.len() - pos,
    {
        let end = find_char(chars, c, pos);
        let ghost rest = chars@.skip(pos as int);
        let ghost before = rows(out@);
        let piece = slice_of(chars, pos, end);
        out.push(piece);
        proof {
            assert(rows(out@) =~= before.push(piece@));
            assert(rest.take(end - pos) =~= chars@.subrange(pos as int, end as int));
        }
        if end < chars.len() {
            proof {
                assert(rest.skip(end - pos + 1) =~= chars@.skip(end + 1));
                assert(before.push(piece@) + split(chars@.skip(end + 1), c) =~= before + split(
                    rest,
                    c,
                ));
            }
            pos = end + 1;
        } else {
            proof {
                assert(rest =~= chars@.subrange(pos as int, end as int));
                assert(before.push(piece@) =~= before + split(rest, c));
            }
            break ;
        }
    }
    out
}

/// Whether `needle` occurs in `chars` at index `i`.
pub fn occurs_here(chars: &Vec<char>, needle: &Vec<char>, i: usize) -> (r: bool)
    ensures
        r == occurs_at(chars@, needle@, i as int),
{
    if needle.len() > chars.len() || i > chars.len() - needle.len() {
        return false;
    }
    let mut k: usize = 0;
    while k < needle.len()
        invariant
            k <= needle.len(),
            i + needle.len() <= chars.len(),
            forall|j: int| 0 <= j < k ==> chars@[i + j] == needle@[j],
        decreases needle.len() - k,
    {
        if chars[i + k] != needle[k] {
            proof {
                let part = chars@.subrange(i as int, i + needle.len());
                assert(part[k as int] == chars@[i + k]);
            }
            return false;
        }
        k += 1;
    }
    assert(chars@.subrange(i as int, i + needle.len()) =~= needle@);
    true
}

/// Whether `chars` begins with `prefix`.
pub fn starts_with(chars: &Vec<char>, prefix: &Vec<char>) -> (r: bool)
    ensures
        r == prefix@.is_prefix_of(chars@),
{
    occurs_here(chars, prefix, 0)
}

/// Whether `chars` ends with `suffix`.
pub fn ends_with(chars: &Vec<char>, suffix: &Vec<char>) -> (r: bool)
    ensures
        r == suffix@.is_suffix_of(chars@),
{
    if suffix.len() > chars.len() {
        return false;
    }
    occurs_here(chars, suffix, chars.len() - suffix.len())
}

/// Whether `needle` occurs somewhere in `chars`.
pub fn contains(chars: &Vec<char>, needle: &Vec<char>) -> (r: bool)
    ensures
        r == contains_text(chars@, needle@),
{
    if needle.len() > chars.len() {
        assert forall|i: int| !occurs_at(chars@, needle@, i) by {}
        return false;
    }
    let last: usize = chars.len() - needle.len();
    let mut i: usize = 0;
    loop
        invariant
            i <= last,
            last == chars.len() - needle.len(),
            forall|j: int| 0 <= j < i ==> !occurs_at(chars@, needle@, j),
        decreases last - i,
    {
        if occurs_here(chars, needle, i) {
            return true;
        }
        if i == last {
            assert forall|j: int| !occurs_at(chars@, needle@, j) by {}
            return false;
        }
        i += 1;
    }
}

/// The index of the first of `items` that is one of `wanted`, or the length
/// of `items` when none is.
pub open spec fn first_of(items: Seq<Seq<char>>, wanted: Seq<Seq<char>>) -> int
    decreases items.len(),
{
    if items.len() == 0 || wanted.contains(items[0]) {
        0
    } else {
        1 + first_of(items.drop_first(), wanted)
    }
}

/// The index of the first wanted item is the one index before which no
/// item is wanted and at which one is, or the length where none is.
proof fn lemma_first_of_is(items: Seq<Seq<char>>, wanted: Seq<Seq<char>>, i: int)
    requires
        0 <= i <= items.len(),
        forall|k: int| 0 <= k < i ==> !wanted.contains(items[k]),
        i < items.len() ==> wanted.contains(items[i]),
    ensures
        first_of(items, wanted) == i,
    decreases items.len(),
{
    if !(items.len() == 0 || wanted.contains(items[0])) {
        let rest = items.drop_first();
        assert(i > 0);
        assert forall|k: int| 0 <= k < i - 1 implies !wanted.contains(rest[k]) by {
            assert(rest[k] == items[k + 1]);
        }
        if i - 1 < rest.len() {
            assert(rest[i - 1] == items[i]);
        }
        lemma_first_of_is(rest, wanted, i - 1);
    }
}

/// The views of a sequence of string slices.
pub open spec fn slices(v: Seq<&str>) -> Seq<Seq<char>> {
    v.map_values(|s: &str| s@)
}

/// Whether `a` and `b` are the same text.
pub fn same_text(a: &str, b: &str) -> (r: bool)
    ensures
        r == (a@ == b@),
{
    match rank(a, b) {
        Rank::Same => true,
        _ => false,
    }
}

/// Whether `text` is one of `wanted`.
pub fn one_of(text: &str, wanted: &Vec<&str>) -> (r: bool)
    ensures
        r == slices(wanted@).contains(text@),
{
    let mut i: usize = 0;
    while i < wanted.len()
        invariant
            i <= wanted@.len(),
            forall|k: int| 0 <= k < i ==> slices(wanted@)[k] != text@,
        decreases wanted.len() - i,
    {
        if same_text(wanted[i], text) {
            assert(slices(wanted@)[i as int] == text@);
            return true;
        }
        i += 1;
    }
    false
}

/// Whether `text` is one of `items`.
pub fn among(text: &str, items: &Vec<String>) -> (r: bool)
    ensures
        r == texts(items@).contains(text@),
{
    let mut i: usize = 0;
    while i < items.len()
        invariant
            i <= items@.len(),
            forall|k: int| 0 <= k < i ==> texts(items@)[k] != text@,
        decreases items.len() - i,
    {
        if same_text(items[i].as_str(), text) {
            assert(texts(items@)[i as int] == text@);
            return true;
        }
        i += 1;
    }
    false
}

/// The index of the first of `items` that is one of `wanted`, or the length
/// of `items` when none is.
pub fn find_one_of(items: &Vec<String>, wanted: &Vec<&str>) -> (i: usize)
    ensures
        i <= items@.len(),
        i == first_of(texts(items@), slices(wanted@)),
{
    let mut i: usize = 0;
    while i < items.len()
        invariant
            i <= items@.len(),
            forall|k: int| 0 <= k < i ==> !slices(wanted@).contains(texts(items@)[k]),
        decreases items.len() - i,
    {
        if one_of(items[i].as_str(), wanted) {
            proof {
                lemma_first_of_is(texts(items@), slices(wanted@), i as int);
            }
            return i;
        }
        i += 1;
    }
    proof {
        lemma_first_of_is(texts(items@), slices(wanted@), i as int);
    }
    i
}

/// Whether `text` ends with `suffix`.
pub fn text_ends_with(text: &str, suffix: &str) -> (r: bool)
    ensures
        r == suffix@.is_suffix_of(text@),
{
    ends_with(&chars_of(text), &chars_of(suffix))
}

/// Whether `text` begins with `prefix`.
pub fn text_starts_with(text: &str, prefix: &str) -> (r: bool)
    ensures
        r == prefix@.is_prefix_of(text@),
{
    starts_with(&chars_of(text), &chars_of(prefix))
}

/// Whether `needle` occurs somewhere in `text`.
pub fn text_contains(text: &str, needle: &str) -> (r: bool)
    ensures
        r == contains_text(text@, needle@),
{
    contains(&chars_of(text), &chars_of(needle))
}

/// The characters of all `parts`, one text after the other.
pub fn join_all(parts: &Vec<String>) -> (out: Vec<char>)
    ensures
        out@ == concat_all(texts(parts@)),
{
    let mut out: Vec<char> = Vec::new();
    let mut i: usize = 0;
    assert(texts(parts@).take(0) =~= Seq::<Seq<char>>::empty());
    while i < parts.len()
        invariant
            i <= parts@.len(),
            out@ == concat_all(texts(parts@).take(i as int)),
        decreases parts.len() - i,
    {
        let ghost before = out@;
        let chars = chars_of(parts[i].as_str());
        let mut k: usize = 0;
        assert(before + chars@.take(0) =~= before);
        while k < chars.len()
            invariant
                k <= chars@.len(),
                out@ == before + chars@.take(k as int),
            decreases chars.len() - k,
        {
            out.push(chars[k]);
            assert(before + chars@.take(k + 1) =~= (before + chars@.take(k as int)).push(
                chars@[k as int],
            ));
            k += 1;
        }
        proof {
            assert(chars@.take(k as int) =~= chars@);
            let upto = texts(parts@).take(i + 1);
            assert(upto.drop_last() =~= texts(parts@).take(i as int));
            assert(upto.last() == chars@);
        }
        i += 1;
    }
    assert(texts(parts@).take(i as int) =~= texts(parts@));
    out
}

/// `std::str::from_utf8`: the text that the bytes encode in UTF-8, and
/// nothing where they are not UTF-8.
#[verifier::external_body]
pub(crate) fn utf8_text(bytes: &[u8]) -> (r: Option<&str>)
    ensures
        match r {
            Some(text) => valid_utf8(bytes@) && text@ == decode_utf8(bytes@),
            None => !valid_utf8(bytes@),
        },
{
    std::str::from_utf8(bytes).ok()
}

/// The text that `bytes` may hold: what they encode in UTF-8.
pub open spec fn decoded(bytes: Seq<u8>) -> Option<Seq<char>> {
    if valid_utf8(bytes) {
        Some(decode_utf8(bytes))
    } else {
        None
    }
}

/// `dir` and `name` as one path: `name` itself where it begins with `/`,
/// else `name` below `dir`, with a `/` between the two unless `dir` is empty or
/// ends with one.
pub open spec fn path_join(dir: Seq<char>, name: Seq<char>) -> Seq<char> {
    if "/"@.is_prefix_of(name) {
        name
    } else if dir.len() == 0 || dir.last() == '/' {
        dir + name
    } else {
        dir + "/"@ + name
    }
}

/// The directory of a path: what stands before its last `/`, or `/` where
/// nothing stands before it. A path without `/` has none.
pub open spec fn path_parent(path: Seq<char>) -> Option<Seq<char>> {
    let at = last_index(path, '/');
    if at < 0 {
        None
    } else if at == 0 {
        Some("/"@)
    } else {
        Some(path.take(at))
    }
}

/// The last name of a path: what stands after its last `/`.
pub open spec fn path_file_name(path: Seq<char>) -> Seq<char> {
    path.skip(last_index(path, '/') + 1)
}

/// The index of the last `c` in `chars`, or nothing where there is none.
pub fn find_last(chars: &Vec<char>, c: char) -> (r: Option<usize>)
    ensures
        match r {
            Some(i) => i < chars@.len() && i == last_index(chars@, c),
            None => last_index(chars@, c) == -1,
        },
{
    let mut i: usize = chars.len();
    while i > 0 && chars[i - 1] != c
        invariant
            i <= chars@.len(),
            forall|k: int| i <= k < chars@.len() ==> chars@[k] != c,
        decreases i,
    {
        i -= 1;
    }
    proof {
        lemma_last_index_is(chars@, c, i - 1);
    }
    if i == 0 {
        None
    } else {
        Some(i - 1)
    }
}

/// `dir` and `name` as one path.
pub fn join_path(dir: &str, name: &str) -> (out: String)
    ensures
        out@ == path_join(dir@, name@),
{
    if text_starts_with(name, "/") {
        return name.to_owned();
    }
    let chars = chars_of(dir);
    let mut out = dir.to_owned();
    if chars.len() > 0 && chars[chars.len() - 1] != '/' {
        out.push('/');
        proof {
            reveal_strlit("/");
            assert(dir@.push('/') =~= dir@ + "/"@);
        }
    }
    let mut k: usize = 0;
    let more = chars_of(name);
    let ghost before = out@;
    assert(before + more@.take(0) =~= before);
    while k < more.len()
        invariant
            k <= more@.len(),
            out@ == before + more@.take(k as int),
        decreases more.len() - k,
    {
        out.push(more[k]);
        assert(before + more@.take(k + 1) =~= (before + more@.take(k as int)).push(more@[k as int]));
        k += 1;
    }
    assert(more@.take(k as int) =~= more@);
    out
}

/// The directory of `path`.
pub fn parent_of(path: &str) -> (r: Option<String>)
    ensures
        match r {
            Some(dir) => path_parent(path@) == Some(dir@),
            None => path_parent(path@) is None,
        },
{
    let chars = chars_of(path);
    match find_last(&chars, '/') {
        Some(at) => {
            if at == 0 {
                Some("/".to_owned())
            } else {
                Some(substring(&chars, 0, at))
            }
        },
        None => None,
    }
}

/// The last name of `path`.
pub fn file_name_of(path: &str) -> (name: String)
    ensures
        name@ == path_file_name(path@),
{
    let chars = chars_of(path);
    let from = match find_last(&chars, '/') {
        Some(at) => at + 1,
        None => 0,
    };
    let name = substring(&chars, from, chars.len());
    assert(chars@.subrange(from as int, chars@.len() as int) =~= chars@.skip(from as int));
    name
}

} // verus!
