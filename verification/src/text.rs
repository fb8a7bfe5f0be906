//! Character-level helpers over `str`: UTF-8 widths, line splitting and
//! line-terminator trimming, each with the mathematical model it computes.

use vstd::prelude::*;
use vstd::string::*;
use vstd::utf8::*;
use vstd::std_specs::iter::IteratorSpec;

verus! {

broadcast use vstd::utf8::char_is_scalar;

/// Number of bytes in the UTF-8 encoding of `s`.
pub open spec fn byte_len(s: Seq<char>) -> nat {
    encode_utf8(s).len()
}

/// Number of bytes in the UTF-8 encoding of one character.
pub open spec fn char_width(c: char) -> nat {
    encode_scalar(c as u32).len()
}

/// The byte length of a concatenation is the sum of the byte lengths.
pub proof fn lemma_byte_len_concat(a: Seq<char>, b: Seq<char>)
    ensures
        byte_len(a + b) == byte_len(a) + byte_len(b),
    decreases a.len(),
{
    if a.len() == 0 {
        assert(a + b =~= b);
    } else {
        lemma_byte_len_concat(a.drop_first(), b);
        assert((a + b).drop_first() =~= a.drop_first() + b);
    }
}

/// The byte length of a one-character sequence is that character's width.
pub proof fn lemma_byte_len_single(c: char)
    ensures
        byte_len(seq![c]) == char_width(c),
{
    let e = Seq::<char>::empty();
    assert(seq![c].drop_first() =~= e);
    assert(encode_utf8(e) =~= Seq::<u8>::empty());
    assert(encode_scalar(c as u32) + Seq::<u8>::empty() =~= encode_scalar(c as u32));
}

/// A nonempty text has at least one byte.
pub proof fn lemma_byte_len_positive(s: Seq<char>)
    requires
        s.len() > 0,
    ensures
        byte_len(s) >= 1,
{
    lemma_byte_len_concat(seq![s[0]], s.drop_first());
    assert(seq![s[0]] + s.drop_first() =~= s);
    lemma_byte_len_single(s[0]);
}

/// A prefix never has more bytes than the whole.
pub proof fn lemma_byte_len_prefix(s: Seq<char>, k: int)
    requires
        0 <= k <= s.len(),
    ensures
        byte_len(s.take(k)) <= byte_len(s),
{
    lemma_byte_len_concat(s.take(k), s.skip(k));
    assert(s.take(k) + s.skip(k) =~= s);
}

/// The UTF-8 width of a character, from its scalar value.
pub fn utf8_width(c: char) -> (w: usize)
    ensures
        w == char_width(c),
        1 <= w <= 4,
{
    let u = c as u32;
    if u < 0x80 {
        1
    } else if u < 0x800 {
        2
    } else if u < 0x10000 {
        3
    } else {
        4
    }
}

/// Byte length of a string slice, bounded by the machine word.
pub fn str_byte_len(s: &str) -> (n: usize)
    ensures
        n == byte_len(s@),
{
    let b = s.as_bytes();
    b.len()
}

/// The characters of `s`, in order.
pub fn chars_of(s: &str) -> (r: Vec<char>)
    ensures
        r@ == s@,
{
    broadcast use vstd::string::axiom_spec_iter, vstd::string::next_postcondition;

    let mut it = s.chars();
    let mut out: Vec<char> = Vec::new();
    loop
        invariant
            out@ + it.remaining() == s@,
        ensures
            out@ == s@,
        decreases s@.len() - out@.len(),
    {
        match it.next() {
            Some(c) => {
                out.push(c);
            },
            None => {
                assert(out@ + it.remaining() =~= out@);
                break;
            },
        }
    }
    out
}


/// Views of a sequence of strings.
pub open spec fn views(v: Seq<String>) -> Seq<Seq<char>> {
    v.map_values(|x: String| x@)
}

/// Length of the first line of a nonempty `s`, its terminator included. A `\r`
/// directly followed by `\n` (under `cr`) forms one terminator of two characters.
pub open spec fn first_line_len(s: Seq<char>, cr: bool) -> nat
    decreases s.len(),
{
    if s.len() == 0 {
        0
    } else if s[0] == '\n' {
        1
    } else if cr && s[0] == '\r' {
        if s.len() >= 2 && s[1] == '\n' {
            2
        } else {
            1
        }
    } else {
        1 + first_line_len(s.drop_first(), cr)
    }
}

/// A nonempty text's first line is nonempty and fits in the text.
pub proof fn lemma_first_line_len_bounds(s: Seq<char>, cr: bool)
    requires
        s.len() > 0,
    ensures
        1 <= first_line_len(s, cr) <= s.len(),
    decreases s.len(),
{
    if s[0] != '\n' && !(cr && s[0] == '\r') {
        if s.len() > 1 {
            lemma_first_line_len_bounds(s.drop_first(), cr);
        } else {
            assert(first_line_len(s.drop_first(), cr) == 0);
        }
    }
}

/// The lines of `s`, each keeping its terminator; the last may lack one.
/// With `cr`, the terminators are `\n`, `\r\n` and a lone `\r`; without it,
/// only `\n`.
pub open spec fn split_lines(s: Seq<char>, cr: bool) -> Seq<Seq<char>>
    decreases s.len(),
{
    if s.len() == 0 {
        seq![]
    } else {
        let k = first_line_len(s, cr);
        proof {
            lemma_first_line_len_bounds(s, cr);
        }
        seq![s.take(k as int)] + split_lines(s.skip(k as int), cr)
    }
}

/// Joining the lines gives back the text.
pub proof fn lemma_split_lines_flatten(s: Seq<char>, cr: bool)
    ensures
        split_lines(s, cr).flatten() == s,
    decreases s.len(),
{
    if s.len() > 0 {
        let k = first_line_len(s, cr);
        lemma_first_line_len_bounds(s, cr);
        lemma_split_lines_flatten(s.skip(k as int), cr);
        let ls = split_lines(s, cr);
        assert(ls.drop_first() =~= split_lines(s.skip(k as int), cr));
        assert(s.take(k as int) + s.skip(k as int) =~= s);
    }
}

/// When `s[k]` is the first `\n` of `s`, the first line (of the `\n`-only
/// split) has `k + 1` characters; with no `\n` at all it is the whole text.
pub proof fn lemma_first_line_len_lf(s: Seq<char>, k: int)
    requires
        0 <= k <= s.len(),
        forall|j: int| 0 <= j < k ==> s[j] != '\n',
        k < s.len() ==> s[k] == '\n',
    ensures
        first_line_len(s, false) == if k < s.len() { k + 1 } else { k },
    decreases k,
{
    if k > 0 {
        lemma_first_line_len_lf(s.drop_first(), k - 1);
    }
}

/// `s` without one trailing `c`, if it ends in `c`.
pub open spec fn strip_last(s: Seq<char>, c: char) -> Seq<char> {
    if s.len() > 0 && s.last() == c {
        s.drop_last()
    } else {
        s
    }
}

/// A line for display: one trailing `\n` removed, then one trailing `\r`.
pub open spec fn trim_newline(s: Seq<char>) -> Seq<char> {
    strip_last(strip_last(s, '\n'), '\r')
}

/// A line as `str::lines` yields it: a trailing `\n` is removed together with
/// a `\r` right before it; a line without `\n` stays as it is.
pub open spec fn strip_line_ending(s: Seq<char>) -> Seq<char> {
    if s.len() > 0 && s.last() == '\n' {
        strip_last(s.drop_last(), '\r')
    } else {
        s
    }
}

/// The lines of `s` as `str::lines` yields them.
pub open spec fn plain_lines(s: Seq<char>) -> Seq<Seq<char>> {
    split_lines(s, false).map_values(|l: Seq<char>| strip_line_ending(l))
}

/// Append a character. Trusted: calls `String::push`, which appends the
/// character to the end of the string.
#[verifier::external_body]
pub(crate) fn push_char(s: &mut String, c: char)
    ensures
        final(s)@ == old(s)@.push(c),
{
    s.push(c);
}

/// A string of the characters `from..to` of `chars`.
pub fn string_from(chars: &Vec<char>, from: usize, to: usize) -> (r: String)
    requires
        from <= to <= chars.len(),
    ensures
        r@ == chars@.subrange(from as int, to as int),
{
    let mut r = String::new();
    let mut i = from;
    while i < to
        invariant
            from <= i <= to <= chars.len(),
            r@ == chars@.subrange(from as int, i as int),
        decreases to - i,
    {
        push_char(&mut r, chars[i]);
        i = i + 1;
        assert(r@ =~= chars@.subrange(from as int, i as int));
    }
    r
}

/// An owned copy of the characters `from..to` of `s`.
pub fn substring(s: &str, from: usize, to: usize) -> (r: String)
    requires
        from <= to <= s@.len(),
    ensures
        r@ == s@.subrange(from as int, to as int),
{
    let sub = s.substring_char(from, to);
    String::from_str(sub)
}

/// Strip a single trailing line terminator for display: one `\n`, then one `\r`.
pub fn trim_nl(s: &str) -> (r: String)
    ensures
        r@ == trim_newline(s@),
{
    let n = s.unicode_len();
    let mut end = n;
    if end > 0 && s.get_char(end - 1) == '\n' {
        end = end - 1;
    }
    if end > 0 && s.get_char(end - 1) == '\r' {
        end = end - 1;
    }
    let r = substring(s, 0, end);
    assert(s@.subrange(0, n as int) =~= s@);
    assert(s@.subrange(0, n - 1) =~= s@.drop_last());
    assert(end < n ==> s@.drop_last().subrange(0, end as int) =~= s@.subrange(0, end as int));
    proof {
        if end + 2 == n {
            assert(s@.drop_last().drop_last() =~= s@.subrange(0, end as int));
        }
    }
    r
}

/// The lines of `text`, each with its `\n` kept; the last one may lack it.
pub fn lines_with_endings(text: &str) -> (r: Vec<String>)
    ensures
        views(r@) == split_lines(text@, false),
{
    let chars = chars_of(text);
    let n = chars.len();
    let mut out: Vec<String> = Vec::new();
    let mut start: usize = 0;
    let mut i: usize = 0;
    assert(text@.skip(0) =~= text@);
    assert(views(out@) + split_lines(text@, false) =~= split_lines(text@, false));
    while i < n
        invariant
            n == text@.len(),
            chars@ == text@,
            start <= i <= n,
            forall|j: int| start <= j < i ==> text@[j] != '\n',
            views(out@) + split_lines(text@.skip(start as int), false) == split_lines(text@, false),
        decreases n - i,
    {
        if chars[i] == '\n' {
            let line = string_from(&chars, start, i + 1);
            proof {
                let rest = text@.skip(start as int);
                lemma_first_line_len_lf(rest, (i - start) as int);
                assert(rest.take(i + 1 - start) =~= text@.subrange(start as int, i + 1));
                assert(rest.skip(i + 1 - start) =~= text@.skip(i + 1));
                assert(views(out@.push(line)) =~= views(out@).push(line@));
                assert(split_lines(rest, false) =~= seq![line@] + split_lines(text@.skip(i + 1), false));
                assert(views(out@).push(line@) + split_lines(text@.skip(i + 1), false)
                    =~= views(out@) + split_lines(rest, false));
            }
            out.push(line);
            start = i + 1;
        }
        i = i + 1;
    }
    if start < n {
        let line = string_from(&chars, start, n);
        proof {
            let rest = text@.skip(start as int);
            lemma_first_line_len_lf(rest, (n - start) as int);
            assert(rest.take(n - start) =~= text@.subrange(start as int, n as int));
            assert(rest.skip(n - start) =~= Seq::<char>::empty());
            assert(split_lines(rest.skip(n - start), false) =~= Seq::<Seq<char>>::empty());
            assert(views(out@.push(line)) =~= views(out@).push(line@));
            assert(split_lines(rest, false) =~= seq![line@]);
        }
        out.push(line);
    } else {
        assert(split_lines(text@.skip(start as int), false) =~= Seq::<Seq<char>>::empty());
        assert(views(out@) + Seq::<Seq<char>>::empty() =~= views(out@));
    }
    out
}

/// The lines of `text` as `str::lines` yields them: split at `\n`, with the
/// terminator (and a `\r` right before it) removed.
pub fn text_lines(text: &str) -> (r: Vec<String>)
    ensures
        views(r@) == plain_lines(text@),
{
    let raw = lines_with_endings(text);
    let mut out: Vec<String> = Vec::new();
    let mut i: usize = 0;
    while i < raw.len()
        invariant
            i <= raw.len(),
            views(raw@) == split_lines(text@, false),
            views(out@) =~= views(raw@).take(i as int).map_values(|l: Seq<char>| strip_line_ending(l)),
        decreases raw.len() - i,
    {
        let l = raw[i].as_str();
        let n = l.unicode_len();
        let mut end = n;
        if end > 0 && l.get_char(end - 1) == '\n' {
            end = end - 1;
            if end > 0 && l.get_char(end - 1) == '\r' {
                end = end - 1;
            }
        }
        let s = substring(l, 0, end);
        proof {
            assert(views(raw@)[i as int] == l@);
            assert(l@.subrange(0, n as int) =~= l@);
            assert(n > 0 ==> l@.subrange(0, n - 1) =~= l@.drop_last());
            if end + 2 == n {
                assert(l@.drop_last().drop_last() =~= l@.subrange(0, end as int));
            }
            assert(s@ == strip_line_ending(l@));
            assert(views(out@.push(s)) =~= views(out@).push(s@));
            assert(views(raw@).take(i + 1) =~= views(raw@).take(i as int).push(l@));
        }
        out.push(s);
        i = i + 1;
    }
    assert(views(raw@).take(raw.len() as int) =~= views(raw@));
    out
}


/// The decimal digit for `d`.
pub open spec fn digit_char(d: nat) -> char {
    (d + 48) as char
}

/// The decimal representation of `n`, without leading zeros.
pub open spec fn decimal(n: nat) -> Seq<char>
    decreases n,
{
    if n < 10 {
        seq![digit_char(n)]
    } else {
        decimal(n / 10).push(digit_char(n % 10))
    }
}

/// `n` spaces.
pub open spec fn spaces(n: int) -> Seq<char> {
    Seq::new(if n > 0 { n as nat } else { 0 }, |i: int| ' ')
}

/// `s` right-aligned in a field of `w` characters: padded on the left with
/// spaces, never cut.
pub open spec fn pad_left(s: Seq<char>, w: int) -> Seq<char> {
    spaces(w - s.len()) + s
}

/// The decimal digit for `d`.
fn digit(d: usize) -> (c: char)
    requires
        d < 10,
    ensures
        c == digit_char(d as nat),
{
    match d {
        0 => '0',
        1 => '1',
        2 => '2',
        3 => '3',
        4 => '4',
        5 => '5',
        6 => '6',
        7 => '7',
        8 => '8',
        _ => '9',
    }
}

/// The decimal text of a number, without leading zeros.
pub(crate) fn usize_text(n: usize) -> (r: String)
    ensures
        r@ == decimal(n as nat),
    decreases n,
{
    if n < 10 {
        char_text(digit(n))
    } else {
        let mut r = usize_text(n / 10);
        push_char(&mut r, digit(n % 10));
        r
    }
}

/// A string of one character. Trusted: calls `ToString::to_string` on a
/// `char`, which gives the string holding just that character.
#[verifier::external_body]
pub(crate) fn char_text(c: char) -> (r: String)
    ensures
        r@ == seq![c],
{
    c.to_string()
}

/// `n` spaces.
pub fn spaces_text(n: usize) -> (r: String)
    ensures
        r@ == spaces(n as int),
{
    let mut r = String::new();
    let sp = char_text(' ');
    let mut i: usize = 0;
    while i < n
        invariant
            i <= n,
            sp@ == seq![' '],
            r@ == spaces(i as int),
        decreases n - i,
    {
        r.append(sp.as_str());
        i = i + 1;
        assert(r@ =~= spaces(i as int));
    }
    r
}

/// `s` right-aligned in a field of `w` characters.
pub fn pad_left_text(s: &str, w: usize) -> (r: String)
    ensures
        r@ == pad_left(s@, w as int),
{
    let n = s.unicode_len();
    let pad = if n < w { w - n } else { 0 };
    let mut r = spaces_text(pad);
    r.append(s);
    assert(spaces(pad as int) =~= spaces(w - s@.len()));
    r
}

} // verus!
