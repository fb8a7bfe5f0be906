//! What each part of the screen shows: styled runs of text for the diff
//! panes, the tab strip and the status bar, computed from the viewer's state.
//! Drawing them is left to the terminal front end.

use vstd::prelude::*;
use crate::style::{Color, SpanStyle, StyledSpan, SpanView, span_views, spans_text};
use crate::highlight::{LineSegs, seg_color, color_at};
use crate::text::{byte_len, chars_of, utf8_width, substring, lemma_byte_len_concat, lemma_byte_len_single, lemma_byte_len_prefix, spaces, spaces_text, pad_left, pad_left_text, decimal, usize_text, char_text};
use crate::diff::{Cell, CellView, Kind, opt_cell};
use crate::style::{fg_style, fg};

verus! {

/// A character's drawing attributes: its foreground and whether it lies in an
/// intra-line changed range.
pub type Attr = (Color, bool);

/// Whether byte `b` lies in one of the ranges.
pub open spec fn in_ranges(ranges: Seq<(usize, usize)>, b: int) -> bool {
    exists|k: int| 0 <= k < ranges.len() && (#[trigger] ranges[k]).0 <= b < ranges[k].1
}

/// The segments, if any.
pub open spec fn opt_segs(segs: Option<&LineSegs>) -> Option<Seq<(usize, usize, Color)>> {
    match segs {
        Some(s) => Some(s@),
        None => None,
    }
}

/// The attributes of character `i` of `text`: the syntax color at its first
/// byte (or `fallback`), and whether that byte is in a changed range.
pub open spec fn char_attr(
    text: Seq<char>,
    segs: Option<Seq<(usize, usize, Color)>>,
    ranges: Seq<(usize, usize)>,
    fallback: Color,
    i: int,
) -> Attr {
    let b = byte_len(text.take(i)) as int;
    let fg = match segs {
        Some(s) => match seg_color(s, b) {
            Some(c) => c,
            None => fallback,
        },
        None => fallback,
    };
    (fg, in_ranges(ranges, b))
}

/// Maximal runs of equal attributes, as `(start, end, attr)` over positions
/// of `attrs`.
pub open spec fn runs(attrs: Seq<Attr>) -> Seq<(int, int, Attr)>
    decreases attrs.len(),
{
    if attrs.len() == 0 {
        seq![]
    } else {
        let hi = attrs.len() as int;
        let a = attrs.last();
        let prev = runs(attrs.drop_last());
        if prev.len() > 0 && prev.last().2 == a {
            prev.update(prev.len() - 1, (prev.last().0, hi, a))
        } else {
            prev.push((hi - 1, hi, a))
        }
    }
}

/// The style of a run: syntax foreground; background `hot_bg` inside changed
/// ranges and `line_bg` elsewhere, none when that is `Reset`; bold when hot.
pub open spec fn attr_style(a: Attr, line_bg: Color, hot_bg: Color) -> SpanStyle {
    let bg = if a.1 { hot_bg } else { line_bg };
    SpanStyle { fg: Some(a.0), bg: if bg != Color::Reset { Some(bg) } else { None }, bold: a.1 }
}

/// The span of a run whose positions count from character `lo` of `text`.
pub open spec fn run_span(text: Seq<char>, lo: int, r: (int, int, Attr), line_bg: Color, hot_bg: Color) -> SpanView {
    SpanView { content: text.subrange(lo + r.0, lo + r.1), style: attr_style(r.2, line_bg, hot_bg) }
}

/// The first visible character: `h_off` characters are scrolled away.
pub open spec fn visible_start(len: int, h_off: int) -> int {
    if h_off < len { h_off } else { len }
}

/// One past the last visible character: at most `width` are shown.
pub open spec fn visible_end(len: int, h_off: int, width: int) -> int {
    if h_off + width < len { h_off + width } else { len }
}

/// The attributes of the visible characters.
pub open spec fn visible_attrs(
    text: Seq<char>,
    segs: Option<Seq<(usize, usize, Color)>>,
    ranges: Seq<(usize, usize)>,
    h_off: int,
    width: int,
    fallback_fg: Color,
) -> Seq<Attr> {
    let lo = visible_start(text.len() as int, h_off);
    let hi = visible_end(text.len() as int, h_off, width);
    Seq::new((hi - lo) as nat, |j: int| char_attr(text, segs, ranges, fallback_fg, lo + j))
}

/// The styled spans of the visible part of a line.
pub open spec fn spec_styled_text(
    text: Seq<char>,
    segs: Option<Seq<(usize, usize, Color)>>,
    ranges: Seq<(usize, usize)>,
    h_off: int,
    width: int,
    fallback_fg: Color,
    line_bg: Color,
    hot_bg: Color,
) -> Seq<SpanView> {
    let lo = visible_start(text.len() as int, h_off);
    runs(visible_attrs(text, segs, ranges, h_off, width, fallback_fg)).map_values(
        |r: (int, int, Attr)| run_span(text, lo, r, line_bg, hot_bg),
    )
}

/// Runs cut the positions into consecutive nonempty pieces whose neighbors
/// differ.
pub proof fn lemma_runs_partition(attrs: Seq<Attr>)
    ensures
        ({
            let r = runs(attrs);
            let hi = attrs.len() as int;
            &&& (r.len() == 0 <==> hi == 0)
            &&& r.len() > 0 ==> r[0].0 == 0 && r.last().1 == hi
            &&& forall|k: int| 0 <= k < r.len() ==> 0 <= (#[trigger] r[k]).0 < r[k].1 <= hi
            &&& forall|k: int| 0 <= k < r.len() - 1 ==> (#[trigger] r[k]).1 == r[k + 1].0
            &&& forall|k: int| 0 <= k < r.len() - 1 ==> (#[trigger] r[k]).2 != r[k + 1].2
            &&& forall|i: int, j: int| 0 <= i < j < r.len() ==> (#[trigger] r[i]).1 <= (#[trigger] r[j]).0
        }),
    decreases attrs.len(),
{
    if attrs.len() > 0 {
        lemma_runs_partition(attrs.drop_last());
    }
}

/// Joining the pieces of a partition of `lo..hi` gives that part of the text.
proof fn lemma_runs_text(text: Seq<char>, base: int, r: Seq<(int, int, Attr)>, lo: int, hi: int, lb: Color, hb: Color)
    requires
        0 <= base,
        0 <= lo <= hi,
        base + hi <= text.len(),
        r.len() == 0 <==> hi == lo,
        r.len() > 0 ==> r[0].0 == lo && r.last().1 == hi,
        forall|k: int| 0 <= k < r.len() ==> lo <= (#[trigger] r[k]).0 < r[k].1 <= hi,
        forall|k: int| 0 <= k < r.len() - 1 ==> (#[trigger] r[k]).1 == r[k + 1].0,
        forall|i: int, j: int| 0 <= i < j < r.len() ==> (#[trigger] r[i]).1 <= (#[trigger] r[j]).0,
    ensures
        spans_text(r.map_values(|x: (int, int, Attr)| run_span(text, base, x, lb, hb)))
            == text.subrange(base + lo, base + hi),
    decreases r.len(),
{
    let sp = r.map_values(|x: (int, int, Attr)| run_span(text, base, x, lb, hb));
    if r.len() == 0 {
        assert(sp.map_values(|s: SpanView| s.content) =~= Seq::<Seq<char>>::empty());
        assert(text.subrange(base + lo, base + hi) =~= Seq::<char>::empty());
    } else {
        let mid = r[0].1;
        let rest = r.drop_first();
        assert(forall|k: int| 0 <= k < rest.len() ==> #[trigger] rest[k] == r[k + 1]);
        if rest.len() > 0 {
            assert(rest[0] == r[1]);
            assert forall|k: int| 0 <= k < rest.len() implies mid <= (#[trigger] rest[k]).0 by {
                assert(r[0].1 <= r[k + 1].0);
            }
        }
        lemma_runs_text(text, base, rest, mid, hi, lb, hb);
        let cs = sp.map_values(|s: SpanView| s.content);
        let rest_sp = rest.map_values(|x: (int, int, Attr)| run_span(text, base, x, lb, hb));
        assert(cs.drop_first() =~= rest_sp.map_values(|s: SpanView| s.content));
        assert(cs[0] == text.subrange(base + lo, base + mid));
        assert(text.subrange(base + lo, base + mid) + text.subrange(base + mid, base + hi)
            =~= text.subrange(base + lo, base + hi));
    }
}

/// Whether byte `b` lies in one of the ranges.
fn in_range(ranges: &[(usize, usize)], b: usize) -> (r: bool)
    ensures
        r == in_ranges(ranges@, b as int),
{
    let mut k: usize = 0;
    while k < ranges.len()
        invariant
            k <= ranges.len(),
            forall|j: int| 0 <= j < k ==> !((#[trigger] ranges@[j]).0 <= b < ranges@[j].1),
        decreases ranges.len() - k,
    {
        let (s, e) = ranges[k];
        if b >= s && b < e {
            assert(ranges@[k as int].0 <= b < ranges@[k as int].1);
            return true;
        }
        k = k + 1;
    }
    false
}

/// The style of a run with the given attributes.
fn style_of(fg: Color, hot: bool, line_bg: Color, hot_bg: Color) -> (s: SpanStyle)
    ensures
        s == attr_style((fg, hot), line_bg, hot_bg),
{
    let bg = if hot { hot_bg } else { line_bg };
    SpanStyle { fg: Some(fg), bg: if bg != Color::Reset { Some(bg) } else { None }, bold: hot }
}

/// Byte offset of character `i` of `text`.
fn byte_offset(text: &str, chars: &Vec<char>, i: usize) -> (b: usize)
    requires
        chars@ == text@,
        i <= chars.len(),
    ensures
        b == byte_len(text@.take(i as int)),
{
    let total = crate::text::str_byte_len(text);
    let mut byte: usize = 0;
    let mut k: usize = 0;
    while k < i
        invariant
            k <= i <= chars.len(),
            chars@ == text@,
            total == byte_len(text@),
            byte == byte_len(text@.take(k as int)),
        decreases i - k,
    {
        proof {
            assert(text@.take(k + 1) =~= text@.take(k as int) + seq![text@[k as int]]);
            lemma_byte_len_concat(text@.take(k as int), seq![text@[k as int]]);
            lemma_byte_len_single(text@[k as int]);
            lemma_byte_len_prefix(text@, k + 1);
        }
        byte = byte + utf8_width(chars[k]);
        k = k + 1;
    }
    byte
}

/// The attributes of characters `lo..hi`.
fn attrs_of(
    text: &str,
    chars: &Vec<char>,
    segs: Option<&LineSegs>,
    ranges: &[(usize, usize)],
    fallback_fg: Color,
    lo: usize,
    hi: usize,
) -> (v: Vec<Attr>)
    requires
        chars@ == text@,
        lo <= hi <= chars.len(),
    ensures
        v@ == Seq::new((hi - lo) as nat, |j: int| char_attr(text@, opt_segs(segs), ranges@, fallback_fg, lo + j)),
{
    let ghost sv = opt_segs(segs);
    let total = crate::text::str_byte_len(text);
    let mut byte = byte_offset(text, chars, lo);
    let mut v: Vec<Attr> = Vec::new();
    let mut i: usize = lo;
    while i < hi
        invariant
            lo <= i <= hi <= chars.len(),
            chars@ == text@,
            sv == opt_segs(segs),
            total == byte_len(text@),
            byte == byte_len(text@.take(i as int)),
            v@ == Seq::new((i - lo) as nat, |j: int| char_attr(text@, sv, ranges@, fallback_fg, lo + j)),
        decreases hi - i,
    {
        let fg = match segs {
            Some(s) => match color_at(s, byte) {
                Some(c) => c,
                None => fallback_fg,
            },
            None => fallback_fg,
        };
        let hot = in_range(ranges, byte);
        proof {
            assert(text@.take(i + 1) =~= text@.take(i as int) + seq![text@[i as int]]);
            lemma_byte_len_concat(text@.take(i as int), seq![text@[i as int]]);
            lemma_byte_len_single(text@[i as int]);
            lemma_byte_len_prefix(text@, i + 1);
        }
        v.push((fg, hot));
        byte = byte + utf8_width(chars[i]);
        i = i + 1;
        assert(v@ =~= Seq::new((i - lo) as nat, |j: int| char_attr(text@, sv, ranges@, fallback_fg, lo + j)));
    }
    v
}

/// Group attributes into maximal runs and style each one.
fn group_runs(text: &str, lo: usize, attrs: &Vec<Attr>, line_bg: Color, hot_bg: Color) -> (out: Vec<StyledSpan>)
    requires
        lo + attrs.len() <= text@.len(),
        lo + attrs.len() <= usize::MAX,
    ensures
        span_views(out@) == runs(attrs@).map_values(
            |r: (int, int, Attr)| run_span(text@, lo as int, r, line_bg, hot_bg),
        ),
{
    let ghost lb = line_bg;
    let ghost hb = hot_bg;
    let mut out: Vec<StyledSpan> = Vec::new();
    let mut run_start: usize = 0;
    let mut cur: Attr = (Color::Reset, false);
    let ghost mut closed: Seq<(int, int, Attr)> = seq![];
    let mut i: usize = 0;
    assert(attrs@.take(0) =~= Seq::<Attr>::empty());
    while i < attrs.len()
        invariant
            i <= attrs.len(),
            lo + attrs.len() <= text@.len(),
            lo + attrs.len() <= usize::MAX,
            lb == line_bg,
            hb == hot_bg,
            span_views(out@) == closed.map_values(|x: (int, int, Attr)| run_span(text@, lo as int, x, lb, hb)),
            i > 0 ==> run_start < i,
            runs(attrs@.take(i as int)) == if i > 0 {
                closed.push((run_start as int, i as int, cur))
            } else {
                closed
            },
        decreases attrs.len() - i,
    {
        let a = attrs[i];
        proof {
            assert(attrs@.take(i + 1).drop_last() =~= attrs@.take(i as int));
            assert(attrs@.take(i + 1).last() == a);
        }
        if i > 0 && !(cur.0 == a.0 && cur.1 == a.1) {
            let content = substring(text, lo + run_start, lo + i);
            let sp = StyledSpan { content, style: style_of(cur.0, cur.1, line_bg, hot_bg) };
            proof {
                let r = (run_start as int, i as int, cur);
                assert(span_views(out@.push(sp)) =~= span_views(out@).push(sp@));
                assert(closed.push(r).map_values(|x: (int, int, Attr)| run_span(text@, lo as int, x, lb, hb))
                    =~= closed.map_values(|x: (int, int, Attr)| run_span(text@, lo as int, x, lb, hb)).push(
                    run_span(text@, lo as int, r, lb, hb),
                ));
                closed = closed.push(r);
            }
            out.push(sp);
            run_start = i;
        } else if i == 0 {
            run_start = 0;
        }
        cur = a;
        i = i + 1;
    }
    if i > 0 {
        let content = substring(text, lo + run_start, lo + i);
        let sp = StyledSpan { content, style: style_of(cur.0, cur.1, line_bg, hot_bg) };
        proof {
            let r = (run_start as int, i as int, cur);
            assert(span_views(out@.push(sp)) =~= span_views(out@).push(sp@));
            assert(closed.push(r).map_values(|x: (int, int, Attr)| run_span(text@, lo as int, x, lb, hb))
                =~= closed.map_values(|x: (int, int, Attr)| run_span(text@, lo as int, x, lb, hb)).push(
                run_span(text@, lo as int, r, lb, hb),
            ));
            closed = closed.push(r);
        }
        out.push(sp);
    }
    assert(attrs@.take(attrs.len() as int) =~= attrs@);
    out
}

/// Visible slice of a line as styled spans. The foreground comes from the
/// syntax segments (or `fallback_fg`); the background is `line_bg`, upgraded to
/// `hot_bg` (plus bold) inside the intra-line changed ranges. `h_off` and
/// `width` count characters.
///
/// The spans, joined, are exactly the visible characters; none is empty, and
/// neighbors always differ in style.
pub fn styled_text(
    text: &str,
    segs: Option<&LineSegs>,
    ranges: &[(usize, usize)],
    h_off: usize,
    width: usize,
    fallback_fg: Color,
    line_bg: Color,
    hot_bg: Color,
) -> (r: Vec<StyledSpan>)
    ensures
        span_views(r@) == spec_styled_text(
            text@,
            opt_segs(segs),
            ranges@,
            h_off as int,
            width as int,
            fallback_fg,
            line_bg,
            hot_bg,
        ),
        spans_text(span_views(r@)) == text@.subrange(
            visible_start(text@.len() as int, h_off as int),
            visible_end(text@.len() as int, h_off as int, width as int),
        ),
        forall|k: int| 0 <= k < r.len() ==> (#[trigger] r@[k]).content@.len() > 0,
        forall|k: int| 0 <= k < r.len() - 1 ==> (#[trigger] r@[k]).style != r@[k + 1].style,
{
    let chars = chars_of(text);
    let n = chars.len();
    let lo = if h_off < n { h_off } else { n };
    let hi = if width < n - lo { lo + width } else { n };
    let attrs = attrs_of(text, &chars, segs, ranges, fallback_fg, lo, hi);
    let out = group_runs(text, lo, &attrs, line_bg, hot_bg);
    proof {
        let lb = line_bg;
        let hb = hot_bg;
        assert(attrs@ =~= visible_attrs(text@, opt_segs(segs), ranges@, h_off as int, width as int, fallback_fg));
        lemma_runs_partition(attrs@);
        let rs = runs(attrs@);
        lemma_runs_text(text@, lo as int, rs, 0, (hi - lo) as int, lb, hb);
        assert forall|k: int| 0 <= k < out.len() implies (#[trigger] out@[k]).content@.len() > 0 by {
            assert(span_views(out@)[k] == run_span(text@, lo as int, rs[k], lb, hb));
        }
        assert forall|k: int| 0 <= k < out.len() - 1 implies (#[trigger] out@[k]).style != out@[k + 1].style by {
            assert(span_views(out@)[k] == run_span(text@, lo as int, rs[k], lb, hb));
            assert(span_views(out@)[k + 1] == run_span(text@, lo as int, rs[k + 1], lb, hb));
        }
    }
    out
}


/// Width of the line-number gutter: a 4-digit number and a space.
pub const GUTTER: usize = 5;
/// Width of the sign column: the sign and a space.
pub const SIGN: usize = 2;

/// The colors and sign of a cell: fallback foreground (when there is no syntax
/// color), sign, subtle whole-line background, strong changed-range background.
pub open spec fn palette(kind: Kind, left: bool) -> (Color, char, Color, Color) {
    match kind {
        Kind::Equal => (Color::Gray, ' ', Color::Reset, Color::Reset),
        Kind::Removed => (Color::Red, '-', Color::Rgb(48, 26, 26), Color::Rgb(95, 35, 35)),
        Kind::Added => (Color::Green, '+', Color::Rgb(24, 42, 24), Color::Rgb(35, 80, 35)),
        Kind::Changed => if left {
            (Color::Red, '-', Color::Rgb(48, 26, 26), Color::Rgb(95, 35, 35))
        } else {
            (Color::Green, '+', Color::Rgb(24, 42, 24), Color::Rgb(35, 80, 35))
        },
    }
}

/// Additions are drawn in green with a `+`, deletions in red with a `-`:
/// an added line looks like the new side of a changed line, a removed line
/// like its old side, and unchanged lines carry no sign and no background.
pub proof fn lemma_palette_sides(left: bool)
    ensures
        palette(Kind::Added, left) == palette(Kind::Changed, false),
        palette(Kind::Removed, left) == palette(Kind::Changed, true),
        palette(Kind::Added, left).0 == Color::Green && palette(Kind::Added, left).1 == '+',
        palette(Kind::Removed, left).0 == Color::Red && palette(Kind::Removed, left).1 == '-',
        palette(Kind::Added, left) != palette(Kind::Removed, left),
        palette(Kind::Equal, left).1 == ' ',
        palette(Kind::Equal, left).2 == Color::Reset && palette(Kind::Equal, left).3 == Color::Reset,
{
}

/// The colors and sign of a cell.
pub fn cell_palette(kind: Kind, left: bool) -> (r: (Color, char, Color, Color))
    ensures
        r == palette(kind, left),
{
    match (kind, left) {
        (Kind::Equal, _) => (Color::Gray, ' ', Color::Reset, Color::Reset),
        (Kind::Removed, _) | (Kind::Changed, true) => (Color::Red, '-', Color::Rgb(48, 26, 26), Color::Rgb(95, 35, 35)),
        (Kind::Added, _) | (Kind::Changed, false) => (Color::Green, '+', Color::Rgb(24, 42, 24), Color::Rgb(35, 80, 35)),
    }
}

/// The gutter of a line: its number right-aligned in 4 columns, then a space.
pub open spec fn gutter_text(num: usize) -> Seq<char> {
    pad_left(decimal(num as nat), 4) + seq![' ']
}

/// The color of a padding gap's marker.
pub open spec fn gap_color() -> Color {
    Color::Rgb(60, 60, 70)
}

/// The spans of one cell of a pane `width` columns wide. A gap shows a faint
/// tilde after up to two spaces; a line shows its gutter, its sign and the
/// visible part of its text.
pub open spec fn spec_cell_line(
    cell: Option<CellView>,
    kind: Kind,
    left: bool,
    h_off: int,
    width: int,
    segs: Option<Seq<(usize, usize, Color)>>,
) -> Seq<SpanView> {
    match cell {
        None => seq![SpanView {
            content: spaces(if width < 2 { width } else { 2 }) + seq!['~'],
            style: fg_style(gap_color()),
        }],
        Some(c) => {
            let (fallback, sign, line_bg, hot_bg) = palette(kind, left);
            let text_w = if width >= (GUTTER + SIGN) as int { width - (GUTTER + SIGN) } else { 0 };
            seq![
                SpanView { content: gutter_text(c.num), style: fg_style(Color::DarkGray) },
                SpanView { content: seq![sign, ' '], style: fg_style(fallback) },
            ] + spec_styled_text(c.text, segs, c.inline, h_off, text_w, fallback, line_bg, hot_bg)
        },
    }
}

/// Build the styled spans for one cell. `width` is the pane's inner width;
/// `segs` carries precomputed syntax foreground runs (`None`: no highlighting).
pub fn cell_line(
    cell: &Option<Cell>,
    kind: Kind,
    left: bool,
    h_off: usize,
    width: usize,
    segs: Option<&LineSegs>,
) -> (r: Vec<StyledSpan>)
    ensures
        span_views(r@) == spec_cell_line(opt_cell(*cell), kind, left, h_off as int, width as int, opt_segs(segs)),
{
    match cell {
        None => {
            // Padding gap: a faint tilde marker reads as "nothing here".
            let mut t = spaces_text(if width < 2 { width } else { 2 });
            t.append(char_text('~').as_str());
            let mut v: Vec<StyledSpan> = Vec::new();
            v.push(StyledSpan { content: t, style: fg(Color::Rgb(60, 60, 70)) });
            assert(span_views(v@) =~= spec_cell_line(opt_cell(*cell), kind, left, h_off as int, width as int, opt_segs(segs)));
            v
        },
        Some(c) => {
            let (fallback, sign, line_bg, hot_bg) = cell_palette(kind, left);
            let mut gutter = pad_left_text(usize_text(c.num).as_str(), 4);
            gutter.append(char_text(' ').as_str());
            let mut sign_text = char_text(sign);
            sign_text.append(char_text(' ').as_str());
            let text_w = if width >= GUTTER + SIGN { width - (GUTTER + SIGN) } else { 0 };
            let mut v: Vec<StyledSpan> = Vec::new();
            v.push(StyledSpan { content: gutter, style: fg(Color::DarkGray) });
            v.push(StyledSpan { content: sign_text, style: fg(fallback) });
            assert(v@[0].content@ == gutter@);
            assert(v@[1].content@ == sign_text@);
            let mut rest = styled_text(c.text.as_str(), segs, c.inline.as_slice(), h_off, text_w, fallback, line_bg, hot_bg);
            let ghost head = v@;
            let ghost tail = rest@;
            v.append(&mut rest);
            proof {
                assert(v@ == head + tail);
                assert(span_views(head + tail) =~= span_views(head) + span_views(tail));
                assert(c.text@ == opt_cell(*cell)->0.text);
                assert(gutter@ =~= gutter_text(c.num));
                assert(sign_text@ =~= seq![sign, ' ']);
                assert(head[0]@ == SpanView { content: gutter_text(c.num), style: fg_style(Color::DarkGray) });
                assert(head[1]@ == SpanView { content: seq![sign, ' '], style: fg_style(fallback) });
                assert(span_views(head) =~= seq![
                    SpanView { content: gutter_text(c.num), style: fg_style(Color::DarkGray) },
                    SpanView { content: seq![sign, ' '], style: fg_style(fallback) },
                ]);
            }
            v
        },
    }
}

} // verus!
