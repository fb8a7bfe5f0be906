//! Syntax highlighting. Whole files are highlighted in line order (so
//! multi-line constructs like block comments resolve correctly) into per-line
//! foreground segments; the renderer overlays diff coloring on top of them.

use vstd::prelude::*;
use crate::style::Color;
use crate::text::{byte_len, views, split_lines, lines_with_endings, str_byte_len, substring};

verus! {

/// Foreground runs for one line: `(start_byte, end_byte, color)`.
pub type LineSegs = Vec<(usize, usize, Color)>;

/// The color of the first segment containing `byte`, if any.
pub open spec fn seg_color(segs: Seq<(usize, usize, Color)>, byte: int) -> Option<Color>
    decreases segs.len(),
{
    if segs.len() == 0 {
        None
    } else if segs[0].0 <= byte < segs[0].1 {
        Some(segs[0].2)
    } else {
        seg_color(segs.drop_first(), byte)
    }
}

/// Foreground color at `byte` from precomputed segments, if any.
pub fn color_at(segs: &LineSegs, byte: usize) -> (r: Option<Color>)
    ensures
        r == seg_color(segs@, byte as int),
{
    let mut i: usize = 0;
    assert(segs@.skip(0) =~= segs@);
    while i < segs.len()
        invariant
            i <= segs.len(),
            seg_color(segs@, byte as int) == seg_color(segs@.skip(i as int), byte as int),
        decreases segs.len() - i,
    {
        let (s, e, c) = segs[i];
        assert(segs@.skip(i as int)[0] == segs@[i as int]);
        if byte >= s && byte < e {
            return Some(c);
        }
        assert(segs@.skip(i as int).drop_first() =~= segs@.skip(i + 1));
        i = i + 1;
    }
    None
}


#[verifier::external_type_specification]
#[verifier::external_body]
pub struct ExSyntaxSet(syntect::parsing::SyntaxSet);

#[verifier::external_type_specification]
#[verifier::external_body]
pub struct ExThemeSet(syntect::highlighting::ThemeSet);

/// syntect's bundled syntax definitions, for lines that keep their newlines.
/// Trusted: calls `SyntaxSet::load_defaults_newlines`; nothing is stated of it.
#[verifier::external_body]
fn default_syntaxes() -> syntect::parsing::SyntaxSet {
    syntect::parsing::SyntaxSet::load_defaults_newlines()
}

/// syntect's bundled themes. Trusted: calls `ThemeSet::load_defaults`;
/// nothing is stated of the result here (its documentation lists the names
/// it holds, `bundles_theme`, which `highlight_file` relies on).
#[verifier::external_body]
fn default_themes() -> syntect::highlighting::ThemeSet {
    syntect::highlighting::ThemeSet::load_defaults()
}

/// The names of syntect's bundled themes, as `ThemeSet::load_defaults`
/// documents them.
pub open spec fn bundles_theme(name: Seq<char>) -> bool {
    ||| name == "base16-ocean.dark"@
    ||| name == "base16-eighties.dark"@
    ||| name == "base16-mocha.dark"@
    ||| name == "base16-ocean.light"@
    ||| name == "InspiredGitHub"@
    ||| name == "Solarized (dark)"@
    ||| name == "Solarized (light)"@
}

/// What syntect makes of a file's lines (each with its line ending),
/// highlighted in order with its bundled syntaxes and its bundled theme named
/// `theme`, the syntax being the one registered for the extension `ext`, or
/// plain text where there is none: for each line its pieces (byte length,
/// foreground color), or `None` where highlighting that line failed.
pub uninterp spec fn syntect_highlight(
    theme: Seq<char>,
    ext: Option<Seq<char>>,
    lines: Seq<Seq<char>>,
) -> Seq<Option<Seq<(usize, Color)>>>;

/// The values of highlighted lines.
pub open spec fn piece_views(r: Seq<Option<Vec<(usize, Color)>>>) -> Seq<Option<Seq<(usize, Color)>>> {
    r.map_values(|o: Option<Vec<(usize, Color)>>| match o {
        Some(v) => Some(v@),
        None => None,
    })
}

/// Total byte length of highlighted pieces.
pub open spec fn pieces_len(v: Seq<(usize, Color)>) -> int
    decreases v.len(),
{
    if v.len() == 0 {
        0
    } else {
        pieces_len(v.drop_last()) + v.last().0
    }
}

/// Highlight a file's lines in order. Trusted: looks the theme up by name in
/// `ts`, picks the syntax with `SyntaxSet::find_syntax_by_extension` (plain
/// text, `SyntaxSet::find_syntax_plain_text`, where none is registered) and
/// calls `HighlightLines::highlight_line` on each line in turn. The library
/// makes values of these two types only through `default_syntaxes` and
/// `default_themes`, so they are syntect's bundled ones, and what comes back
/// is named by `syntect_highlight`. syntect documents that a line's pieces
/// joined make the line, and its piece iterator skips empty pieces.
#[verifier::external_body]
fn highlight_file(
    ps: &syntect::parsing::SyntaxSet,
    ts: &syntect::highlighting::ThemeSet,
    theme: &str,
    ext: &Option<String>,
    lines: &Vec<String>,
) -> (r: Vec<Option<Vec<(usize, Color)>>>)
    requires
        bundles_theme(theme@),
    ensures
        piece_views(r@) == syntect_highlight(theme@, crate::git::opt_text(*ext), views(lines@)),
        r.len() == lines.len(),
        forall|i: int| 0 <= i < r.len() ==> (#[trigger] r@[i] matches Some(v) ==> pieces_len(v@) == byte_len(lines@[i]@)
            && forall|k: int| 0 <= k < v.len() ==> v@[k].0 > 0),
{
    let syntax = ext.as_deref().and_then(|e| ps.find_syntax_by_extension(e))
        .unwrap_or_else(|| ps.find_syntax_plain_text());
    let mut h = syntect::easy::HighlightLines::new(syntax, &ts.themes[theme]);
    lines.iter().map(|l| match h.highlight_line(l, ps) {
        Ok(v) => Some(v.iter().map(|(st, p)| (p.len(), Color::Rgb(st.foreground.r, st.foreground.g, st.foreground.b))).collect()),
        Err(_) => None,
    }).collect()
}

/// The extension of a path: what follows its last `.`, if it has one.
pub open spec fn spec_extension(path: Seq<char>) -> Option<Seq<char>> {
    let d = crate::git::last_index_of(path, '.');
    if d >= 0 {
        Some(path.skip(d + 1))
    } else {
        None
    }
}

/// The extension of a path: what follows its last `.`, if it has one.
pub fn extension(path: &str) -> (r: Option<String>)
    ensures
        match r {
            Some(e) => spec_extension(path@) == Some(e@),
            None => spec_extension(path@) is None,
        },
{
    let n = path.unicode_len();
    let mut i = n;
    assert(path@.take(n as int) =~= path@);
    while i > 0
        invariant
            i <= n,
            n == path@.len(),
            crate::git::last_index_of(path@, '.') == crate::git::last_index_of(path@.take(i as int), '.'),
        decreases i,
    {
        if path.get_char(i - 1) == '.' {
            assert(path@.take(i as int).last() == '.');
            assert(path@.skip(i as int) =~= path@.subrange(i as int, n as int));
            return Some(substring(path, i, n));
        }
        assert(path@.take(i as int).drop_last() =~= path@.take(i - 1));
        i = i - 1;
    }
    None
}

/// Nonempty segments that tile `0..len` in order, each from where the last
/// ended.
pub open spec fn segs_tile(segs: Seq<(usize, usize, Color)>, len: int) -> bool {
    &&& segs.len() > 0
    &&& segs[0].0 == 0
    &&& segs.last().1 == len
    &&& forall|k: int| 0 <= k < segs.len() ==> (#[trigger] segs[k]).0 < segs[k].1
    &&& forall|k: int| 0 <= k < segs.len() - 1 ==> (#[trigger] segs[k]).1 == segs[k + 1].0
}

/// Segments from highlighted pieces (byte length, color) laid end to end
/// from byte 0; `len` is the line's byte length, which the pieces add up to.
pub fn segs_of_pieces(pieces: &Vec<(usize, Color)>, len: usize) -> (segs: LineSegs)
    requires
        pieces_len(pieces@) == len,
        forall|k: int| 0 <= k < pieces.len() ==> (#[trigger] pieces@[k]).0 > 0,
    ensures
        segs.len() == pieces.len(),
        forall|k: int| 0 <= k < segs.len() ==> (#[trigger] segs@[k]) == (
            pieces_len(pieces@.take(k)) as usize,
            pieces_len(pieces@.take(k + 1)) as usize,
            pieces@[k].1,
        ),
        len > 0 ==> segs_tile(segs@, len as int),
{
    let mut segs: LineSegs = Vec::new();
    let mut b: usize = 0;
    let mut k: usize = 0;
    while k < pieces.len()
        invariant
            k <= pieces.len(),
            pieces_len(pieces@) == len,
            b == pieces_len(pieces@.take(k as int)),
            segs.len() == k,
            k > 0 ==> segs@[0].0 == 0 && segs@.last().1 == b,
            forall|k: int| 0 <= k < pieces.len() ==> (#[trigger] pieces@[k]).0 > 0,
            forall|j: int| 0 <= j < segs.len() ==> (#[trigger] segs@[j]).0 < segs@[j].1,
            forall|j: int| 0 <= j < segs.len() - 1 ==> (#[trigger] segs@[j]).1 == segs@[j + 1].0,
            forall|j: int| 0 <= j < segs.len() ==> (#[trigger] segs@[j]) == (
                pieces_len(pieces@.take(j)) as usize,
                pieces_len(pieces@.take(j + 1)) as usize,
                pieces@[j].1,
            ),
        decreases pieces.len() - k,
    {
        let (l, c) = pieces[k];
        proof {
            assert(pieces@.take(k + 1).drop_last() =~= pieces@.take(k as int));
            assert(pieces@.take(k + 1).last() == pieces@[k as int]);
            lemma_pieces_len_prefix(pieces@, k + 1);
        }
        segs.push((b, b + l, c));
        b = b + l;
        k = k + 1;
    }
    assert(pieces@.take(k as int) =~= pieces@);
    segs
}

/// A prefix of the pieces is no longer than all of them.
proof fn lemma_pieces_len_prefix(v: Seq<(usize, Color)>, k: int)
    requires
        0 <= k <= v.len(),
    ensures
        pieces_len(v.take(k)) <= pieces_len(v),
    decreases v.len() - k,
{
    if k < v.len() {
        lemma_pieces_len_prefix(v, k + 1);
        assert(v.take(k + 1).drop_last() =~= v.take(k));
    } else {
        assert(v.take(k) =~= v);
    }
}

/// The theme the viewer highlights with.
pub const THEME_NAME: &'static str = "base16-ocean.dark";

/// The segments of a line of byte length `len` from its highlighted pieces,
/// laid end to end from byte 0; none where highlighting the line failed (or
/// the line is empty).
pub open spec fn line_segs(p: Option<Seq<(usize, Color)>>, len: nat) -> Seq<(usize, usize, Color)> {
    match p {
        Some(v) => if len > 0 {
            Seq::new(
                v.len(),
                |k: int| (pieces_len(v.take(k)) as usize, pieces_len(v.take(k + 1)) as usize, v[k].1),
            )
        } else {
            seq![]
        },
        None => seq![],
    }
}

/// The values of a list of line segments.
pub open spec fn seg_views(v: Seq<LineSegs>) -> Seq<Seq<(usize, usize, Color)>> {
    v.map_values(|s: LineSegs| s@)
}

/// Syntax highlighting state: syntect's bundled syntaxes and themes, and the
/// name of the theme the highlighter colors with.
pub struct Highlighter {
    ps: syntect::parsing::SyntaxSet,
    ts: syntect::highlighting::ThemeSet,
    theme: &'static str,
}

impl Highlighter {
    /// The theme is one syntect bundles.
    #[verifier::type_invariant]
    spec fn bundled_theme(&self) -> bool {
        bundles_theme(self.theme@)
    }

    /// The name of the theme the highlighter colors with.
    pub closed spec fn theme_name(&self) -> Seq<char> {
        self.theme@
    }

    /// The segments `file` gives for `text`, syntax chosen from the extension
    /// of `path`: for each line of `text` (lines end after `\n`), syntect's
    /// pieces for it laid end to end.
    pub open spec fn spec_file(&self, path: Seq<char>, text: Seq<char>) -> Seq<Seq<(usize, usize, Color)>> {
        let lines = split_lines(text, false);
        let hl = syntect_highlight(self.theme_name(), spec_extension(path), lines);
        Seq::new(lines.len(), |i: int| line_segs(hl[i], byte_len(lines[i])))
    }

    /// syntect's bundled syntaxes and themes, coloring with the viewer's
    /// theme.
    pub fn new() -> (h: Self)
        ensures
            h.theme_name() == THEME_NAME@,
    {
        let ps = default_syntaxes();
        let ts = default_themes();
        Highlighter { ps, ts, theme: THEME_NAME }
    }

    /// Per-line foreground segments for `text`, syntax chosen from `path`'s
    /// extension. Unknown extensions fall back to plain text.
    ///
    /// There is one entry per line of `text` (lines end after `\n`): syntect's
    /// pieces for the line laid end to end, which tile the line's bytes, or
    /// none where syntect failed on the line.
    pub fn file(&self, path: &str, text: &str) -> (out: Vec<LineSegs>)
        ensures
            seg_views(out@) == self.spec_file(path@, text@),
            out.len() == split_lines(text@, false).len(),
            forall|i: int| 0 <= i < out.len() ==> (#[trigger] out@[i])@.len() == 0
                || segs_tile(out@[i]@, byte_len(split_lines(text@, false)[i]) as int),
    {
        proof {
            use_type_invariant(self);
        }
        let lines = lines_with_endings(text);
        let ext = extension(path);
        let hl = highlight_file(&self.ps, &self.ts, self.theme, &ext, &lines);
        let ghost lv = split_lines(text@, false);
        let ghost sh = syntect_highlight(self.theme@, spec_extension(path@), lv);
        proof {
            assert(crate::git::opt_text(ext) == spec_extension(path@));
        }
        let mut out: Vec<LineSegs> = Vec::new();
        let mut i: usize = 0;
        while i < hl.len()
            invariant
                i <= hl.len(),
                hl.len() == lines.len(),
                out.len() == i,
                views(lines@) == lv,
                piece_views(hl@) == sh,
                forall|j: int| 0 <= j < hl.len() ==> (#[trigger] hl@[j] matches Some(v) ==> pieces_len(v@)
                    == byte_len(lines@[j]@) && forall|k: int| 0 <= k < v.len() ==> v@[k].0 > 0),
                forall|j: int| 0 <= j < out.len() ==> (#[trigger] out@[j])@ == line_segs(sh[j], byte_len(lv[j])),
                forall|j: int| 0 <= j < out.len() ==> (#[trigger] out@[j])@.len() == 0
                    || segs_tile(out@[j]@, byte_len(lv[j]) as int),
            decreases hl.len() - i,
        {
            let line = lines[i].as_str();
            assert(views(lines@)[i as int] == line@);
            let len = str_byte_len(line);
            let segs = match &hl[i] {
                Some(pieces) => if len > 0 { segs_of_pieces(pieces, len) } else { Vec::new() },
                None => Vec::new(),
            };
            proof {
                assert(sh[i as int] == piece_views(hl@)[i as int]);
                assert(segs@ =~= line_segs(sh[i as int], byte_len(lv[i as int])));
            }
            out.push(segs);
            i = i + 1;
        }
        proof {
            assert(seg_views(out@) =~= self.spec_file(path@, text@));
        }
        out
    }
}

} // verus!
