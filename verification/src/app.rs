//! The viewer's interactive state. Rows are precomputed per file so that
//! navigation and scrolling are pure index arithmetic.

use vstd::prelude::*;
use vstd::view::View as _;
use crate::diff::{self, Row, Kind, row_views, spec_build};
use crate::git::{FileDiff, FileView, Mode, str_eq, opt_text, file_views, text_or_empty, text_of};
use crate::highlight::{Highlighter, LineSegs, seg_views};
use crate::text::{char_text, split_lines};

verus! {

/// How the diff is laid out.
#[derive(Debug, Clone, Copy, PartialEq, Eq, Structural)]
pub enum View {
    Split,
    Unified,
}

/// Minimum left-pane width in split view, as a percentage.
pub const SPLIT_MIN: u16 = 20;
/// Maximum left-pane width in split view, as a percentage.
pub const SPLIT_MAX: u16 = 80;
/// How much one resize step moves the divider, in percent.
pub const SPLIT_STEP: u16 = 5;

/// Syntax segments for a file: for each side, what the highlighter gives for
/// that side's text, one entry per line (lines end after `\n`).
pub open spec fn has_line_segs(h: Highlighter, hl: (Vec<LineSegs>, Vec<LineSegs>), f: FileView) -> bool {
    &&& hl.0.len() == split_lines(text_or_empty(f.old), false).len()
    &&& hl.1.len() == split_lines(text_or_empty(f.new), false).len()
    &&& seg_views(hl.0@) == h.spec_file(f.path, text_or_empty(f.old))
    &&& seg_views(hl.1@) == h.spec_file(f.path, text_or_empty(f.new))
}

/// Where the selection goes when the files `before` (with file `cur`
/// selected) are replaced by `after`: to the first file with the path of the
/// one selected before, or, where there is none, to the same index clamped to
/// the new list.
pub open spec fn kept_selection(before: Seq<FileView>, cur: int, after: Seq<FileView>, c: int) -> bool {
    if 0 <= cur < before.len() && exists|j: int| 0 <= j < after.len() && (#[trigger] after[j]).path == before[cur].path {
        &&& 0 <= c < after.len()
        &&& after[c].path == before[cur].path
        &&& forall|k: int| 0 <= k < c ==> (#[trigger] after[k]).path != before[cur].path
    } else {
        c == if after.len() == 0 {
            0
        } else if cur < after.len() {
            cur
        } else {
            after.len() - 1
        }
    }
}

/// The aligned rows of a file.
pub open spec fn file_rows(f: FileView) -> Seq<diff::RowView> {
    spec_build(text_or_empty(f.old), text_or_empty(f.new))
}

pub struct App {
    /// What is diffed, kept so that a reload can collect again.
    pub mode: Mode,
    /// Whether the front end re-polls git on a timer and reloads.
    pub watch: bool,
    pub files: Vec<FileDiff>,
    /// Aligned rows, one list per file (parallel to `files`).
    pub rows: Vec<Vec<Row>>,
    /// Per-file syntax segments for the old/new sides (parallel to `files`).
    pub hl: Vec<(Vec<LineSegs>, Vec<LineSegs>)>,
    /// Kept so that reloads do not load the syntax definitions again.
    pub hilite: Highlighter,
    /// Whether syntax highlighting is applied.
    pub syntax: bool,
    pub cur: usize,
    pub v_offset: usize,
    pub h_offset: usize,
    pub view: View,
    pub quit: bool,
    /// Left-pane width in split view, as a percentage (`[` / `]` adjust it).
    pub split_pct: u16,
    /// Height of the diff body in the last frame: scrolling clamps to it.
    pub viewport_h: usize,
    /// Horizontal scroll (in columns) of the file tab strip.
    pub tab_scroll: usize,
    /// Scrollable line count of the current view, set each frame (the unified
    /// view has more lines than the split one).
    pub content_len: usize,
}

/// The rows of every file, and its syntax segments for both sides.
fn build_views(hilite: &Highlighter, files: &Vec<FileDiff>) -> (r: (Vec<Vec<Row>>, Vec<(Vec<LineSegs>, Vec<LineSegs>)>))
    ensures
        r.0.len() == files.len(),
        r.1.len() == files.len(),
        forall|i: int| 0 <= i < files.len() ==> row_views((#[trigger] r.0@[i])@) == file_rows(files@[i]@),
        forall|i: int| 0 <= i < files.len() ==> has_line_segs(*hilite, #[trigger] r.1@[i], files@[i]@),
{
    let mut rows: Vec<Vec<Row>> = Vec::new();
    let mut hl: Vec<(Vec<LineSegs>, Vec<LineSegs>)> = Vec::new();
    let mut i: usize = 0;
    while i < files.len()
        invariant
            i <= files.len(),
            rows.len() == i,
            hl.len() == i,
            forall|j: int| 0 <= j < i ==> row_views((#[trigger] rows@[j])@) == file_rows(files@[j]@),
            forall|j: int| 0 <= j < i ==> has_line_segs(*hilite, #[trigger] hl@[j], files@[j]@),
        decreases files.len() - i,
    {
        let f = &files[i];
        let old = text_of(&f.old);
        let new = text_of(&f.new);
        rows.push(diff::build(old, new));
        hl.push((hilite.file(f.path.as_str(), old), hilite.file(f.path.as_str(), new)));
        i = i + 1;
    }
    (rows, hl)
}

/// The index of the first file with the given path, if any.
fn find_path(files: &Vec<FileDiff>, path: &str) -> (r: Option<usize>)
    ensures
        match r {
            Some(j) => j < files.len() && files@[j as int]@.path == path@ && forall|k: int|
                0 <= k < j ==> (#[trigger] files@[k])@.path != path@,
            None => forall|k: int| 0 <= k < files.len() ==> (#[trigger] files@[k])@.path != path@,
        },
{
    let mut i: usize = 0;
    while i < files.len()
        invariant
            i <= files.len(),
            forall|k: int| 0 <= k < i ==> (#[trigger] files@[k])@.path != path@,
        decreases files.len() - i,
    {
        if str_eq(files[i].path.as_str(), path) {
            return Some(i);
        }
        i = i + 1;
    }
    None
}

/// Whether two optional texts are equal.
fn same_opt_text(a: &Option<String>, b: &Option<String>) -> (r: bool)
    ensures
        r == (opt_text(*a) == opt_text(*b)),
{
    match (a, b) {
        (Some(x), Some(y)) => str_eq(x.as_str(), y.as_str()),
        (None, None) => true,
        _ => false,
    }
}

/// Whether two lists of file diffs are equal.
pub fn same_files(a: &Vec<FileDiff>, b: &Vec<FileDiff>) -> (r: bool)
    ensures
        r == (file_views(a@) == file_views(b@)),
{
    if a.len() != b.len() {
        proof {
            assert(file_views(a@).len() != file_views(b@).len());
        }
        return false;
    }
    let mut i: usize = 0;
    while i < a.len()
        invariant
            i <= a.len(),
            a.len() == b.len(),
            forall|j: int| 0 <= j < i ==> (#[trigger] a@[j])@ == b@[j]@,
        decreases a.len() - i,
    {
        let x = &a[i];
        let y = &b[i];
        let same = str_eq(x.path.as_str(), y.path.as_str()) && x.status == y.status
            && same_opt_text(&x.old, &y.old) && same_opt_text(&x.new, &y.new);
        if !same {
            proof {
                assert(file_views(a@)[i as int] != file_views(b@)[i as int]);
            }
            return false;
        }
        i = i + 1;
    }
    assert(file_views(a@) =~= file_views(b@));
    true
}

/// The tab-strip label of a file: ` <status> <path> `.
pub open spec fn tab_label_text(f: FileView) -> Seq<char> {
    seq![' ', f.status, ' '] + f.path + seq![' ']
}

/// The view the toggle switches to.
pub open spec fn toggled(v: View) -> View {
    match v {
        View::Split => View::Unified,
        View::Unified => View::Split,
    }
}

/// The left-pane width after widening it one step.
pub open spec fn widened(p: u16) -> u16 {
    if p + SPLIT_STEP <= SPLIT_MAX { (p + SPLIT_STEP) as u16 } else { SPLIT_MAX }
}

/// The left-pane width after narrowing it one step.
pub open spec fn narrowed(p: u16) -> u16 {
    let q: u16 = if p >= SPLIT_STEP { (p - SPLIT_STEP) as u16 } else { 0 };
    if q >= SPLIT_MIN { q } else { SPLIT_MIN }
}

/// Toggling the view twice gives back the view one started from, and so does
/// toggling syntax highlighting twice.
pub proof fn lemma_toggles_twice(v: View, syntax: bool)
    ensures
        toggled(toggled(v)) == v,
        !!syntax == syntax,
{
}

/// Widening the left pane one step and narrowing it one step gives back the
/// width one started from, unless widening hit the maximum; and narrowing then
/// widening does too, unless narrowing hit the minimum.
pub proof fn lemma_resize_round_trip(p: u16)
    requires
        SPLIT_MIN <= p <= SPLIT_MAX,
    ensures
        p + SPLIT_STEP <= SPLIT_MAX ==> narrowed(widened(p)) == p,
        p >= SPLIT_MIN + SPLIT_STEP ==> widened(narrowed(p)) == p,
{
}

/// The file after the next one's predecessor is the file one started from,
/// unless the selection wrapped around from the last file to the first.
pub proof fn lemma_next_then_prev(cur: int, len: int)
    requires
        0 <= cur < len - 1,
    ensures
        (cur + 1) % len - 1 == cur,
{
    vstd::arithmetic::div_mod::lemma_small_mod((cur + 1) as nat, len as nat);
}

/// From the last file, the next file is the first.
pub proof fn lemma_next_wraps(len: int)
    requires
        len > 0,
    ensures
        (len - 1 + 1) % len == 0,
{
    vstd::arithmetic::div_mod::lemma_mod_self_0(len);
}

impl App {
    /// The state is consistent: rows and segments are kept per file, the rows
    /// of each file are its aligned diff, the selection is a file (or 0 when
    /// there is none), and the divider stays within its bounds.
    pub open spec fn wf(&self) -> bool {
        &&& self.rows.len() == self.files.len()
        &&& self.hl.len() == self.files.len()
        &&& forall|i: int| 0 <= i < self.files.len() ==> row_views((#[trigger] self.rows@[i])@) == file_rows(
            self.files@[i]@,
        )
        &&& forall|i: int| 0 <= i < self.files.len() ==> has_line_segs(self.hilite, #[trigger] self.hl@[i], self.files@[i]@)
        &&& (self.files.len() == 0 ==> self.cur == 0)
        &&& (self.files.len() > 0 ==> self.cur < self.files.len())
        &&& SPLIT_MIN <= self.split_pct <= SPLIT_MAX
    }

    /// The furthest the body can scroll: the scrollable length less the
    /// viewport height, 0 when there is no file.
    pub open spec fn spec_max_v(&self) -> int {
        if self.files.len() == 0 {
            0
        } else {
            let len = if self.content_len >= self.rows@[self.cur as int].len() {
                self.content_len as int
            } else {
                self.rows@[self.cur as int].len() as int
            };
            if len > self.viewport_h { len - self.viewport_h } else { 0 }
        }
    }

    pub fn new(mode: Mode, files: Vec<FileDiff>, watch: bool) -> (app: Self)
        ensures
            app.wf(),
            app.mode@ == mode@,
            app.watch == watch,
            file_views(app.files@) == file_views(files@),
            app.syntax,
            app.cur == 0,
            app.v_offset == 0,
            app.h_offset == 0,
            app.view == View::Split,
            !app.quit,
            app.split_pct == 50,
            app.viewport_h == 0,
            app.tab_scroll == 0,
            app.content_len == 0,
    {
        let hilite = Highlighter::new();
        let (rows, hl) = build_views(&hilite, &files);
        App {
            mode,
            watch,
            files,
            rows,
            hl,
            hilite,
            syntax: true,
            cur: 0,
            v_offset: 0,
            h_offset: 0,
            view: View::Split,
            quit: false,
            split_pct: 50,
            viewport_h: 0,
            tab_scroll: 0,
            content_len: 0,
        }
    }

    /// Take freshly collected files (`None` when collecting failed) and rebuild
    /// the views if anything changed. The selected file stays selected where
    /// it is still in the list (found by its path), and the scroll position is
    /// kept, clamped to what is there now; nothing else changes. Returns
    /// whether the diff changed.
    pub fn reload(&mut self, fresh: Option<Vec<FileDiff>>) -> (changed: bool)
        requires
            old(self).wf(),
        ensures
            final(self).wf(),
            changed == match fresh {
                Some(f) => file_views(f@) != file_views(old(self).files@),
                None => false,
            },
            !changed ==> *final(self) == *old(self),
            changed ==> file_views(final(self).files@) == file_views(fresh->0@),
            changed ==> kept_selection(
                file_views(old(self).files@),
                old(self).cur as int,
                file_views(final(self).files@),
                final(self).cur as int,
            ),
            changed ==> final(self).v_offset == if old(self).v_offset <= final(self).spec_max_v() {
                old(self).v_offset as int
            } else {
                final(self).spec_max_v()
            },
            changed ==> *final(self) == (App {
                files: final(self).files,
                rows: final(self).rows,
                hl: final(self).hl,
                cur: final(self).cur,
                v_offset: final(self).v_offset,
                ..*old(self)
            }),
    {
        let files = match fresh {
            Some(f) => f,
            None => return false,
        };
        if same_files(&files, &self.files) {
            return false;
        }
        let found = if self.files.len() > 0 {
            find_path(&files, self.files[self.cur].path.as_str())
        } else {
            None
        };
        let ghost before = file_views(self.files@);
        let ghost cur0 = self.cur as int;
        let (rows, hl) = build_views(&self.hilite, &files);
        self.files = files;
        self.rows = rows;
        self.hl = hl;
        match found {
            Some(j) => {
                self.cur = j;
            },
            None => {
                if self.files.len() == 0 {
                    self.cur = 0;
                } else if self.cur >= self.files.len() {
                    self.cur = self.files.len() - 1;
                }
            },
        }
        proof {
            let after = file_views(self.files@);
            if 0 <= cur0 < before.len() {
                assert(before[cur0].path == old(self).files@[cur0]@.path);
            }
            assert forall|k: int| 0 <= k < after.len() implies (#[trigger] after[k]).path == self.files@[k]@.path by {}
            if found is None && 0 <= cur0 < before.len() {
                assert(!exists|j: int| 0 <= j < after.len() && (#[trigger] after[j]).path == before[cur0].path);
            }
        }
        let m = self.max_v();
        if self.v_offset > m {
            self.v_offset = m;
        }
        true
    }

    /// Move the split divider right (left pane wider).
    pub fn widen_left(&mut self)
        requires
            old(self).wf(),
        ensures
            final(self).wf(),
            final(self).split_pct == widened(old(self).split_pct),
            *final(self) == (App { split_pct: final(self).split_pct, ..*old(self) }),
    {
        let p = self.split_pct + SPLIT_STEP;
        self.split_pct = if p <= SPLIT_MAX { p } else { SPLIT_MAX };
    }

    /// Move the split divider left (left pane narrower, right pane wider).
    pub fn widen_right(&mut self)
        requires
            old(self).wf(),
        ensures
            final(self).wf(),
            final(self).split_pct == narrowed(old(self).split_pct),
            *final(self) == (App { split_pct: final(self).split_pct, ..*old(self) }),
    {
        let q = if self.split_pct >= SPLIT_STEP { self.split_pct - SPLIT_STEP } else { 0 };
        self.split_pct = if q >= SPLIT_MIN { q } else { SPLIT_MIN };
    }

    /// Label shown in the tab strip for a file: ` <status> <path> `.
    pub fn tab_label(&self, i: usize) -> (r: String)
        requires
            i < self.files.len(),
        ensures
            r@ == tab_label_text(self.files@[i as int]@),
    {
        let f = &self.files[i];
        let mut r = char_text(' ');
        r.append(char_text(f.status).as_str());
        r.append(char_text(' ').as_str());
        r.append(f.path.as_str());
        r.append(char_text(' ').as_str());
        assert(r@ =~= tab_label_text(self.files@[i as int]@));
        r
    }

    /// The rows of the current file.
    pub fn rows(&self) -> (r: &[Row])
        requires
            self.wf(),
            self.files.len() > 0,
        ensures
            r@ == self.rows@[self.cur as int]@,
    {
        self.rows[self.cur].as_slice()
    }

    /// Whether the current file has no actual changes.
    pub fn current_unchanged(&self) -> (r: bool)
        requires
            self.wf(),
            self.files.len() > 0,
        ensures
            r == forall|i: int| 0 <= i < self.rows@[self.cur as int].len()
                ==> (#[trigger] self.rows@[self.cur as int]@[i]).kind == Kind::Equal,
    {
        let rows = self.rows();
        let mut i: usize = 0;
        while i < rows.len()
            invariant
                i <= rows.len(),
                rows@ == self.rows@[self.cur as int]@,
                forall|j: int| 0 <= j < i ==> (#[trigger] rows@[j]).kind == Kind::Equal,
            decreases rows.len() - i,
        {
            if rows[i].kind != Kind::Equal {
                return false;
            }
            i = i + 1;
        }
        true
    }

    /// Syntax segments for line `num` (1-based) on the given side of the
    /// current file, or `None` when highlighting is off or `num` is out of
    /// range.
    pub fn segs(&self, left: bool, num: usize) -> (r: Option<&LineSegs>)
        requires
            self.wf(),
            self.files.len() > 0,
        ensures
            ({
                let side = if left { self.hl@[self.cur as int].0 } else { self.hl@[self.cur as int].1 };
                r == if self.syntax && 1 <= num && num - 1 < side.len() {
                    Some(&side@[num - 1])
                } else {
                    None
                }
            }),
    {
        if !self.syntax {
            return None;
        }
        if num == 0 {
            return None;
        }
        let pair = &self.hl[self.cur];
        let side = if left { &pair.0 } else { &pair.1 };
        if num - 1 < side.len() {
            Some(&side[num - 1])
        } else {
            None
        }
    }

    pub fn toggle_syntax(&mut self)
        requires
            old(self).wf(),
        ensures
            final(self).wf(),
            *final(self) == (App { syntax: !old(self).syntax, ..*old(self) }),
    {
        self.syntax = !self.syntax;
    }

    /// The furthest the body can scroll.
    fn max_v(&self) -> (r: usize)
        requires
            self.wf(),
        ensures
            r == self.spec_max_v(),
    {
        if self.files.len() == 0 {
            return 0;
        }
        let n = self.rows().len();
        let len = if self.content_len >= n { self.content_len } else { n };
        if len > self.viewport_h { len - self.viewport_h } else { 0 }
    }

    /// Scroll down `n` lines, stopping at the bottom.
    pub fn scroll_down(&mut self, n: usize)
        requires
            old(self).wf(),
            old(self).v_offset + n <= usize::MAX,
        ensures
            final(self).wf(),
            *final(self) == (App {
                v_offset: if old(self).v_offset + n <= old(self).spec_max_v() {
                    (old(self).v_offset + n) as usize
                } else {
                    old(self).spec_max_v() as usize
                },
                ..*old(self)
            }),
    {
        let m = self.max_v();
        let v = self.v_offset + n;
        self.v_offset = if v <= m { v } else { m };
    }

    /// Scroll up `n` lines, stopping at the top.
    pub fn scroll_up(&mut self, n: usize)
        requires
            old(self).wf(),
        ensures
            final(self).wf(),
            *final(self) == (App {
                v_offset: if old(self).v_offset >= n { (old(self).v_offset - n) as usize } else { 0 },
                ..*old(self)
            }),
    {
        self.v_offset = if self.v_offset >= n { self.v_offset - n } else { 0 };
    }

    /// Scroll right `n` columns.
    pub fn scroll_right(&mut self, n: usize)
        requires
            old(self).wf(),
            old(self).h_offset + n <= usize::MAX,
        ensures
            final(self).wf(),
            *final(self) == (App { h_offset: (old(self).h_offset + n) as usize, ..*old(self) }),
    {
        self.h_offset = self.h_offset + n;
    }

    /// Scroll left `n` columns, stopping at the first.
    pub fn scroll_left(&mut self, n: usize)
        requires
            old(self).wf(),
        ensures
            final(self).wf(),
            *final(self) == (App {
                h_offset: if old(self).h_offset >= n { (old(self).h_offset - n) as usize } else { 0 },
                ..*old(self)
            }),
    {
        self.h_offset = if self.h_offset >= n { self.h_offset - n } else { 0 };
    }

    /// Jump to the top.
    pub fn top(&mut self)
        requires
            old(self).wf(),
        ensures
            final(self).wf(),
            *final(self) == (App { v_offset: 0, ..*old(self) }),
    {
        self.v_offset = 0;
    }

    /// Jump to the bottom.
    pub fn bottom(&mut self)
        requires
            old(self).wf(),
        ensures
            final(self).wf(),
            *final(self) == (App { v_offset: old(self).spec_max_v() as usize, ..*old(self) }),
    {
        self.v_offset = self.max_v();
    }

    /// Select the next file, wrapping past the last back to the first, and
    /// scroll to its top-left.
    pub fn next_file(&mut self)
        requires
            old(self).wf(),
        ensures
            final(self).wf(),
            old(self).files.len() == 0 ==> *final(self) == *old(self),
            old(self).files.len() > 0 ==> {
                &&& final(self).cur == (old(self).cur + 1) % (old(self).files.len() as int)
                &&& final(self).v_offset == 0
                &&& final(self).h_offset == 0
                &&& *final(self) == (App { cur: final(self).cur, v_offset: 0, h_offset: 0, ..*old(self) })
            },
    {
        if self.files.len() == 0 {
            return;
        }
        self.cur = (self.cur + 1) % self.files.len();
        self.reset_scroll();
    }

    /// Select the previous file, if there is one, and scroll to its top-left.
    pub fn prev_file(&mut self)
        requires
            old(self).wf(),
        ensures
            final(self).wf(),
            old(self).cur == 0 ==> *final(self) == *old(self),
            old(self).cur > 0 ==> *final(self) == (App {
                cur: (old(self).cur - 1) as usize,
                v_offset: 0,
                h_offset: 0,
                ..*old(self)
            }),
    {
        if self.cur > 0 {
            self.cur = self.cur - 1;
            self.reset_scroll();
        }
    }

    fn reset_scroll(&mut self)
        ensures
            *final(self) == (App { v_offset: 0, h_offset: 0, ..*old(self) }),
    {
        self.v_offset = 0;
        self.h_offset = 0;
    }

    pub fn toggle_view(&mut self)
        requires
            old(self).wf(),
        ensures
            final(self).wf(),
            *final(self) == (App { view: toggled(old(self).view), ..*old(self) }),
    {
        self.view = match self.view {
            View::Split => View::Unified,
            View::Unified => View::Split,
        };
    }
}

} // verus!
