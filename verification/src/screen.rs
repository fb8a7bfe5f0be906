//! What a frame shows, computed from the viewer's state: the diff body (split
//! or unified), the file tab strip and the status bar.

use vstd::prelude::*;
use vstd::view::View as _;
use crate::app::{App, View, tab_label_text};
use crate::diff::{Kind, Row, RowView, CellView, row_views, side_cell};
use crate::git::{FileView, file_views};
use crate::highlight::LineSegs;
use crate::style::{Color, SpanStyle, StyledSpan, SpanView, span_views, fg_style, fg, fg_bg};
use crate::text::{decimal, usize_text};
use crate::ui::{cell_line, spec_cell_line, opt_segs};

verus! {

/// The views of a list of lines.
pub open spec fn lines_views(v: Seq<Vec<StyledSpan>>) -> Seq<Seq<SpanView>> {
    v.map_values(|l: Vec<StyledSpan>| span_views(l@))
}

/// The syntax segments the viewer shows for line `num` (1-based) on one side
/// of the current file: none when highlighting is off or the line has none.
pub open spec fn app_segs(app: App, left: bool, num: usize) -> Option<Seq<(usize, usize, Color)>> {
    let side = if left { app.hl@[app.cur as int].0 } else { app.hl@[app.cur as int].1 };
    if app.syntax && 1 <= num && num - 1 < side.len() { Some(side@[num - 1]@) } else { None }
}

/// The segments for a cell, if it is present.
pub open spec fn cell_segs(app: App, cell: Option<CellView>, left: bool) -> Option<Seq<(usize, usize, Color)>> {
    match cell {
        Some(c) => app_segs(app, left, c.num),
        None => None,
    }
}

/// The segments for a cell, if it is present.
fn segs_for<'a>(app: &'a App, cell: &Option<crate::diff::Cell>, left: bool) -> (r: Option<&'a LineSegs>)
    requires
        app.wf(),
        app.files.len() > 0,
    ensures
        opt_segs(r) == cell_segs(*app, crate::diff::opt_cell(*cell), left),
{
    match cell {
        Some(c) => app.segs(left, c.num),
        None => None,
    }
}

/// `s` from `start`, at most `h` elements; empty past the end.
pub open spec fn window<T>(s: Seq<T>, start: int, h: int) -> Seq<T> {
    if start >= s.len() {
        seq![]
    } else {
        s.subrange(start, if start + h < s.len() { start + h } else { s.len() as int })
    }
}

/// The lines of the unified view, as (row, side): an equal or removed row
/// shows its old line, an added row its new line, a changed row the old line
/// then the new one.
pub open spec fn unified_refs(rows: Seq<RowView>) -> Seq<(usize, bool)>
    decreases rows.len(),
{
    if rows.len() == 0 {
        seq![]
    } else {
        let prev = unified_refs(rows.drop_last());
        let i = (rows.len() - 1) as usize;
        match rows.last().kind {
            Kind::Equal => prev.push((i, true)),
            Kind::Removed => prev.push((i, true)),
            Kind::Added => prev.push((i, false)),
            Kind::Changed => prev.push((i, true)).push((i, false)),
        }
    }
}

/// Number of changed rows.
pub open spec fn changed_rows(rows: Seq<RowView>) -> int
    decreases rows.len(),
{
    if rows.len() == 0 {
        0
    } else {
        changed_rows(rows.drop_last()) + if rows.last().kind == Kind::Changed { 1int } else { 0 }
    }
}

/// The unified view shows every row once, and a changed row twice (its old
/// line, then its new line), in row order.
pub proof fn lemma_unified_lines_cover_rows(rows: Seq<RowView>)
    requires
        rows.len() <= usize::MAX,
    ensures
        unified_refs(rows).len() == rows.len() + changed_rows(rows),
        forall|k: int| 0 <= k < unified_refs(rows).len() ==> (#[trigger] unified_refs(rows)[k]).0 < rows.len(),
        forall|k: int, l: int| 0 <= k < l < unified_refs(rows).len()
            ==> (#[trigger] unified_refs(rows)[k]).0 <= (#[trigger] unified_refs(rows)[l]).0,
    decreases rows.len(),
{
    if rows.len() > 0 {
        let prev = unified_refs(rows.drop_last());
        let r = unified_refs(rows);
        lemma_unified_lines_cover_rows(rows.drop_last());
        assert forall|k: int| 0 <= k < prev.len() implies #[trigger] r[k] == prev[k] by {}
        assert forall|k: int| prev.len() <= k < r.len() implies (#[trigger] r[k]).0 == rows.len() - 1 by {}
        assert forall|k: int, l: int| 0 <= k < l < r.len() implies (#[trigger] r[k]).0 <= (#[trigger] r[l]).0 by {
            if l < prev.len() {
                assert(r[k] == prev[k]);
                assert(r[l] == prev[l]);
            } else if k < prev.len() {
                assert(r[k] == prev[k]);
            }
        }
    }
}

/// A count of changed rows is at least zero.
proof fn lemma_changed_rows_nonneg(rows: Seq<RowView>)
    ensures
        0 <= changed_rows(rows),
    decreases rows.len(),
{
    if rows.len() > 0 {
        lemma_changed_rows_nonneg(rows.drop_last());
    }
}

/// The unified-view lines of row `i` (see `lemma_unified_row_lines`).
proof fn lemma_unified_row_line(rows: Seq<RowView>, i: int)
    requires
        rows.len() <= usize::MAX,
        0 <= i < rows.len(),
    ensures
        ({
            let refs = unified_refs(rows);
            let k = i + changed_rows(rows.take(i));
            &&& k < refs.len()
            &&& refs[k] == (i as usize, rows[i].kind != Kind::Added)
            &&& rows[i].kind == Kind::Changed ==> k + 1 < refs.len() && refs[k + 1] == (i as usize, false)
        }),
    decreases rows.len(),
{
    let n = rows.len() - 1;
    let p = rows.drop_last();
    let prev = unified_refs(p);
    let refs = unified_refs(rows);
    lemma_unified_lines_cover_rows(p);
    lemma_changed_rows_nonneg(rows.take(i));
    assert(refs.len() >= prev.len());
    if i < n {
        lemma_unified_row_line(p, i);
        assert(rows.take(i) =~= p.take(i));
        assert(rows[i] == p[i]);
        let k = i + changed_rows(p.take(i));
        assert(k < prev.len());
        let last = (rows.len() - 1) as usize;
        assert(refs == match rows.last().kind {
            Kind::Equal => prev.push((last, true)),
            Kind::Removed => prev.push((last, true)),
            Kind::Added => prev.push((last, false)),
            Kind::Changed => prev.push((last, true)).push((last, false)),
        });
        match rows.last().kind {
            Kind::Changed => {
                let q = prev.push((last, true));
                assert(q[k] == prev[k]);
                assert(refs[k] == q[k]);
                if p[i].kind == Kind::Changed {
                    assert(k + 1 < prev.len());
                    assert(q[k + 1] == prev[k + 1]);
                    assert(refs[k + 1] == q[k + 1]);
                }
            },
            _ => {
                assert(refs[k] == prev[k]);
                if p[i].kind == Kind::Changed {
                    assert(refs[k + 1] == prev[k + 1]);
                }
            },
        }
    } else {
        assert(rows.take(i) =~= p);
        assert(rows[i] == rows.last());
    }
}

/// In the unified view, the lines of row `i` start after those of the rows
/// before it, where each row takes one line and a changed row two. The first
/// is the row's old line, except for an added row, which shows its new line;
/// a changed row's second line is its new line.
pub proof fn lemma_unified_row_lines(rows: Seq<RowView>)
    requires
        rows.len() <= usize::MAX,
    ensures
        forall|i: int| 0 <= i < rows.len() ==> {
            let refs = unified_refs(rows);
            let k = i + changed_rows(rows.take(i));
            &&& k < refs.len()
            &&& refs[k] == (i as usize, (#[trigger] rows[i]).kind != Kind::Added)
            &&& rows[i].kind == Kind::Changed ==> k + 1 < refs.len() && refs[k + 1] == (i as usize, false)
        },
{
    assert forall|i: int| 0 <= i < rows.len() implies {
        let refs = unified_refs(rows);
        let k = i + changed_rows(rows.take(i));
        &&& k < refs.len()
        &&& refs[k] == (i as usize, (#[trigger] rows[i]).kind != Kind::Added)
        &&& rows[i].kind == Kind::Changed ==> k + 1 < refs.len() && refs[k + 1] == (i as usize, false)
    } by {
        lemma_unified_row_line(rows, i);
    }
}

/// Every line of the unified view shows a side of its row that holds a line:
/// no line of the view is a padding gap.
pub proof fn lemma_unified_lines_are_cells(rows: Seq<RowView>)
    requires
        rows.len() <= usize::MAX,
        forall|i: int| 0 <= i < rows.len() ==> crate::diff::row_form(#[trigger] rows[i]),
    ensures
        forall|k: int| 0 <= k < unified_refs(rows).len() ==> side_cell(
            rows[(#[trigger] unified_refs(rows)[k]).0 as int],
            unified_refs(rows)[k].1,
        ) is Some,
    decreases rows.len(),
{
    if rows.len() > 0 {
        let p = rows.drop_last();
        assert forall|i: int| 0 <= i < p.len() implies crate::diff::row_form(#[trigger] p[i]) by {
            assert(p[i] == rows[i]);
        }
        lemma_unified_lines_are_cells(p);
        lemma_unified_lines_cover_rows(p);
        let prev = unified_refs(p);
        let refs = unified_refs(rows);
        assert(crate::diff::row_form(rows[rows.len() - 1]));
        assert forall|k: int| 0 <= k < refs.len() implies side_cell(
            rows[(#[trigger] refs[k]).0 as int],
            refs[k].1,
        ) is Some by {
            if k < prev.len() {
                assert(refs[k] == prev[k]);
                assert(rows[prev[k].0 as int] == p[prev[k].0 as int]);
            }
        }
    }
}

/// The spans of one line of the unified view.
pub open spec fn unified_line(app: App, width: int, r: (usize, bool)) -> Seq<SpanView> {
    let row = row_views(app.rows@[app.cur as int]@)[r.0 as int];
    let cell = side_cell(row, r.1);
    spec_cell_line(cell, row.kind, r.1, app.h_offset as int, width, cell_segs(app, cell, r.1))
}

/// One line per pair of the split view, the old pane's and the new pane's.
pub open spec fn split_line(app: App, width: int, row: RowView, left: bool) -> Seq<SpanView> {
    let cell = side_cell(row, left);
    spec_cell_line(cell, row.kind, left, app.h_offset as int, width, cell_segs(app, cell, left))
}

/// The lines of the unified view of the current file, as (row, side).
fn unified_refs_of(rows: &[Row]) -> (r: Vec<(usize, bool)>)
    ensures
        r@ == unified_refs(row_views(rows@)),
        forall|j: int| 0 <= j < r.len() ==> (#[trigger] r@[j]).0 < rows.len(),
{
    let ghost rv = row_views(rows@);
    let mut r: Vec<(usize, bool)> = Vec::new();
    let mut i: usize = 0;
    assert(rv.take(0) =~= Seq::<RowView>::empty());
    while i < rows.len()
        invariant
            i <= rows.len(),
            rv == row_views(rows@),
            r@ == unified_refs(rv.take(i as int)),
            forall|j: int| 0 <= j < r.len() ==> (#[trigger] r@[j]).0 < i,
        decreases rows.len() - i,
    {
        proof {
            assert(rv.take(i + 1).drop_last() =~= rv.take(i as int));
            assert(rv.take(i + 1).last() == rows@[i as int]@);
        }
        match rows[i].kind {
            Kind::Equal => r.push((i, true)),
            Kind::Removed => r.push((i, true)),
            Kind::Added => r.push((i, false)),
            Kind::Changed => {
                r.push((i, true));
                r.push((i, false));
            },
        }
        i = i + 1;
    }
    assert(rv.take(rows.len() as int) =~= rv);
    r
}

/// The classic single-column unified diff of the current file, `width`
/// columns wide: the lines from the scroll offset on, at most `height`. Records
/// the number of lines as the scrollable length.
pub fn unified_body(app: &mut App, width: usize, height: usize) -> (r: Vec<Vec<StyledSpan>>)
    requires
        old(app).wf(),
        old(app).files.len() > 0,
    ensures
        *final(app) == (App {
            content_len: unified_refs(row_views(old(app).rows@[old(app).cur as int]@)).len() as usize,
            ..*old(app)
        }),
        lines_views(r@) == window(
            unified_refs(row_views(old(app).rows@[old(app).cur as int]@)),
            old(app).v_offset as int,
            height as int,
        ).map_values(|x: (usize, bool)| unified_line(*old(app), width as int, x)),
{
    let refs = unified_refs_of(app.rows());
    app.content_len = refs.len();
    let ghost a = *app;
    let rows = app.rows();
    let start = if app.v_offset < refs.len() { app.v_offset } else { refs.len() };
    let end = if height < refs.len() - start {
        start + height
    } else {
        refs.len()
    };
    let mut out: Vec<Vec<StyledSpan>> = Vec::new();
    let mut k = start;
    assert(refs@.subrange(start as int, start as int) =~= Seq::<(usize, bool)>::empty());
    assert(lines_views(out@) =~= Seq::<Seq<SpanView>>::empty());
    while k < end
        invariant
            start <= k <= end,
            end <= refs.len(),
            a == *app,
            a.wf(),
            a.files.len() > 0,
            rows@ == a.rows@[a.cur as int]@,
            refs@ == unified_refs(row_views(rows@)),
            forall|j: int| 0 <= j < refs.len() ==> (#[trigger] refs@[j]).0 < rows.len(),
            lines_views(out@) == refs@.subrange(start as int, k as int).map_values(
                |x: (usize, bool)| unified_line(a, width as int, x),
            ),
        decreases end - k,
    {
        let (i, left) = refs[k];
        let row = &rows[i];
        let cell = if left { &row.left } else { &row.right };
        let segs = segs_for(app, cell, left);
        let line = cell_line(cell, row.kind, left, app.h_offset, width, segs);
        proof {
            assert(row_views(rows@)[i as int] == row@);
            assert(lines_views(out@.push(line)) =~= lines_views(out@).push(span_views(line@)));
            assert(refs@.subrange(start as int, k + 1) =~= refs@.subrange(start as int, k as int).push(refs@[k as int]));
        }
        out.push(line);
        k = k + 1;
    }
    assert(refs@.subrange(start as int, end as int) =~= window(refs@, a.v_offset as int, height as int));
    out
}


/// The split view of the current file: for each row from the scroll offset
/// on, at most `height`, the old pane's line (`left_w` wide) and the new
/// pane's (`right_w` wide). Records the number of rows as the scrollable length.
pub fn split_body(app: &mut App, left_w: usize, right_w: usize, height: usize) -> (r: (Vec<Vec<StyledSpan>>, Vec<Vec<StyledSpan>>))
    requires
        old(app).wf(),
        old(app).files.len() > 0,
    ensures
        *final(app) == (App { content_len: old(app).rows@[old(app).cur as int].len(), ..*old(app) }),
        lines_views(r.0@) == window(row_views(old(app).rows@[old(app).cur as int]@), old(app).v_offset as int, height as int)
            .map_values(|row: RowView| split_line(*old(app), left_w as int, row, true)),
        lines_views(r.1@) == window(row_views(old(app).rows@[old(app).cur as int]@), old(app).v_offset as int, height as int)
            .map_values(|row: RowView| split_line(*old(app), right_w as int, row, false)),
{
    app.content_len = app.rows().len();
    let ghost a = *app;
    let rows = app.rows();
    let ghost rv = row_views(rows@);
    let n = rows.len();
    let start = if app.v_offset < n { app.v_offset } else { n };
    let end = if height < n - start { start + height } else { n };
    let mut lefts: Vec<Vec<StyledSpan>> = Vec::new();
    let mut rights: Vec<Vec<StyledSpan>> = Vec::new();
    let mut k = start;
    assert(rv.subrange(start as int, start as int) =~= Seq::<RowView>::empty());
    assert(lines_views(lefts@) =~= Seq::<Seq<SpanView>>::empty());
    assert(lines_views(rights@) =~= Seq::<Seq<SpanView>>::empty());
    while k < end
        invariant
            start <= k <= end <= n,
            n == rows.len(),
            a == *app,
            a.wf(),
            a.files.len() > 0,
            rows@ == a.rows@[a.cur as int]@,
            rv == row_views(rows@),
            lines_views(lefts@) == rv.subrange(start as int, k as int).map_values(
                |row: RowView| split_line(a, left_w as int, row, true),
            ),
            lines_views(rights@) == rv.subrange(start as int, k as int).map_values(
                |row: RowView| split_line(a, right_w as int, row, false),
            ),
        decreases end - k,
    {
        let row = &rows[k];
        let lseg = segs_for(app, &row.left, true);
        let rseg = segs_for(app, &row.right, false);
        let l = cell_line(&row.left, row.kind, true, app.h_offset, left_w, lseg);
        let r = cell_line(&row.right, row.kind, false, app.h_offset, right_w, rseg);
        proof {
            assert(rv[k as int] == row@);
            assert(lines_views(lefts@.push(l)) =~= lines_views(lefts@).push(span_views(l@)));
            assert(lines_views(rights@.push(r)) =~= lines_views(rights@).push(span_views(r@)));
            assert(rv.subrange(start as int, k + 1) =~= rv.subrange(start as int, k as int).push(rv[k as int]));
        }
        lefts.push(l);
        rights.push(r);
        k = k + 1;
    }
    assert(rv.subrange(start as int, end as int) =~= window(rv, a.v_offset as int, height as int));
    (lefts, rights)
}

/// The color a file's status is shown in: added green, deleted red, modified
/// yellow, anything else cyan.
pub open spec fn status_color(status: char) -> Color {
    if status == 'A' {
        Color::Green
    } else if status == 'D' {
        Color::Red
    } else if status == 'M' {
        Color::Yellow
    } else {
        Color::Cyan
    }
}

/// The style a file's status is shown in.
pub fn status_style(status: char) -> (s: SpanStyle)
    ensures
        s == fg_style(status_color(status)),
{
    let c = match status {
        'A' => Color::Green,
        'D' => Color::Red,
        'M' => Color::Yellow,
        _ => Color::Cyan,
    };
    fg(c)
}

/// Total width of the labels of files `0..i`.
pub open spec fn labels_width(files: Seq<FileView>, i: int) -> int
    decreases i,
{
    if i <= 0 {
        0
    } else {
        labels_width(files, i - 1) + tab_label_text(files[i - 1]).len()
    }
}

/// The tab-strip scroll that keeps the active tab, spanning columns
/// `a_start..a_end`, in an `area_w` wide strip: scrolled back to its start when
/// it begins before the view, forward to show its end when it ends after it.
pub open spec fn kept_scroll(a_start: int, a_end: int, scroll: int, area_w: int) -> int {
    if a_start < scroll {
        a_start
    } else if a_end > scroll + area_w {
        if a_end >= area_w { a_end - area_w } else { 0 }
    } else {
        scroll
    }
}

/// The kept scroll shows the whole active tab whenever it fits in the strip,
/// and does not move when the tab is already in view.
pub proof fn lemma_kept_scroll_shows_tab(a_start: int, a_end: int, scroll: int, area_w: int)
    requires
        0 <= a_start <= a_end,
        0 <= scroll,
        0 <= area_w,
        a_end - a_start <= area_w,
    ensures
        kept_scroll(a_start, a_end, scroll, area_w) <= a_start,
        a_end <= kept_scroll(a_start, a_end, scroll, area_w) + area_w,
        scroll <= a_start && a_end <= scroll + area_w ==> kept_scroll(a_start, a_end, scroll, area_w) == scroll,
{
}

/// The style of the tab of file `i`: the active one white on a raised
/// background and bold, the others in their status color on the strip's
/// background.
pub open spec fn tab_style(app: App, i: int) -> SpanStyle {
    if i == app.cur {
        SpanStyle { fg: Some(Color::White), bg: Some(Color::Rgb(55, 55, 70)), bold: true }
    } else {
        SpanStyle { fg: Some(status_color(app.files@[i].status)), bg: Some(Color::Rgb(28, 28, 34)), bold: false }
    }
}

/// The labels of all tabs fit in a machine word of columns.
pub open spec fn tabs_fit(app: App) -> bool {
    labels_width(file_views(app.files@), app.files.len() as int) <= usize::MAX
}

/// Whether the labels of all tabs fit in a machine word of columns.
pub fn tab_widths_fit(app: &App) -> (r: bool)
    ensures
        r == tabs_fit(*app),
{
    let ghost fv = file_views(app.files@);
    let mut total: usize = 0;
    let mut i: usize = 0;
    while i < app.files.len()
        invariant
            i <= app.files.len(),
            fv == file_views(app.files@),
            total == labels_width(fv, i as int),
            forall|j: int| 0 <= j <= i ==> labels_width(fv, j) <= labels_width(fv, i as int),
        decreases app.files.len() - i,
    {
        let w = app.files[i].path.unicode_len();
        assert(tab_label_text(fv[i as int]).len() == w + 4);
        if w > usize::MAX - 4 || total > usize::MAX - 4 - w {
            proof {
                lemma_labels_width_monotone(fv, i + 1, app.files.len() as int);
            }
            return false;
        }
        total = total + w + 4;
        i = i + 1;
    }
    true
}

/// Label widths only add up.
proof fn lemma_labels_width_monotone(files: Seq<FileView>, i: int, j: int)
    requires
        0 <= i <= j,
    ensures
        labels_width(files, i) <= labels_width(files, j),
    decreases j - i,
{
    if i < j {
        lemma_labels_width_monotone(files, i, j - 1);
    }
}

/// The file tab strip, `area_w` columns wide: one span per file, its label in
/// its tab style; the strip's scroll is moved so the active tab is fully in
/// view when it fits.
pub fn tab_strip(app: &mut App, area_w: usize) -> (r: Vec<StyledSpan>)
    requires
        old(app).wf(),
        old(app).files.len() > 0,
        tabs_fit(*old(app)),
        old(app).tab_scroll + area_w <= usize::MAX,
    ensures
        ({
            let fv = file_views(old(app).files@);
            let a_start = labels_width(fv, old(app).cur as int);
            let a_end = labels_width(fv, old(app).cur + 1);
            *final(app) == (App {
                tab_scroll: kept_scroll(a_start, a_end, old(app).tab_scroll as int, area_w as int) as usize,
                ..*old(app)
            })
        }),
        r.len() == old(app).files.len(),
        forall|i: int| 0 <= i < r.len() ==> (#[trigger] r@[i])@ == (SpanView {
            content: tab_label_text(old(app).files@[i]@),
            style: tab_style(*old(app), i),
        }),
{
    let ghost fv = file_views(app.files@);
    let mut start: usize = 0;
    let mut i: usize = 0;
    // Column where the active tab starts.
    while i < app.cur
        invariant
            i <= app.cur < app.files.len(),
            fv == file_views(app.files@),
            tabs_fit(*app),
            start == labels_width(fv, i as int),
        decreases app.cur - i,
    {
        proof {
            lemma_labels_width_monotone(fv, i + 1, app.files.len() as int);
        }
        start = start + app.files[i].path.unicode_len() + 4;
        i = i + 1;
    }
    proof {
        lemma_labels_width_monotone(fv, app.cur + 1, app.files.len() as int);
    }
    let end = start + app.files[app.cur].path.unicode_len() + 4;
    if start < app.tab_scroll {
        app.tab_scroll = start;
    } else if end > app.tab_scroll + area_w {
        app.tab_scroll = if end >= area_w { end - area_w } else { 0 };
    }
    let ghost a = *app;
    let mut spans: Vec<StyledSpan> = Vec::new();
    let mut k: usize = 0;
    while k < app.files.len()
        invariant
            k <= app.files.len(),
            a == *app,
            a.wf(),
            spans.len() == k,
            forall|i: int| 0 <= i < k ==> (#[trigger] spans@[i])@ == (SpanView {
                content: tab_label_text(app.files@[i]@),
                style: tab_style(a, i),
            }),
        decreases app.files.len() - k,
    {
        let label = app.tab_label(k);
        let style = if k == app.cur {
            SpanStyle { fg: Some(Color::White), bg: Some(Color::Rgb(55, 55, 70)), bold: true }
        } else {
            let st = status_style(app.files[k].status);
            SpanStyle { bg: Some(Color::Rgb(28, 28, 34)), ..st }
        };
        spans.push(StyledSpan { content: label, style });
        k = k + 1;
    }
    spans
}


/// The furthest the view can scroll, by the last frame's sizes.
pub open spec fn scroll_max(app: App) -> int {
    if app.content_len > app.viewport_h { app.content_len - app.viewport_h } else { 0 }
}

/// The scroll percentage can be computed without overflow.
pub open spec fn scroll_pct_fits(app: App) -> bool {
    0 < app.v_offset < scroll_max(app) ==> app.v_offset * 100 <= usize::MAX
}

/// Where the view is scrolled: `All` when everything fits, `Top` at the top,
/// `Bot` at the bottom, else the percentage scrolled, rounded down.
pub open spec fn spec_scroll_pct(app: App) -> Seq<char> {
    let max = scroll_max(app);
    if max == 0 {
        "All"@
    } else if app.v_offset == 0 {
        "Top"@
    } else if app.v_offset >= max {
        "Bot"@
    } else {
        decimal((app.v_offset * 100 / max) as nat) + "%"@
    }
}

/// "All" / "Top" / "Bot" / "NN%" describing the vertical scroll position.
pub fn scroll_pct(app: &App) -> (r: String)
    requires
        scroll_pct_fits(*app),
    ensures
        r@ == spec_scroll_pct(*app),
{
    let max = if app.content_len > app.viewport_h { app.content_len - app.viewport_h } else { 0 };
    if max == 0 {
        return String::from_str("All");
    }
    if app.v_offset == 0 {
        String::from_str("Top")
    } else if app.v_offset >= max {
        String::from_str("Bot")
    } else {
        let mut r = usize_text(app.v_offset * 100 / max);
        r.append("%");
        r
    }
}

/// The key help shown in the status bar.
pub const HELP: &'static str = "q quit  j/k scroll  h/l ←→  n/p file  [ ] width  u view";

/// The position text: ` [<file>/<files>] `, with file 0 when there is none.
pub open spec fn position_text(app: App) -> Seq<char> {
    let cur: nat = if app.files.len() == 0 { 0 } else { (app.cur + 1) as nat };
    " ["@ + decimal(cur) + "/"@ + decimal(app.files.len() as nat) + "] "@
}

/// The status bar: position, the watch marker in watch mode, the view's name,
/// the key help, and the scroll position.
pub open spec fn spec_status(app: App) -> Seq<SpanView> {
    let pos = SpanView { content: position_text(app), style: SpanStyle { fg: Some(Color::Black), bg: Some(Color::Gray), bold: false } };
    let watch = SpanView { content: " WATCH "@, style: SpanStyle { fg: Some(Color::Black), bg: Some(Color::Green), bold: false } };
    let mode = SpanView {
        content: match app.view {
            View::Split => " SPLIT "@,
            View::Unified => " UNIFIED "@,
        },
        style: SpanStyle { fg: Some(Color::Black), bg: Some(Color::Cyan), bold: false },
    };
    let help = SpanView { content: " "@ + HELP@ + "  "@, style: fg_style(Color::Gray) };
    let scroll = SpanView { content: spec_scroll_pct(app), style: fg_style(Color::DarkGray) };
    if app.watch {
        seq![pos, watch, mode, help, scroll]
    } else {
        seq![pos, mode, help, scroll]
    }
}

/// The spans of the status bar.
pub fn status_spans(app: &App) -> (r: Vec<StyledSpan>)
    requires
        app.wf(),
        scroll_pct_fits(*app),
    ensures
        span_views(r@) == spec_status(*app),
{
    let cur = if app.files.len() == 0 { 0 } else { app.cur + 1 };
    let mut pos = String::from_str(" [");
    pos.append(usize_text(cur).as_str());
    pos.append("/");
    pos.append(usize_text(app.files.len()).as_str());
    pos.append("] ");
    let mut spans: Vec<StyledSpan> = Vec::new();
    spans.push(StyledSpan { content: pos, style: fg_bg(Color::Black, Color::Gray) });
    if app.watch {
        spans.push(StyledSpan { content: String::from_str(" WATCH "), style: fg_bg(Color::Black, Color::Green) });
    }
    let mode = match app.view {
        View::Split => String::from_str(" SPLIT "),
        View::Unified => String::from_str(" UNIFIED "),
    };
    spans.push(StyledSpan { content: mode, style: fg_bg(Color::Black, Color::Cyan) });
    let mut help = String::from_str(" ");
    help.append(HELP);
    help.append("  ");
    spans.push(StyledSpan { content: help, style: fg(Color::Gray) });
    spans.push(StyledSpan { content: scroll_pct(app), style: fg(Color::DarkGray) });
    assert(span_views(spans@) =~= spec_status(*app));
    spans
}

/// What the diff body of a frame shows.
pub enum Body {
    /// Watch mode with nothing to show yet (e.g. all changes reverted).
    Waiting,
    /// The current file has no changes.
    Unchanged,
    /// Old pane lines and new pane lines.
    Split(Vec<Vec<StyledSpan>>, Vec<Vec<StyledSpan>>),
    /// Unified lines.
    Unified(Vec<Vec<StyledSpan>>),
}

/// Lay out the diff body of a frame whose body is `height` rows tall: the
/// split panes are `left_w` and `right_w` columns wide (the old pane less its
/// divider), the unified column `width`. Records the viewport height; with no
/// file the body waits for changes; with an unchanged file the scrollable
/// length is 0; otherwise the current view is drawn.
pub fn render_body(app: &mut App, height: usize, left_w: usize, right_w: usize, width: usize) -> (r: Body)
    requires
        old(app).wf(),
    ensures
        final(app).wf(),
        final(app).viewport_h == height,
        old(app).files.len() == 0 ==> r is Waiting && *final(app) == (App { viewport_h: height, ..*old(app) }),
        old(app).files.len() > 0 ==> {
            let a = App { viewport_h: height, ..*old(app) };
            let rows = row_views(old(app).rows@[old(app).cur as int]@);
            if forall|i: int| 0 <= i < rows.len() ==> (#[trigger] rows[i]).kind == Kind::Equal {
                r is Unchanged && *final(app) == (App { content_len: 0, ..a })
            } else {
                match old(app).view {
                    View::Split => r matches Body::Split(l, rr) && *final(app) == (App {
                            content_len: old(app).rows@[old(app).cur as int].len(), ..a })
                        && lines_views(l@) == window(rows, a.v_offset as int, height as int).map_values(
                            |row: RowView| split_line(a, left_w as int, row, true))
                        && lines_views(rr@) == window(rows, a.v_offset as int, height as int).map_values(
                            |row: RowView| split_line(a, right_w as int, row, false)),
                    View::Unified => r matches Body::Unified(u) && *final(app) == (App {
                            content_len: unified_refs(rows).len() as usize, ..a })
                        && lines_views(u@) == window(unified_refs(rows), a.v_offset as int, height as int)
                            .map_values(|x: (usize, bool)| unified_line(a, width as int, x)),
                }
            }
        },
{
    app.viewport_h = height;
    if app.files.len() == 0 {
        return Body::Waiting;
    }
    let unchanged = app.current_unchanged();
    proof {
        let rows = row_views(app.rows@[app.cur as int]@);
        assert(forall|i: int| 0 <= i < rows.len() ==> #[trigger] rows[i] == app.rows@[app.cur as int]@[i]@);
    }
    if unchanged {
        app.content_len = 0;
        return Body::Unchanged;
    }
    proof {
        let rv = app.rows@[app.cur as int]@;
        let rows = row_views(rv);
        let i = choose|i: int| 0 <= i < rv.len() && (#[trigger] rv[i]).kind != Kind::Equal;
        assert(rows[i].kind != Kind::Equal);
    }
    match app.view {
        View::Split => {
            let (l, r) = split_body(app, left_w, right_w, height);
            Body::Split(l, r)
        },
        View::Unified => Body::Unified(unified_body(app, width, height)),
    }
}

/// A rectangle of the terminal, in cells.
#[derive(Debug, Clone, Copy, PartialEq, Eq, Structural)]
pub struct Area {
    pub x: u16,
    pub y: u16,
    pub width: u16,
    pub height: u16,
}

/// A one-row area centered vertically in `area` (for the body's messages).
pub fn centered_row(area: Area) -> (r: Area)
    requires
        area.y + area.height / 2 <= u16::MAX,
    ensures
        r == (Area { x: area.x, y: (area.y + area.height / 2) as u16, width: area.width, height: 1 }),
{
    Area { x: area.x, y: area.y + area.height / 2, width: area.width, height: 1 }
}

} // verus!
