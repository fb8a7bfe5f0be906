//! Turn an old/new text pair into screen-ready, left/right-aligned rows.
//!
//! The point of the alignment: unchanged lines land on the same screen row in
//! both panes, and changed blocks get padding so additions on the right line
//! up with deletions on the left. With that, a renderer only needs a single
//! shared vertical scroll offset.

use vstd::prelude::*;
use crate::text::{views, split_lines, trim_newline, trim_nl, byte_len};
use crate::inline::{Side, side_ranges, similar_char_changes, inline_ranges, ranges_well_formed, ranges_on_boundaries, unmarked};

verus! {

/// One side of a row. An absent side (`None`) is a padding gap.
#[derive(Debug, Clone)]
pub struct Cell {
    /// 1-based line number in its own file.
    pub num: usize,
    pub text: String,
    /// Byte ranges within `text` that actually changed (intra-line highlight).
    pub inline: Vec<(usize, usize)>,
}

/// What a row shows.
#[derive(Debug, Clone, Copy, PartialEq, Eq, Structural)]
pub enum Kind {
    Equal,
    Removed,
    Added,
    /// Both sides present but different (a paired replace line).
    Changed,
}

/// One screen row: the old line on the left, the new line on the right.
#[derive(Debug, Clone)]
pub struct Row {
    pub left: Option<Cell>,
    pub right: Option<Cell>,
    pub kind: Kind,
}

/// The mathematical value of a cell.
pub struct CellView {
    pub num: usize,
    pub text: Seq<char>,
    pub inline: Seq<(usize, usize)>,
}

/// The mathematical value of a row.
pub struct RowView {
    pub left: Option<CellView>,
    pub right: Option<CellView>,
    pub kind: Kind,
}

impl View for Cell {
    type V = CellView;

    open spec fn view(&self) -> CellView {
        CellView { num: self.num, text: self.text@, inline: self.inline@ }
    }
}

/// The value of an optional cell.
pub open spec fn opt_cell(c: Option<Cell>) -> Option<CellView> {
    match c {
        Some(c) => Some(c@),
        None => None,
    }
}

impl View for Row {
    type V = RowView;

    open spec fn view(&self) -> RowView {
        RowView { left: opt_cell(self.left), right: opt_cell(self.right), kind: self.kind }
    }
}

/// The values of a sequence of rows.
pub open spec fn row_views(rows: Seq<Row>) -> Seq<RowView> {
    rows.map_values(|r: Row| r@)
}

/// The shape of a line-level diff operation.
#[derive(Debug, Clone, Copy, PartialEq, Eq, Structural)]
pub enum OpTag {
    Equal,
    Delete,
    Insert,
    Replace,
}

/// A line-level diff operation: old lines `old_start..old_end` correspond to
/// new lines `new_start..new_end`.
#[derive(Debug, Clone, Copy, PartialEq, Eq, Structural)]
pub struct LineOp {
    pub tag: OpTag,
    pub old_start: usize,
    pub old_end: usize,
    pub new_start: usize,
    pub new_end: usize,
}

/// The line-level diff operations of `similar::TextDiff::from_lines(old, new)`.
pub uninterp spec fn similar_line_ops(old: Seq<char>, new: Seq<char>) -> Seq<LineOp>;

/// Number of old lines the operations span.
pub open spec fn old_span(ops: Seq<LineOp>) -> int
    decreases ops.len(),
{
    if ops.len() == 0 {
        0
    } else {
        old_span(ops.drop_last()) + (ops.last().old_end - ops.last().old_start)
    }
}

/// Number of new lines the operations span.
pub open spec fn new_span(ops: Seq<LineOp>) -> int
    decreases ops.len(),
{
    if ops.len() == 0 {
        0
    } else {
        new_span(ops.drop_last()) + (ops.last().new_end - ops.last().new_start)
    }
}

/// The operations cover `old_len` old lines and `new_len` new lines from the
/// first to the last, in order, each starting where the one before ended,
/// each well shaped.
pub open spec fn ops_chain(ops: Seq<LineOp>, old_len: int, new_len: int) -> bool {
    &&& forall|i: int| 0 <= i < ops.len() ==> {
        &&& op_shaped(#[trigger] ops[i])
        &&& ops[i].old_start == old_span(ops.take(i))
        &&& ops[i].new_start == new_span(ops.take(i))
    }
    &&& old_span(ops) == old_len
    &&& new_span(ops) == new_len
}

/// Equal runs pair off lines that are equal.
pub open spec fn equal_runs_match(ops: Seq<LineOp>, old: Seq<Seq<char>>, new: Seq<Seq<char>>) -> bool {
    forall|k: int, i: int| 0 <= k < ops.len() && (#[trigger] ops[k]).tag == OpTag::Equal
        && ops[k].old_start <= i < ops[k].old_end
        ==> #[trigger] old[i] == new[ops[k].new_start + (i - ops[k].old_start)]
}

/// The operations form an edit script from `old` lines to `new` lines: they
/// cover both sides from the first line to the last, in order, each starting
/// where the one before ended; deletions take no new lines, insertions no old
/// ones, and equal runs pair off lines that are equal.
pub open spec fn is_edit_script(ops: Seq<LineOp>, old: Seq<Seq<char>>, new: Seq<Seq<char>>) -> bool {
    &&& ops_chain(ops, old.len() as int, new.len() as int)
    &&& equal_runs_match(ops, old, new)
}

/// The lines of `text` as similar's line diff cuts them, each keeping its
/// terminator. Trusted: calls `similar::DiffableStr::tokenize_lines`, which
/// ends a line after `\n`, after `\r\n`, and after a `\r` not followed by `\n`,
/// and keeps a last unterminated line.
#[verifier::external_body]
fn diff_lines_of(text: &str) -> (r: Vec<String>)
    ensures
        views(r@) == split_lines(text@, true),
{
    similar::DiffableStr::tokenize_lines(text).into_iter().map(|l| l.to_string()).collect()
}

/// The line-level operations of `similar::TextDiff::from_lines(old, new)`,
/// each as its tag and its two ranges (`DiffOp::as_tag_tuple`). Trusted: the
/// result is named by `similar_line_ops`; it is an edit script over the
/// tokenized lines (similar's diff hooks receive an edit script from the old
/// lines to the new ones; `as_tag_tuple` gives an empty new range for a
/// deletion, an empty old range for an insertion, equal lengths for an equal
/// run, whose lines compare equal under the default exact whitespace mode).
/// Two equal texts give only equal runs: before diffing, similar's Myers
/// implementation takes off the common prefix of the two line lists, which is
/// then all of them, as one equal run.
#[verifier::external_body]
fn diff_line_ops(old: &str, new: &str) -> (ops: Vec<LineOp>)
    ensures
        ops@ == similar_line_ops(old@, new@),
        is_edit_script(ops@, split_lines(old@, true), split_lines(new@, true)),
        old@ == new@ ==> forall|i: int| 0 <= i < ops.len() ==> (#[trigger] ops@[i]).tag == OpTag::Equal,
{
    let diff = similar::TextDiff::from_lines(old, new);
    diff.ops().iter().map(|op| {
        let (tag, o, n) = op.as_tag_tuple();
        let tag = match tag {
            similar::DiffTag::Equal => OpTag::Equal,
            similar::DiffTag::Delete => OpTag::Delete,
            similar::DiffTag::Insert => OpTag::Insert,
            similar::DiffTag::Replace => OpTag::Replace,
        };
        LineOp { tag, old_start: o.start, old_end: o.end, new_start: n.start, new_end: n.end }
    }).collect()
}

/// Line `i` of `lines`, or the empty line when out of range.
pub open spec fn line_at(lines: Seq<Seq<char>>, i: int) -> Seq<char> {
    if 0 <= i < lines.len() {
        lines[i]
    } else {
        seq![]
    }
}

/// A cell for line `i` (0-based) with no intra-line highlight.
pub open spec fn plain_cell(lines: Seq<Seq<char>>, i: int) -> CellView {
    CellView { num: (i + 1) as usize, text: trim_newline(line_at(lines, i)), inline: seq![] }
}

/// A paired replace row: both lines with their intra-line change ranges.
pub open spec fn changed_row(old: Seq<Seq<char>>, new: Seq<Seq<char>>, oi: int, ni: int) -> RowView {
    let lt = trim_newline(line_at(old, oi));
    let rt = trim_newline(line_at(new, ni));
    let ch = similar_char_changes(lt, rt);
    RowView {
        left: Some(CellView { num: (oi + 1) as usize, text: lt, inline: side_ranges(ch, Side::Old) }),
        right: Some(CellView { num: (ni + 1) as usize, text: rt, inline: side_ranges(ch, Side::New) }),
        kind: Kind::Changed,
    }
}

/// How many rows an operation contributes.
pub open spec fn op_row_count(op: LineOp) -> int {
    let o = if op.old_end >= op.old_start { op.old_end - op.old_start } else { 0 };
    let n = if op.new_end >= op.new_start { op.new_end - op.new_start } else { 0 };
    match op.tag {
        OpTag::Equal => if o <= n { o } else { n },
        OpTag::Delete => o,
        OpTag::Insert => n,
        OpTag::Replace => if o >= n { o } else { n },
    }
}

/// Row `j` of the rows an operation contributes. An equal run pairs its lines;
/// a deletion shows old lines against gaps, an insertion gaps against new
/// lines; a replacement pairs its lines as long as both sides have one, then
/// pads the shorter side.
pub open spec fn row_at(op: LineOp, j: int, old: Seq<Seq<char>>, new: Seq<Seq<char>>) -> RowView {
    let oi = op.old_start + j;
    let ni = op.new_start + j;
    match op.tag {
        OpTag::Equal => RowView {
            left: Some(plain_cell(old, oi)),
            right: Some(plain_cell(new, ni)),
            kind: Kind::Equal,
        },
        OpTag::Delete => RowView { left: Some(plain_cell(old, oi)), right: None, kind: Kind::Removed },
        OpTag::Insert => RowView { left: None, right: Some(plain_cell(new, ni)), kind: Kind::Added },
        OpTag::Replace => if oi < op.old_end && ni < op.new_end {
            changed_row(old, new, oi, ni)
        } else if oi < op.old_end {
            RowView { left: Some(plain_cell(old, oi)), right: None, kind: Kind::Removed }
        } else {
            RowView { left: None, right: Some(plain_cell(new, ni)), kind: Kind::Added }
        },
    }
}

/// The rows of one operation.
pub open spec fn op_rows(op: LineOp, old: Seq<Seq<char>>, new: Seq<Seq<char>>) -> Seq<RowView> {
    Seq::new(op_row_count(op) as nat, |j: int| row_at(op, j, old, new))
}

/// The rows of a sequence of operations, in order.
pub open spec fn rows_of_ops(ops: Seq<LineOp>, old: Seq<Seq<char>>, new: Seq<Seq<char>>) -> Seq<RowView>
    decreases ops.len(),
{
    if ops.len() == 0 {
        seq![]
    } else {
        rows_of_ops(ops.drop_last(), old, new) + op_rows(ops.last(), old, new)
    }
}

/// The aligned rows of an old/new text pair.
pub open spec fn spec_build(old: Seq<char>, new: Seq<char>) -> Seq<RowView> {
    rows_of_ops(similar_line_ops(old, new), split_lines(old, true), split_lines(new, true))
}


/// The cell a row shows on one side (`left` for the old pane).
pub open spec fn side_cell(r: RowView, left: bool) -> Option<CellView> {
    if left {
        r.left
    } else {
        r.right
    }
}

/// The cells one pane shows, top to bottom, gaps skipped.
pub open spec fn pane(rows: Seq<RowView>, left: bool) -> Seq<CellView>
    decreases rows.len(),
{
    if rows.len() == 0 {
        seq![]
    } else {
        match side_cell(rows.last(), left) {
            Some(c) => pane(rows.drop_last(), left).push(c),
            None => pane(rows.drop_last(), left),
        }
    }
}

/// The pane lists every line of its file once, in order, numbered from 1, with
/// the line terminator trimmed.
pub open spec fn lists_lines(cells: Seq<CellView>, lines: Seq<Seq<char>>) -> bool {
    &&& cells.len() == lines.len()
    &&& forall|i: int| 0 <= i < cells.len() ==> {
        &&& (#[trigger] cells[i]).num == i + 1
        &&& cells[i].text == trim_newline(lines[i])
    }
}

/// A row's sides match its kind: equal rows show the same text on both sides,
/// removed rows only the old side, added rows only the new side, changed rows
/// both sides with well-formed intra-line ranges; only changed rows carry such
/// ranges.
pub open spec fn row_well_shaped(r: RowView) -> bool {
    &&& row_form(r)
    &&& (r.kind == Kind::Equal ==> r.left->0.text == r.right->0.text)
}

/// A row's sides match its kind: equal rows show both sides, removed rows only
/// the old side, added rows only the new side, all without intra-line ranges;
/// changed rows show both sides with well-formed intra-line ranges that start
/// and end between characters and mark only what differs (the characters
/// both sides leave unmarked are the same).
pub open spec fn row_form(r: RowView) -> bool {
    match r.kind {
        Kind::Equal => r.left is Some && r.right is Some
            && r.left->0.inline.len() == 0 && r.right->0.inline.len() == 0,
        Kind::Removed => r.left is Some && r.right is None && r.left->0.inline.len() == 0,
        Kind::Added => r.left is None && r.right is Some && r.right->0.inline.len() == 0,
        Kind::Changed => r.left is Some && r.right is Some
            && ranges_well_formed(r.left->0.inline, byte_len(r.left->0.text) as int)
            && ranges_well_formed(r.right->0.inline, byte_len(r.right->0.text) as int)
            && ranges_on_boundaries(r.left->0.inline, r.left->0.text)
            && ranges_on_boundaries(r.right->0.inline, r.right->0.text)
            && unmarked(r.left->0.text, r.left->0.inline) == unmarked(r.right->0.text, r.right->0.inline),
    }
}

/// A pane of concatenated rows is the concatenation of the panes.
pub proof fn lemma_pane_concat(a: Seq<RowView>, b: Seq<RowView>, left: bool)
    ensures
        pane(a + b, left) == pane(a, left) + pane(b, left),
    decreases b.len(),
{
    if b.len() == 0 {
        assert(a + b =~= a);
        assert(pane(a, left) + pane(b, left) =~= pane(a, left));
    } else {
        lemma_pane_concat(a, b.drop_last(), left);
        assert((a + b).drop_last() =~= a + b.drop_last());
        assert((a + b).last() == b.last());
        match side_cell(b.last(), left) {
            Some(c) => {
                assert(pane(a, left) + pane(b.drop_last(), left).push(c)
                    =~= (pane(a, left) + pane(b.drop_last(), left)).push(c));
            },
            None => {},
        }
    }
}

/// When exactly the first `m` rows show a cell on a side, the pane is those cells.
proof fn lemma_pane_prefix(rows: Seq<RowView>, left: bool, m: int)
    requires
        0 <= m <= rows.len(),
        forall|j: int| 0 <= j < rows.len() ==> (side_cell(#[trigger] rows[j], left) is Some <==> j < m),
    ensures
        pane(rows, left) == Seq::new(m as nat, |j: int| side_cell(rows[j], left)->0),
    decreases rows.len(),
{
    if rows.len() > 0 {
        let p = rows.drop_last();
        if m == rows.len() {
            lemma_pane_prefix(p, left, m - 1);
        } else {
            lemma_pane_prefix(p, left, m);
        }
        assert(pane(rows, left) =~= Seq::new(m as nat, |j: int| side_cell(rows[j], left)->0));
    } else {
        assert(pane(rows, left) =~= Seq::new(m as nat, |j: int| side_cell(rows[j], left)->0));
    }
}

/// Spans of prefixes of operations that cover their ranges in order.
proof fn lemma_span_prefix(ops: Seq<LineOp>, k: int)
    requires
        0 <= k < ops.len(),
    ensures
        old_span(ops.take(k + 1)) == old_span(ops.take(k)) + (ops[k].old_end - ops[k].old_start),
        new_span(ops.take(k + 1)) == new_span(ops.take(k)) + (ops[k].new_end - ops[k].new_start),
{
    assert(ops.take(k + 1).drop_last() =~= ops.take(k));
    assert(ops.take(k + 1).last() == ops[k]);
}

/// Spans only grow along an edit script.
proof fn lemma_span_monotone(ops: Seq<LineOp>, ol: int, nl: int, k: int)
    requires
        ops_chain(ops, ol, nl),
        0 <= k <= ops.len(),
    ensures
        old_span(ops.take(k)) <= ol,
        new_span(ops.take(k)) <= nl,
    decreases ops.len() - k,
{
    if k == ops.len() {
        assert(ops.take(k) =~= ops);
    } else {
        lemma_span_monotone(ops, ol, nl, k + 1);
        lemma_span_prefix(ops, k);
        assert(op_shaped(ops[k]));
    }
}

/// The operation's shape facts, as an edit script gives them.
pub open spec fn op_shaped(op: LineOp) -> bool {
    &&& op.old_start <= op.old_end
    &&& op.new_start <= op.new_end
    &&& (op.tag == OpTag::Delete ==> op.new_start == op.new_end)
    &&& (op.tag == OpTag::Insert ==> op.old_start == op.old_end)
    &&& (op.tag == OpTag::Equal ==> op.old_end - op.old_start == op.new_end - op.new_start)
}

/// The panes of one operation's rows list its old lines and its new lines.
proof fn lemma_op_panes(op: LineOp, o: Seq<Seq<char>>, n: Seq<Seq<char>>)
    requires
        op_shaped(op),
    ensures
        pane(op_rows(op, o, n), true).len() == op.old_end - op.old_start,
        pane(op_rows(op, o, n), false).len() == op.new_end - op.new_start,
        forall|t: int| 0 <= t < op.old_end - op.old_start ==> {
            &&& (#[trigger] pane(op_rows(op, o, n), true)[t]).num == op.old_start + t + 1
            &&& pane(op_rows(op, o, n), true)[t].text == trim_newline(line_at(o, op.old_start + t))
        },
        forall|t: int| 0 <= t < op.new_end - op.new_start ==> {
            &&& (#[trigger] pane(op_rows(op, o, n), false)[t]).num == op.new_start + t + 1
            &&& pane(op_rows(op, o, n), false)[t].text == trim_newline(line_at(n, op.new_start + t))
        },
{
    let mine = op_rows(op, o, n);
    let ol = op.old_end - op.old_start;
    let nl = op.new_end - op.new_start;
    assert forall|t: int| 0 <= t < mine.len() implies
        (side_cell(#[trigger] mine[t], true) is Some <==> t < ol) by {}
    assert forall|t: int| 0 <= t < mine.len() implies
        (side_cell(#[trigger] mine[t], false) is Some <==> t < nl) by {}
    lemma_pane_prefix(mine, true, ol);
    lemma_pane_prefix(mine, false, nl);
}

/// Along an edit script, each pane lists the lines of its file read so far.
#[verifier::rlimit(40)]
proof fn lemma_panes_of_prefix(ops: Seq<LineOp>, o: Seq<Seq<char>>, n: Seq<Seq<char>>, k: int)
    requires
        ops_chain(ops, o.len() as int, n.len() as int),
        0 <= k <= ops.len(),
    ensures
        pane(rows_of_ops(ops.take(k), o, n), true).len() == old_span(ops.take(k)),
        pane(rows_of_ops(ops.take(k), o, n), false).len() == new_span(ops.take(k)),
        forall|i: int| 0 <= i < old_span(ops.take(k)) ==> {
            &&& (#[trigger] pane(rows_of_ops(ops.take(k), o, n), true)[i]).num == i + 1
            &&& pane(rows_of_ops(ops.take(k), o, n), true)[i].text == trim_newline(o[i])
        },
        forall|i: int| 0 <= i < new_span(ops.take(k)) ==> {
            &&& (#[trigger] pane(rows_of_ops(ops.take(k), o, n), false)[i]).num == i + 1
            &&& pane(rows_of_ops(ops.take(k), o, n), false)[i].text == trim_newline(n[i])
        },
    decreases k,
{
    if k == 0 {
        assert(ops.take(0) =~= Seq::<LineOp>::empty());
    } else {
        let j = k - 1;
        lemma_panes_of_prefix(ops, o, n, j);
        lemma_span_monotone(ops, o.len() as int, n.len() as int, k);
        lemma_span_prefix(ops, j);
        let op = ops[j];
        assert(op_shaped(op));
        assert(op.old_start == old_span(ops.take(j)));
        assert(op.new_start == new_span(ops.take(j)));
        assert(ops.take(k).drop_last() =~= ops.take(j));
        assert(ops.take(k).last() == op);
        let before = rows_of_ops(ops.take(j), o, n);
        let mine = op_rows(op, o, n);
        assert(rows_of_ops(ops.take(k), o, n) == before + mine);
        lemma_op_panes(op, o, n);
        lemma_pane_concat(before, mine, true);
        lemma_pane_concat(before, mine, false);
        let lp = pane(rows_of_ops(ops.take(k), o, n), true);
        let rp = pane(rows_of_ops(ops.take(k), o, n), false);
        let lb = pane(before, true);
        let rb = pane(before, false);
        assert forall|i: int| 0 <= i < old_span(ops.take(k)) implies {
            &&& (#[trigger] lp[i]).num == i + 1
            &&& lp[i].text == trim_newline(o[i])
        } by {
            if i >= old_span(ops.take(j)) {
                let t = i - op.old_start;
                assert(lp[i] == pane(mine, true)[t]);
            } else {
                assert(lp[i] == lb[i]);
            }
        }
        assert forall|i: int| 0 <= i < new_span(ops.take(k)) implies {
            &&& (#[trigger] rp[i]).num == i + 1
            &&& rp[i].text == trim_newline(n[i])
        } by {
            if i >= new_span(ops.take(j)) {
                let t = i - op.new_start;
                assert(rp[i] == pane(mine, false)[t]);
            } else {
                assert(rp[i] == rb[i]);
            }
        }
    }
}

/// Display text of line `i`, or an empty text when out of range.
fn line_text(lines: &Vec<String>, i: usize) -> (r: String)
    ensures
        r@ == trim_newline(line_at(views(lines@), i as int)),
{
    if i < lines.len() {
        trim_nl(lines[i].as_str())
    } else {
        String::new()
    }
}

/// A cell for line `i` (0-based) with no intra-line highlight.
fn plain(lines: &Vec<String>, i: usize) -> (c: Cell)
    requires
        i < usize::MAX,
    ensures
        c@ == plain_cell(views(lines@), i as int),
{
    Cell { num: i + 1, text: line_text(lines, i), inline: Vec::new() }
}

/// How many rows an operation contributes.
fn row_count(op: LineOp) -> (r: usize)
    ensures
        r == op_row_count(op),
{
    let o = if op.old_end >= op.old_start { op.old_end - op.old_start } else { 0 };
    let n = if op.new_end >= op.new_start { op.new_end - op.new_start } else { 0 };
    match op.tag {
        OpTag::Equal => if o <= n { o } else { n },
        OpTag::Delete => o,
        OpTag::Insert => n,
        OpTag::Replace => if o >= n { o } else { n },
    }
}

/// Row `j` of the rows that `op` contributes.
fn make_row(op: LineOp, j: usize, old: &Vec<String>, new: &Vec<String>) -> (r: Row)
    requires
        j < op_row_count(op),
    ensures
        r@ == row_at(op, j as int, views(old@), views(new@)),
        row_form(r@),
{
    let o = if op.old_end >= op.old_start { op.old_end - op.old_start } else { 0 };
    let n = if op.new_end >= op.new_start { op.new_end - op.new_start } else { 0 };
    match op.tag {
        OpTag::Equal => Row {
            left: Some(plain(old, op.old_start + j)),
            right: Some(plain(new, op.new_start + j)),
            kind: Kind::Equal,
        },
        OpTag::Delete => Row { left: Some(plain(old, op.old_start + j)), right: None, kind: Kind::Removed },
        OpTag::Insert => Row { left: None, right: Some(plain(new, op.new_start + j)), kind: Kind::Added },
        OpTag::Replace => {
            if j < o && j < n {
                // Paired line: compute the intra-line highlight.
                let oi = op.old_start + j;
                let ni = op.new_start + j;
                let lt = line_text(old, oi);
                let rt = line_text(new, ni);
                let (lr, rr) = inline_ranges(lt.as_str(), rt.as_str());
                Row {
                    left: Some(Cell { num: oi + 1, text: lt, inline: lr }),
                    right: Some(Cell { num: ni + 1, text: rt, inline: rr }),
                    kind: Kind::Changed,
                }
            } else if j < o {
                Row { left: Some(plain(old, op.old_start + j)), right: None, kind: Kind::Removed }
            } else {
                Row { left: None, right: Some(plain(new, op.new_start + j)), kind: Kind::Added }
            }
        },
    }
}

/// Append the rows of one operation.
fn push_op_rows(rows: &mut Vec<Row>, op: LineOp, ol: &Vec<String>, nl: &Vec<String>)
    requires
        forall|i: int| 0 <= i < old(rows).len() ==> row_form(#[trigger] row_views(old(rows)@)[i]),
    ensures
        row_views(final(rows)@) == row_views(old(rows)@) + op_rows(op, views(ol@), views(nl@)),
        forall|i: int| 0 <= i < final(rows).len() ==> row_form(#[trigger] row_views(final(rows)@)[i]),
{
    let ghost o = views(ol@);
    let ghost n = views(nl@);
    let ghost base = row_views(rows@);
    let count = row_count(op);
    let mut j: usize = 0;
    assert(row_views(rows@) =~= base + op_rows(op, o, n).take(0));
    while j < count
        invariant
            j <= count,
            count == op_row_count(op),
            o == views(ol@),
            n == views(nl@),
            row_views(rows@) == base + op_rows(op, o, n).take(j as int),
            forall|i: int| 0 <= i < rows.len() ==> row_form(#[trigger] row_views(rows@)[i]),
        decreases count - j,
    {
        let row = make_row(op, j, ol, nl);
        proof {
            assert(row_views(rows@.push(row)) =~= row_views(rows@).push(row@));
            assert(op_rows(op, o, n).take(j + 1) =~= op_rows(op, o, n).take(j as int).push(row@));
            assert(base + op_rows(op, o, n).take(j + 1) =~= (base + op_rows(op, o, n).take(j as int)).push(row@));
        }
        rows.push(row);
        j = j + 1;
    }
    assert(op_rows(op, o, n).take(count as int) =~= op_rows(op, o, n));
}

/// Aligned rows from line-level diff operations over the two files' lines
/// (each line with its terminator). Rows of equal runs pair their lines,
/// deletions and insertions face gaps, and replacements pair their lines as
/// long as both sides have one, with intra-line change ranges, then pad the
/// shorter side. Every row's sides match its kind.
pub fn rows_of(ops: &Vec<LineOp>, old_lines: &Vec<String>, new_lines: &Vec<String>) -> (rows: Vec<Row>)
    ensures
        row_views(rows@) == rows_of_ops(ops@, views(old_lines@), views(new_lines@)),
        forall|i: int| 0 <= i < rows.len() ==> row_form(#[trigger] row_views(rows@)[i]),
{
    let ghost o = views(old_lines@);
    let ghost n = views(new_lines@);
    let mut rows: Vec<Row> = Vec::new();
    let mut k: usize = 0;
    assert(ops@.take(0) =~= Seq::<LineOp>::empty());
    while k < ops.len()
        invariant
            k <= ops.len(),
            o == views(old_lines@),
            n == views(new_lines@),
            row_views(rows@) == rows_of_ops(ops@.take(k as int), o, n),
            forall|i: int| 0 <= i < rows.len() ==> row_form(#[trigger] row_views(rows@)[i]),
        decreases ops.len() - k,
    {
        let op = ops[k];
        push_op_rows(&mut rows, op, old_lines, new_lines);
        proof {
            assert(ops@.take(k + 1).drop_last() =~= ops@.take(k as int));
            assert(ops@.take(k + 1).last() == op);
        }
        k = k + 1;
    }
    assert(ops@.take(ops.len() as int) =~= ops@);
    rows
}

/// Lines an equal run pairs off are equal.
proof fn lemma_equal_line(ops: Seq<LineOp>, o: Seq<Seq<char>>, n: Seq<Seq<char>>, k: int, j: int)
    requires
        equal_runs_match(ops, o, n),
        0 <= k < ops.len(),
        ops[k].tag == OpTag::Equal,
        op_shaped(ops[k]),
        0 <= j < ops[k].old_end - ops[k].old_start,
        ops[k].old_end <= o.len(),
        ops[k].new_end <= n.len(),
    ensures
        line_at(o, ops[k].old_start + j) == line_at(n, ops[k].new_start + j),
{
    let i = ops[k].old_start + j;
    assert(o[i] == n[ops[k].new_start + (i - ops[k].old_start)]);
}

/// What the `k`-th operation of an edit script gives: its shape facts, and
/// for an equal run, equal lines on both sides.
proof fn lemma_op_ready(ops: Seq<LineOp>, o: Seq<Seq<char>>, n: Seq<Seq<char>>, k: int)
    requires
        is_edit_script(ops, o, n),
        0 <= k < ops.len(),
    ensures
        op_shaped(ops[k]),
        ops[k].tag == OpTag::Equal ==> forall|j: int| 0 <= j < ops[k].old_end - ops[k].old_start
            ==> line_at(o, ops[k].old_start + j) == #[trigger] line_at(n, ops[k].new_start + j),
{
    let op = ops[k];
    assert(op_shaped(op));
    lemma_span_monotone(ops, o.len() as int, n.len() as int, k + 1);
    lemma_span_prefix(ops, k);
    if op.tag == OpTag::Equal {
        assert forall|j: int| 0 <= j < op.old_end - op.old_start implies
            line_at(o, op.old_start + j) == #[trigger] line_at(n, op.new_start + j) by {
            lemma_equal_line(ops, o, n, k, j);
        }
    }
}

/// Along an edit script, equal rows show equal texts.
proof fn lemma_equal_rows_match(ops: Seq<LineOp>, o: Seq<Seq<char>>, n: Seq<Seq<char>>, k: int)
    requires
        is_edit_script(ops, o, n),
        0 <= k <= ops.len(),
    ensures
        forall|i: int| 0 <= i < rows_of_ops(ops.take(k), o, n).len()
            && (#[trigger] rows_of_ops(ops.take(k), o, n)[i]).kind == Kind::Equal
            ==> rows_of_ops(ops.take(k), o, n)[i].left->0.text == rows_of_ops(ops.take(k), o, n)[i].right->0.text,
    decreases k,
{
    if k == 0 {
        assert(ops.take(0) =~= Seq::<LineOp>::empty());
    } else {
        let j = k - 1;
        lemma_equal_rows_match(ops, o, n, j);
        lemma_op_ready(ops, o, n, j);
        let op = ops[j];
        assert(ops.take(k).drop_last() =~= ops.take(j));
        assert(ops.take(k).last() == op);
        let before = rows_of_ops(ops.take(j), o, n);
        let mine = op_rows(op, o, n);
        let all = rows_of_ops(ops.take(k), o, n);
        assert(all == before + mine);
        assert forall|i: int| 0 <= i < all.len() && (#[trigger] all[i]).kind == Kind::Equal
            implies all[i].left->0.text == all[i].right->0.text by {
            if i >= before.len() {
                let t = i - before.len();
                assert(all[i] == mine[t]);
                assert(op.tag == OpTag::Equal);
                assert(line_at(o, op.old_start + t) == line_at(n, op.new_start + t));
            } else {
                assert(all[i] == before[i]);
            }
        }
    }
}

/// Build aligned rows from old/new text. Either side may be empty (add or
/// delete of a whole file): that just yields all-added or all-removed rows.
///
/// Each pane lists every line of its file once, in order and numbered; rows of
/// unchanged lines show the same text in both panes, so one shared scroll
/// offset keeps the panes aligned. A text against itself gives only rows of
/// unchanged lines.
pub fn build(old: &str, new: &str) -> (rows: Vec<Row>)
    ensures
        row_views(rows@) == spec_build(old@, new@),
        old@ == new@ ==> forall|i: int| 0 <= i < rows.len() ==> (#[trigger] row_views(rows@)[i]).kind == Kind::Equal,
        lists_lines(pane(row_views(rows@), true), split_lines(old@, true)),
        lists_lines(pane(row_views(rows@), false), split_lines(new@, true)),
        forall|i: int| 0 <= i < rows.len() ==> row_well_shaped(#[trigger] row_views(rows@)[i]),
{
    let ops = diff_line_ops(old, new);
    let ol = diff_lines_of(old);
    let nl = diff_lines_of(new);
    let rows = rows_of(&ops, &ol, &nl);
    proof {
        let o = views(ol@);
        let n = views(nl@);
        assert(ops@.take(ops.len() as int) =~= ops@);
        lemma_panes_of_prefix(ops@, o, n, ops.len() as int);
        lemma_equal_rows_match(ops@, o, n, ops.len() as int);
        assert forall|i: int| 0 <= i < rows.len() implies row_well_shaped(#[trigger] row_views(rows@)[i]) by {
            assert(row_form(row_views(rows@)[i]));
        }
        if old@ == new@ {
            lemma_equal_ops_equal_rows(ops@, o, n);
        }
    }
    rows
}

/// Operations that are all equal runs give only rows of unchanged lines.
proof fn lemma_equal_ops_equal_rows(ops: Seq<LineOp>, o: Seq<Seq<char>>, n: Seq<Seq<char>>)
    requires
        forall|i: int| 0 <= i < ops.len() ==> (#[trigger] ops[i]).tag == OpTag::Equal,
    ensures
        forall|i: int| 0 <= i < rows_of_ops(ops, o, n).len() ==> (#[trigger] rows_of_ops(ops, o, n)[i]).kind
            == Kind::Equal,
    decreases ops.len(),
{
    if ops.len() > 0 {
        let init = ops.drop_last();
        assert forall|i: int| 0 <= i < init.len() implies (#[trigger] init[i]).tag == OpTag::Equal by {
            assert(init[i] == ops[i]);
        }
        lemma_equal_ops_equal_rows(init, o, n);
        let a = rows_of_ops(init, o, n);
        let b = op_rows(ops.last(), o, n);
        assert(ops.last() == ops[ops.len() - 1]);
        assert forall|i: int| 0 <= i < (a + b).len() implies (#[trigger] (a + b)[i]).kind == Kind::Equal by {
            if i >= a.len() {
                assert((a + b)[i] == b[i - a.len()]);
            }
        }
    }
}

} // verus!
