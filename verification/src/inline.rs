//! Intra-line change ranges: which bytes of a changed line actually differ
//! from its counterpart, from a character-level diff of the two lines.

use vstd::prelude::*;
use crate::text::{byte_len, lemma_byte_len_concat, lemma_byte_len_positive, str_byte_len};

verus! {

/// What a character-level change does: keep, delete from the old side, or
/// insert on the new side.
#[derive(Debug, Clone, Copy, PartialEq, Eq, Structural)]
pub enum Edit {
    Equal,
    Delete,
    Insert,
}

/// One of the two texts being compared.
#[derive(Debug, Clone, Copy, PartialEq, Eq, Structural)]
pub enum Side {
    Old,
    New,
}

/// Byte ranges of intra-line changes on one side.
pub type Ranges = Vec<(usize, usize)>;

/// The character-level changes that `similar::TextDiff::from_chars` finds
/// between `old` and `new`, in order, each as its tag and its text.
pub uninterp spec fn similar_char_changes(old: Seq<char>, new: Seq<char>) -> Seq<(Edit, Seq<char>)>;

/// Whether a change of tag `t` belongs to the given side's text.
pub open spec fn on_side(t: Edit, side: Side) -> bool {
    t == Edit::Equal || marks_side(t, side)
}

/// Whether a change of tag `t` is a difference on the given side.
pub open spec fn marks_side(t: Edit, side: Side) -> bool {
    match side {
        Side::Old => t == Edit::Delete,
        Side::New => t == Edit::Insert,
    }
}

/// The text of one side, read back from the changes.
pub open spec fn side_text(ch: Seq<(Edit, Seq<char>)>, side: Side) -> Seq<char>
    decreases ch.len(),
{
    if ch.len() == 0 {
        seq![]
    } else if on_side(ch.last().0, side) {
        side_text(ch.drop_last(), side) + ch.last().1
    } else {
        side_text(ch.drop_last(), side)
    }
}

/// Append the range `start..end` to `v`, extending the last range instead when
/// it ends exactly at `start`.
pub open spec fn merge_range(v: Seq<(usize, usize)>, start: usize, end: usize) -> Seq<(usize, usize)> {
    if v.len() > 0 && v.last().1 == start {
        v.update(v.len() - 1, (v.last().0, end))
    } else {
        v.push((start, end))
    }
}

/// The byte ranges of one side that the changes mark as different, adjacent
/// ranges merged.
pub open spec fn side_ranges(ch: Seq<(Edit, Seq<char>)>, side: Side) -> Seq<(usize, usize)>
    decreases ch.len(),
{
    if ch.len() == 0 {
        seq![]
    } else {
        let prev = side_ranges(ch.drop_last(), side);
        if marks_side(ch.last().0, side) {
            let pos = byte_len(side_text(ch.drop_last(), side));
            merge_range(prev, pos as usize, (pos + byte_len(ch.last().1)) as usize)
        } else {
            prev
        }
    }
}

/// Nonempty ranges, in increasing order, neither touching nor overlapping,
/// all within the first `total` bytes.
pub open spec fn ranges_well_formed(r: Seq<(usize, usize)>, total: int) -> bool {
    &&& forall|i: int| 0 <= i < r.len() ==> r[i].0 < r[i].1 && r[i].1 <= total
    &&& forall|i: int, j: int| 0 <= i < j < r.len() ==> r[i].1 < r[j].0
}

/// The changes read back to both texts, and each holds one character.
pub open spec fn changes_cover(ch: Seq<(Edit, Seq<char>)>, old: Seq<char>, new: Seq<char>) -> bool {
    &&& side_text(ch, Side::Old) == old
    &&& side_text(ch, Side::New) == new
    &&& forall|i: int| 0 <= i < ch.len() ==> (#[trigger] ch[i]).1.len() == 1
}

/// Views of (tag, text) pairs.
pub open spec fn change_views(v: Seq<(Edit, String)>) -> Seq<(Edit, Seq<char>)> {
    v.map_values(|c: (Edit, String)| (c.0, c.1@))
}

/// The character changes between `old` and `new`, from
/// `similar::TextDiff::from_chars(old, new).iter_all_changes()`, each as its
/// tag and its text. Trusted: the result is named by `similar_char_changes`;
/// the changes of each side read back to that side's text (similar expands
/// every diff op into the tokens of its old and new ranges), and each change
/// holds one character (`tokenize_chars` cuts the text into single characters).
/// Two equal texts give only equal changes: similar's Myers implementation
/// first takes off the common prefix of the two texts, which is then all of
/// them.
#[verifier::external_body]
fn char_changes(old: &str, new: &str) -> (r: Vec<(Edit, String)>)
    ensures
        change_views(r@) == similar_char_changes(old@, new@),
        changes_cover(change_views(r@), old@, new@),
        old@ == new@ ==> forall|i: int| 0 <= i < r.len() ==> (#[trigger] r@[i]).0 == Edit::Equal,
{
    let diff = similar::TextDiff::from_chars(old, new);
    diff.iter_all_changes().map(|c| {
        let tag = match c.tag() {
            similar::ChangeTag::Equal => Edit::Equal,
            similar::ChangeTag::Delete => Edit::Delete,
            similar::ChangeTag::Insert => Edit::Insert,
        };
        (tag, c.value().to_string())
    }).collect()
}

/// Append `(start, end)` to `v`, merging with the previous range if adjacent.
pub fn push_range(v: &mut Ranges, start: usize, end: usize)
    ensures
        final(v)@ == merge_range(old(v)@, start, end),
{
    let n = v.len();
    if n > 0 && v[n - 1].1 == start {
        let first = v[n - 1].0;
        v.set(n - 1, (first, end));
    } else {
        v.push((start, end));
    }
}

/// Reading the changes back splits at any point.
pub proof fn lemma_side_text_split(ch: Seq<(Edit, Seq<char>)>, k: int, side: Side)
    requires
        0 <= k <= ch.len(),
    ensures
        side_text(ch, side) == side_text(ch.take(k), side) + side_text(ch.skip(k), side),
    decreases ch.len() - k,
{
    if k == ch.len() {
        assert(ch.take(k) =~= ch);
        assert(ch.skip(k) =~= Seq::<(Edit, Seq<char>)>::empty());
        assert(side_text(ch, side) + Seq::<char>::empty() =~= side_text(ch, side));
    } else {
        lemma_side_text_split(ch, k + 1, side);
        assert(ch.take(k + 1).drop_last() =~= ch.take(k));
        assert(ch.take(k + 1).last() == ch[k]);
        let rest = ch.skip(k);
        assert(rest.len() > 0);
        lemma_side_text_prepend(rest, side);
        assert(rest.drop_first() =~= ch.skip(k + 1));
        assert(rest[0] == ch[k]);
        if on_side(ch[k].0, side) {
            assert(side_text(ch.take(k), side) + ch[k].1 + side_text(ch.skip(k + 1), side)
                =~= side_text(ch.take(k), side) + (ch[k].1 + side_text(ch.skip(k + 1), side)));
        }
    }
}

/// Reading back a sequence of changes from its first element on.
pub proof fn lemma_side_text_prepend(ch: Seq<(Edit, Seq<char>)>, side: Side)
    requires
        ch.len() > 0,
    ensures
        side_text(ch, side) == if on_side(ch[0].0, side) {
            ch[0].1 + side_text(ch.drop_first(), side)
        } else {
            side_text(ch.drop_first(), side)
        },
    decreases ch.len(),
{
    if ch.len() == 1 {
        assert(ch.drop_last() =~= Seq::<(Edit, Seq<char>)>::empty());
        assert(ch.drop_first() =~= Seq::<(Edit, Seq<char>)>::empty());
        assert(Seq::<char>::empty() + ch[0].1 =~= ch[0].1);
        assert(ch[0].1 + Seq::<char>::empty() =~= ch[0].1);
    } else {
        lemma_side_text_prepend(ch.drop_last(), side);
        assert(ch.drop_last().drop_first() =~= ch.drop_first().drop_last());
        assert(ch.drop_first().last() == ch.last());
        if on_side(ch[0].0, side) && on_side(ch.last().0, side) {
            assert(ch[0].1 + side_text(ch.drop_first().drop_last(), side) + ch.last().1
                =~= ch[0].1 + (side_text(ch.drop_first().drop_last(), side) + ch.last().1));
        }
    }
}

/// Well-formed ranges stay well-formed when a nonempty range starting at or
/// after the bound is merged in, and the bound moves to its end.
proof fn lemma_merge_range_well_formed(v: Seq<(usize, usize)>, pos: int, end: int)
    requires
        ranges_well_formed(v, pos),
        pos < end <= usize::MAX,
        0 <= pos,
    ensures
        ranges_well_formed(merge_range(v, pos as usize, end as usize), end),
{
    let r = merge_range(v, pos as usize, end as usize);
    if v.len() > 0 && v.last().1 == pos as usize {
        assert forall|i: int, j: int| 0 <= i < j < r.len() implies r[i].1 < r[j].0 by {
            if j == r.len() - 1 {
                assert(r[j].0 == v[j].0);
            }
        }
    } else {
        assert forall|i: int, j: int| 0 <= i < j < r.len() implies r[i].1 < r[j].0 by {
            if j == r.len() - 1 {
                assert(r[i] == v[i]);
                if i < v.len() - 1 {
                    assert(v[i].1 < v[v.len() - 1].0);
                }
            }
        }
    }
}

/// The ranges of a side are well-formed within the bytes read so far.
pub proof fn lemma_side_ranges_well_formed(ch: Seq<(Edit, Seq<char>)>, side: Side)
    requires
        forall|i: int| 0 <= i < ch.len() ==> (#[trigger] ch[i]).1.len() > 0,
        byte_len(side_text(ch, side)) <= usize::MAX,
    ensures
        ranges_well_formed(side_ranges(ch, side), byte_len(side_text(ch, side)) as int),
    decreases ch.len(),
{
    if ch.len() > 0 {
        let prev = ch.drop_last();
        let pos = byte_len(side_text(prev, side));
        if on_side(ch.last().0, side) {
            lemma_byte_len_concat(side_text(prev, side), ch.last().1);
        }
        lemma_side_ranges_well_formed(prev, side);
        if marks_side(ch.last().0, side) {
            let c = ch.last().1;
            lemma_byte_len_positive(c);
            lemma_merge_range_well_formed(side_ranges(prev, side), pos as int, (pos + byte_len(c)) as int);
        }
    }
}

/// Whether byte offset `o` falls in one of the ranges.
pub open spec fn in_ranges(r: Seq<(usize, usize)>, o: int) -> bool {
    exists|i: int| 0 <= i < r.len() && r[i].0 <= o < (#[trigger] r[i]).1
}

/// The characters of `t` that no range marks: those whose first byte lies
/// outside every range.
pub open spec fn unmarked(t: Seq<char>, r: Seq<(usize, usize)>) -> Seq<char>
    decreases t.len(),
{
    if t.len() == 0 {
        seq![]
    } else if in_ranges(r, byte_len(t.drop_last()) as int) {
        unmarked(t.drop_last(), r)
    } else {
        unmarked(t.drop_last(), r).push(t.last())
    }
}

/// Whether byte offset `b` falls between two characters of `t`, or at either
/// end.
pub open spec fn char_boundary(t: Seq<char>, b: int) -> bool {
    exists|k: int| 0 <= k <= t.len() && byte_len(#[trigger] t.take(k)) == b
}

/// Every range starts and ends between two characters of `t`.
pub open spec fn ranges_on_boundaries(r: Seq<(usize, usize)>, t: Seq<char>) -> bool {
    forall|i: int| 0 <= i < r.len() ==> char_boundary(t, (#[trigger] r[i]).0 as int) && char_boundary(t, r[i].1 as int)
}

/// The text that both sides keep: the changes that are equal, in order.
pub open spec fn kept_text(ch: Seq<(Edit, Seq<char>)>) -> Seq<char>
    decreases ch.len(),
{
    if ch.len() == 0 {
        seq![]
    } else if ch.last().0 == Edit::Equal {
        kept_text(ch.drop_last()) + ch.last().1
    } else {
        kept_text(ch.drop_last())
    }
}

/// Which characters are left unmarked depends only on the ranges' marks
/// within the text.
proof fn lemma_unmarked_same(t: Seq<char>, r1: Seq<(usize, usize)>, r2: Seq<(usize, usize)>)
    requires
        forall|o: int| 0 <= o < byte_len(t) ==> in_ranges(r1, o) == in_ranges(r2, o),
    ensures
        unmarked(t, r1) == unmarked(t, r2),
    decreases t.len(),
{
    if t.len() > 0 {
        let p = t.drop_last();
        assert(p + seq![t.last()] =~= t);
        lemma_byte_len_concat(p, seq![t.last()]);
        lemma_byte_len_positive(seq![t.last()]);
        lemma_unmarked_same(p, r1, r2);
    }
}

/// Merging a range that starts at `pos` changes no mark below `pos`, and
/// marks `pos` itself.
proof fn lemma_merge_marks(v: Seq<(usize, usize)>, pos: int, end: int)
    requires
        ranges_well_formed(v, pos),
        0 <= pos < end <= usize::MAX,
    ensures
        forall|o: int| o < pos ==> in_ranges(merge_range(v, pos as usize, end as usize), o) == in_ranges(v, o),
        in_ranges(merge_range(v, pos as usize, end as usize), pos),
{
    let m = merge_range(v, pos as usize, end as usize);
    let upd = v.len() > 0 && v.last().1 == pos as usize;
    assert forall|o: int| o < pos implies in_ranges(m, o) == in_ranges(v, o) by {
        if in_ranges(v, o) {
            let i = choose|i: int| 0 <= i < v.len() && v[i].0 <= o < (#[trigger] v[i]).1;
            if upd && i == v.len() - 1 {
                assert(m[i].0 <= o < m[i].1);
            } else {
                assert(m[i] == v[i]);
            }
        }
        if in_ranges(m, o) {
            let i = choose|i: int| 0 <= i < m.len() && m[i].0 <= o < (#[trigger] m[i]).1;
            if i < v.len() {
                if upd && i == v.len() - 1 {
                    assert(v[i].0 <= o < v[i].1);
                } else {
                    assert(v[i] == m[i]);
                }
            }
        }
    }
    if upd {
        let i = v.len() - 1;
        assert(m[i].0 <= pos < m[i].1);
    } else {
        let i = v.len() as int;
        assert(m[i].0 <= pos < m[i].1);
    }
}

/// A boundary of a prefix of `t` is a boundary of `t`.
proof fn lemma_boundary_of_prefix(t: Seq<char>, n: int, b: int)
    requires
        0 <= n <= t.len(),
        char_boundary(t.take(n), b),
    ensures
        char_boundary(t, b),
{
    let k = choose|k: int| 0 <= k <= t.take(n).len() && byte_len(#[trigger] t.take(n).take(k)) == b;
    assert(t.take(n).take(k) =~= t.take(k));
}

/// Reading the changes back, the characters of one side that its ranges
/// leave unmarked are the text both sides keep, and every range starts and
/// ends between two characters.
proof fn lemma_unmarked_side(ch: Seq<(Edit, Seq<char>)>, side: Side)
    requires
        forall|i: int| 0 <= i < ch.len() ==> (#[trigger] ch[i]).1.len() == 1,
        byte_len(side_text(ch, side)) <= usize::MAX,
    ensures
        unmarked(side_text(ch, side), side_ranges(ch, side)) == kept_text(ch),
        ranges_on_boundaries(side_ranges(ch, side), side_text(ch, side)),
    decreases ch.len(),
{
    if ch.len() > 0 {
        let p = ch.drop_last();
        let c = ch.last();
        let tp = side_text(p, side);
        let rp = side_ranges(p, side);
        let t = side_text(ch, side);
        let r = side_ranges(ch, side);
        assert forall|i: int| 0 <= i < p.len() implies (#[trigger] p[i]).1.len() == 1 by {
            assert(p[i] == ch[i]);
        }
        assert forall|i: int| 0 <= i < p.len() implies (#[trigger] p[i]).1.len() > 0 by {
            assert(p[i] == ch[i]);
        }
        if on_side(c.0, side) {
            lemma_byte_len_concat(tp, c.1);
        }
        lemma_unmarked_side(p, side);
        lemma_side_ranges_well_formed(p, side);
        let pos = byte_len(tp) as int;
        if on_side(c.0, side) {
            let x = c.1[0];
            assert(c.1 =~= seq![x]);
            assert(t.drop_last() =~= tp);
            assert(t.last() == x);
            assert(t.take(tp.len() as int) =~= tp);
            assert(t.take(t.len() as int) =~= t);
            assert(char_boundary(t, pos));
            assert(char_boundary(t, byte_len(t) as int));
            assert forall|i: int| 0 <= i < rp.len() implies char_boundary(t, (#[trigger] rp[i]).0 as int)
                && char_boundary(t, rp[i].1 as int) by {
                lemma_boundary_of_prefix(t, tp.len() as int, rp[i].0 as int);
                lemma_boundary_of_prefix(t, tp.len() as int, rp[i].1 as int);
            }
            if marks_side(c.0, side) {
                let end = pos + byte_len(c.1);
                lemma_byte_len_positive(c.1);
                lemma_merge_marks(rp, pos, end);
                lemma_unmarked_same(tp, r, rp);
                assert(unmarked(t, r) == unmarked(tp, r));
                assert forall|i: int| 0 <= i < r.len() implies char_boundary(t, (#[trigger] r[i]).0 as int)
                    && char_boundary(t, r[i].1 as int) by {
                    if i < rp.len() && !(rp.len() > 0 && rp.last().1 == pos as usize && i == rp.len() - 1) {
                        assert(r[i] == rp[i]);
                    } else if i < rp.len() {
                        assert(r[i].0 == rp[i].0);
                    }
                }
            } else {
                assert(!in_ranges(rp, pos)) by {
                    if in_ranges(rp, pos) {
                        let i = choose|i: int| 0 <= i < rp.len() && rp[i].0 <= pos < (#[trigger] rp[i]).1;
                    }
                }
                assert(unmarked(t, r) == unmarked(tp, rp).push(x));
                assert(kept_text(ch) =~= kept_text(p).push(x));
            }
        } else {
            assert(t == tp);
            assert(r == rp);
        }
    }
}

/// Changes that are all equal mark nothing on either side.
proof fn lemma_equal_changes_no_ranges(ch: Seq<(Edit, Seq<char>)>, side: Side)
    requires
        forall|i: int| 0 <= i < ch.len() ==> (#[trigger] ch[i]).0 == Edit::Equal,
    ensures
        side_ranges(ch, side).len() == 0,
    decreases ch.len(),
{
    if ch.len() > 0 {
        let p = ch.drop_last();
        assert forall|i: int| 0 <= i < p.len() implies (#[trigger] p[i]).0 == Edit::Equal by {
            assert(p[i] == ch[i]);
        }
        assert(ch.last() == ch[ch.len() - 1]);
        lemma_equal_changes_no_ranges(p, side);
    }
}

/// The byte ranges each side's changes mark as different, from the
/// character-level changes between the two texts (adjacent ranges merged).
/// When no change is empty, the ranges of a side are well-formed within the
/// bytes of that side's text.
pub fn ranges_of_changes(changes: &Vec<(Edit, String)>) -> (r: (Ranges, Ranges))
    requires
        byte_len(side_text(change_views(changes@), Side::Old)) <= usize::MAX,
        byte_len(side_text(change_views(changes@), Side::New)) <= usize::MAX,
    ensures
        r.0@ == side_ranges(change_views(changes@), Side::Old),
        r.1@ == side_ranges(change_views(changes@), Side::New),
        (forall|i: int| 0 <= i < changes.len() ==> (#[trigger] changes@[i]).1@.len() > 0) ==> {
            &&& ranges_well_formed(r.0@, byte_len(side_text(change_views(changes@), Side::Old)) as int)
            &&& ranges_well_formed(r.1@, byte_len(side_text(change_views(changes@), Side::New)) as int)
        },
{
    let ghost ch = change_views(changes@);
    let mut ai: usize = 0;
    let mut bi: usize = 0;
    let mut ar: Ranges = Vec::new();
    let mut br: Ranges = Vec::new();
    let mut k: usize = 0;
    while k < changes.len()
        invariant
            ch == change_views(changes@),
            byte_len(side_text(ch, Side::Old)) <= usize::MAX,
            byte_len(side_text(ch, Side::New)) <= usize::MAX,
            k <= changes.len(),
            ai == byte_len(side_text(ch.take(k as int), Side::Old)),
            bi == byte_len(side_text(ch.take(k as int), Side::New)),
            ar@ == side_ranges(ch.take(k as int), Side::Old),
            br@ == side_ranges(ch.take(k as int), Side::New),
        decreases changes.len() - k,
    {
        let len = str_byte_len(changes[k].1.as_str());
        let ghost next = ch.take(k + 1);
        proof {
            assert(next.drop_last() =~= ch.take(k as int));
            assert(next.last() == ch[k as int]);
            assert(ch[k as int].1 == changes@[k as int].1@);
            lemma_side_text_split(ch, k + 1, Side::Old);
            lemma_side_text_split(ch, k + 1, Side::New);
            lemma_byte_len_concat(side_text(next, Side::Old), side_text(ch.skip(k + 1), Side::Old));
            lemma_byte_len_concat(side_text(next, Side::New), side_text(ch.skip(k + 1), Side::New));
            lemma_byte_len_concat(side_text(ch.take(k as int), Side::Old), ch[k as int].1);
            lemma_byte_len_concat(side_text(ch.take(k as int), Side::New), ch[k as int].1);
        }
        match changes[k].0 {
            Edit::Equal => {
                ai = ai + len;
                bi = bi + len;
            },
            Edit::Delete => {
                push_range(&mut ar, ai, ai + len);
                ai = ai + len;
            },
            Edit::Insert => {
                push_range(&mut br, bi, bi + len);
                bi = bi + len;
            },
        }
        k = k + 1;
    }
    proof {
        assert(ch.take(changes.len() as int) =~= ch);
        if forall|i: int| 0 <= i < changes.len() ==> (#[trigger] changes@[i]).1@.len() > 0 {
            assert forall|i: int| 0 <= i < ch.len() implies (#[trigger] ch[i]).1.len() > 0 by {
                assert(ch[i].1 == changes@[i].1@);
            }
            lemma_side_ranges_well_formed(ch, Side::Old);
            lemma_side_ranges_well_formed(ch, Side::New);
        }
    }
    (ar, br)
}

/// Changed byte ranges on each side, char-level: `(old_ranges, new_ranges)`.
/// The ranges of each side are well-formed within the bytes of its text and
/// start and end between characters; only changed characters are marked, so
/// the characters both texts leave unmarked are the same; a text against
/// itself has no changed ranges.
pub fn inline_ranges(a: &str, b: &str) -> (r: (Ranges, Ranges))
    ensures
        r.0@ == side_ranges(similar_char_changes(a@, b@), Side::Old),
        r.1@ == side_ranges(similar_char_changes(a@, b@), Side::New),
        ranges_well_formed(r.0@, byte_len(a@) as int),
        ranges_well_formed(r.1@, byte_len(b@) as int),
        ranges_on_boundaries(r.0@, a@),
        ranges_on_boundaries(r.1@, b@),
        unmarked(a@, r.0@) == unmarked(b@, r.1@),
        a@ == b@ ==> r.0@.len() == 0 && r.1@.len() == 0,
{
    let changes = char_changes(a, b);
    // Both texts' byte lengths fit in a machine word.
    let _a_len = str_byte_len(a);
    let _b_len = str_byte_len(b);
    proof {
        let ch = change_views(changes@);
        assert forall|i: int| 0 <= i < changes.len() implies (#[trigger] changes@[i]).1@.len() > 0 by {
            assert(ch[i].1 == changes@[i].1@);
        }
        lemma_unmarked_side(ch, Side::Old);
        lemma_unmarked_side(ch, Side::New);
        if a@ == b@ {
            assert forall|i: int| 0 <= i < ch.len() implies (#[trigger] ch[i]).0 == Edit::Equal by {
                assert(ch[i].0 == changes@[i].0);
            }
            lemma_equal_changes_no_ranges(ch, Side::Old);
            lemma_equal_changes_no_ranges(ch, Side::New);
        }
    }
    ranges_of_changes(&changes)
}

} // verus!
