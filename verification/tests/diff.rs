use git_ui::diff::{build, Kind, Row};
use git_ui::inline::{inline_ranges, push_range};
use git_ui::text::{lines_with_endings, text_lines, trim_nl};

fn texts(rows: &[Row]) -> Vec<(Option<(usize, String)>, Option<(usize, String)>, Kind)> {
    rows.iter()
        .map(|r| {
            (
                r.left.as_ref().map(|c| (c.num, c.text.clone())),
                r.right.as_ref().map(|c| (c.num, c.text.clone())),
                r.kind,
            )
        })
        .collect()
}

#[test]
fn unchanged_lines_share_rows() {
    let rows = build("a\nb\nc\n", "a\nb\nc\n");
    let t = texts(&rows);
    assert_eq!(t.len(), 3);
    for (i, (l, r, k)) in t.iter().enumerate() {
        assert_eq!(*k, Kind::Equal);
        assert_eq!(l.as_ref().unwrap().0, i + 1);
        assert_eq!(l, r);
    }
}

#[test]
fn added_file_is_all_added_rows() {
    let rows = build("", "x\ny\n");
    let t = texts(&rows);
    assert_eq!(
        t,
        vec![
            (None, Some((1, "x".to_string())), Kind::Added),
            (None, Some((2, "y".to_string())), Kind::Added),
        ]
    );
}

#[test]
fn deleted_file_is_all_removed_rows() {
    let rows = build("x\ny", "");
    let t = texts(&rows);
    assert_eq!(
        t,
        vec![
            (Some((1, "x".to_string())), None, Kind::Removed),
            (Some((2, "y".to_string())), None, Kind::Removed),
        ]
    );
}

#[test]
fn replaced_line_pairs_with_intra_line_ranges() {
    let rows = build("a\nhello world\nc\n", "a\nhello there\nc\n");
    assert_eq!(rows.len(), 3);
    assert_eq!(rows[0].kind, Kind::Equal);
    assert_eq!(rows[1].kind, Kind::Changed);
    assert_eq!(rows[2].kind, Kind::Equal);
    let l = rows[1].left.as_ref().unwrap();
    let r = rows[1].right.as_ref().unwrap();
    assert_eq!(l.text, "hello world");
    assert_eq!(r.text, "hello there");
    assert!(!l.inline.is_empty());
    assert!(!r.inline.is_empty());
    for &(s, e) in l.inline.iter().chain(r.inline.iter()) {
        assert!(s < e && e <= 11);
        assert!(s >= 6);
    }
}

#[test]
fn uneven_replacement_is_padded() {
    let rows = build("a\nb\n", "x\ny\nz\n");
    let t = texts(&rows);
    // Every old line appears once on the left, every new one on the right.
    let lefts: Vec<usize> = t.iter().filter_map(|r| r.0.as_ref().map(|c| c.0)).collect();
    let rights: Vec<usize> = t.iter().filter_map(|r| r.1.as_ref().map(|c| c.0)).collect();
    assert_eq!(lefts, vec![1, 2]);
    assert_eq!(rights, vec![1, 2, 3]);
    assert_eq!(t.last().unwrap().2, Kind::Added);
    assert_eq!(t.last().unwrap().0, None);
}

#[test]
fn crlf_and_lone_cr_end_lines() {
    let rows = build("a\r\nb\rc", "a\r\nb\rc");
    let t = texts(&rows);
    let lefts: Vec<String> = t.iter().map(|r| r.0.as_ref().unwrap().1.clone()).collect();
    assert_eq!(lefts, vec!["a", "b", "c"]);
}

#[test]
fn inline_ranges_mark_changed_bytes() {
    let (a, b) = inline_ranges("abc", "aXc");
    assert_eq!(a, vec![(1, 2)]);
    assert_eq!(b, vec![(1, 2)]);
    let (a, b) = inline_ranges("abcd", "ad");
    assert_eq!(a, vec![(1, 3)]);
    assert!(b.is_empty());
}

#[test]
fn inline_ranges_count_bytes_not_chars() {
    let (a, b) = inline_ranges("é", "e");
    assert_eq!(a, vec![(0, 2)]);
    assert_eq!(b, vec![(0, 1)]);
}

#[test]
fn push_range_merges_adjacent() {
    let mut v = vec![(0, 2)];
    push_range(&mut v, 2, 5);
    assert_eq!(v, vec![(0, 5)]);
    push_range(&mut v, 6, 7);
    assert_eq!(v, vec![(0, 5), (6, 7)]);
    let mut e = Vec::new();
    push_range(&mut e, 3, 4);
    assert_eq!(e, vec![(3, 4)]);
}

#[test]
fn trim_nl_strips_one_terminator() {
    assert_eq!(trim_nl("abc\n"), "abc");
    assert_eq!(trim_nl("abc\r\n"), "abc");
    assert_eq!(trim_nl("abc\r"), "abc");
    assert_eq!(trim_nl("abc\n\n"), "abc\n");
    assert_eq!(trim_nl(""), "");
}

#[test]
fn lines_keep_or_drop_endings() {
    assert_eq!(lines_with_endings("a\nb\r\nc"), vec!["a\n", "b\r\n", "c"]);
    assert!(lines_with_endings("").is_empty());
    assert_eq!(text_lines("a\nb\r\nc\r"), vec!["a", "b", "c\r"]);
    assert_eq!(text_lines("x\n\ny\n"), vec!["x", "", "y"]);
}

fn strip(text: &str, ranges: &[(usize, usize)]) -> Vec<u8> {
    text.bytes()
        .enumerate()
        .filter(|(i, _)| !ranges.iter().any(|&(s, e)| s <= *i && *i < e))
        .map(|(_, b)| b)
        .collect()
}

#[test]
fn a_text_against_itself_is_all_equal() {
    let text = "fn main() {\r\n    println!(\"hé\");\n}\nlast";
    let rows = build(text, text);
    assert_eq!(rows.len(), 4);
    assert!(rows.iter().all(|r| r.kind == Kind::Equal));
    assert!(build("", "").is_empty());
    let (a, b) = inline_ranges("héllo wörld", "héllo wörld");
    assert!(a.is_empty() && b.is_empty());
}

#[test]
fn inline_ranges_fall_between_characters_and_mark_only_changes() {
    let (old, new) = ("grüße aus köln", "grüne aus bonn");
    let (a, b) = inline_ranges(old, new);
    for &(s, e) in a.iter() {
        assert!(old.is_char_boundary(s) && old.is_char_boundary(e) && s < e);
    }
    for &(s, e) in b.iter() {
        assert!(new.is_char_boundary(s) && new.is_char_boundary(e) && s < e);
    }
    assert_eq!(strip(old, &a), strip(new, &b));
    assert!(!a.is_empty() && !b.is_empty());
}
