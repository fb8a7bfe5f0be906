use git_ui::cli::{key_action, snapshot_size, Action, Key};
use git_ui::diff::{rows_of, Cell, Kind, LineOp, OpTag};
use git_ui::highlight::segs_of_pieces;
use git_ui::inline::{ranges_of_changes, Edit};
use git_ui::screen::{centered_row, status_style, Area};
use git_ui::style::Color;
use git_ui::text::pad_left_text;
use git_ui::ui::cell_line;

fn lines(v: &[&str]) -> Vec<String> {
    v.iter().map(|s| s.to_string()).collect()
}

#[test]
fn snapshot_size_reads_width_by_height() {
    assert_eq!(snapshot_size("120x40"), (120, 40));
    assert_eq!(snapshot_size("+80x+24"), (80, 24));
    assert_eq!(snapshot_size("80"), (100, 24));
    assert_eq!(snapshot_size("80x"), (100, 24));
    assert_eq!(snapshot_size("-1x5"), (100, 24));
    assert_eq!(snapshot_size("70000x5"), (100, 24));
    assert_eq!(snapshot_size("1x2x3"), (100, 24));
}

#[test]
fn rows_from_operations() {
    let old = lines(&["a\n", "b\n", "c\n"]);
    let new = lines(&["a\n", "B\n", "c\n", "d\n"]);
    let ops = vec![
        LineOp { tag: OpTag::Equal, old_start: 0, old_end: 1, new_start: 0, new_end: 1 },
        LineOp { tag: OpTag::Replace, old_start: 1, old_end: 2, new_start: 1, new_end: 2 },
        LineOp { tag: OpTag::Equal, old_start: 2, old_end: 3, new_start: 2, new_end: 3 },
        LineOp { tag: OpTag::Insert, old_start: 3, old_end: 3, new_start: 3, new_end: 4 },
    ];
    let rows = rows_of(&ops, &old, &new);
    let kinds: Vec<Kind> = rows.iter().map(|r| r.kind).collect();
    assert_eq!(kinds, vec![Kind::Equal, Kind::Changed, Kind::Equal, Kind::Added]);
    let changed_left = rows[1].left.as_ref().unwrap();
    assert_eq!(changed_left.text, "b");
    assert_eq!(changed_left.inline, vec![(0, 1)]);
    assert_eq!(rows[3].right.as_ref().unwrap().num, 4);
    assert!(rows[3].left.is_none());
}

#[test]
fn replace_pads_the_shorter_side() {
    let old = lines(&["x\n"]);
    let new = lines(&["y\n", "z\n"]);
    let ops = vec![LineOp { tag: OpTag::Replace, old_start: 0, old_end: 1, new_start: 0, new_end: 2 }];
    let rows = rows_of(&ops, &old, &new);
    assert_eq!(rows.len(), 2);
    assert_eq!(rows[0].kind, Kind::Changed);
    assert_eq!(rows[1].kind, Kind::Added);
    assert_eq!(rows[1].right.as_ref().unwrap().text, "z");
}

#[test]
fn ranges_from_changes() {
    let ch = vec![
        (Edit::Equal, "a".to_string()),
        (Edit::Delete, "b".to_string()),
        (Edit::Delete, "é".to_string()),
        (Edit::Insert, "X".to_string()),
        (Edit::Equal, "c".to_string()),
        (Edit::Delete, "d".to_string()),
    ];
    let (old, new) = ranges_of_changes(&ch);
    assert_eq!(old, vec![(1, 4), (5, 6)]);
    assert_eq!(new, vec![(1, 2)]);
}

#[test]
fn segments_from_pieces() {
    let segs = segs_of_pieces(&vec![(2, Color::Red), (3, Color::Blue)], 5);
    assert_eq!(segs, vec![(0, 2, Color::Red), (2, 5, Color::Blue)]);
}

#[test]
fn keys_map_to_actions() {
    assert_eq!(key_action(Key::Char('q'), false, 10), Action::Quit);
    assert_eq!(key_action(Key::Esc, false, 10), Action::Quit);
    assert_eq!(key_action(Key::Char('c'), true, 10), Action::Quit);
    assert_eq!(key_action(Key::Char('c'), false, 10), Action::Nothing);
    assert_eq!(key_action(Key::PageUp, false, 7), Action::ScrollUp(7));
    assert_eq!(key_action(Key::Left, false, 7), Action::ScrollLeft(4));
    assert_eq!(key_action(Key::BackTab, false, 7), Action::PrevFile);
    assert_eq!(key_action(Key::Char('['), false, 7), Action::WidenRight);
    assert_eq!(key_action(Key::Char('s'), false, 7), Action::ToggleSyntax);
    assert_eq!(key_action(Key::Other, false, 7), Action::Nothing);
}

#[test]
fn status_colors() {
    assert_eq!(status_style('A').fg, Some(Color::Green));
    assert_eq!(status_style('D').fg, Some(Color::Red));
    assert_eq!(status_style('M').fg, Some(Color::Yellow));
    assert_eq!(status_style('R').fg, Some(Color::Cyan));
}

#[test]
fn cell_lines() {
    let gap = cell_line(&None, Kind::Added, true, 0, 30, None);
    assert_eq!(gap.len(), 1);
    assert_eq!(gap[0].content, "  ~");
    assert_eq!(gap[0].style.fg, Some(Color::Rgb(60, 60, 70)));
    let narrow = cell_line(&None, Kind::Added, true, 0, 1, None);
    assert_eq!(narrow[0].content, " ~");

    let cell = Some(Cell { num: 12, text: "let x".to_string(), inline: vec![(4, 5)] });
    let spans = cell_line(&cell, Kind::Changed, false, 0, 30, None);
    assert_eq!(spans[0].content, "  12 ");
    assert_eq!(spans[0].style.fg, Some(Color::DarkGray));
    assert_eq!(spans[1].content, "+ ");
    assert_eq!(spans[1].style.fg, Some(Color::Green));
    assert_eq!(spans[2].content, "let ");
    assert_eq!(spans[2].style.bg, Some(Color::Rgb(24, 42, 24)));
    assert_eq!(spans[3].content, "x");
    assert_eq!(spans[3].style.bg, Some(Color::Rgb(35, 80, 35)));

    // Text width is the pane width less gutter and sign.
    let spans = cell_line(&cell, Kind::Removed, true, 0, 9, None);
    let text: String = spans[2..].iter().map(|s| s.content.as_str()).collect();
    assert_eq!(text, "le");
    assert_eq!(spans[1].content, "- ");
}

#[test]
fn numbers_and_padding() {
    assert_eq!(pad_left_text("7", 4), "   7");
    assert_eq!(pad_left_text("12345", 4), "12345");
}

#[test]
fn centered_row_is_in_the_middle() {
    let r = centered_row(Area { x: 2, y: 10, width: 30, height: 9 });
    assert_eq!(r, Area { x: 2, y: 14, width: 30, height: 1 });
}

#[test]
fn gutter_numbers_are_decimal() {
    for (num, gutter) in [(0usize, "   0 "), (7, "   7 "), (10, "  10 "), (905, " 905 "), (12345, "12345 "), (1000000, "1000000 ")] {
        let cell = Some(Cell { num, text: "x".to_string(), inline: vec![] });
        let spans = cell_line(&cell, Kind::Equal, true, 0, 40, None);
        assert_eq!(spans[0].content, gutter);
    }
}

#[test]
fn snapshot_size_parses_like_u16() {
    assert_eq!(snapshot_size("65535x0"), (65535, 0));
    assert_eq!(snapshot_size("0065x007"), (65, 7));
    assert_eq!(snapshot_size("65536x7"), (100, 24));
    assert_eq!(snapshot_size("x5"), (100, 24));
    assert_eq!(snapshot_size("+x5"), (100, 24));
    assert_eq!(snapshot_size("8 x5"), (100, 24));
    assert_eq!(snapshot_size("99999999999x5"), (100, 24));
}
