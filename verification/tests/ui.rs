use git_ui::highlight::LineSegs;
use git_ui::style::Color;
use git_ui::ui::styled_text;

#[test]
fn splits_changed_range_into_hot_span() {
    // "abXYef" with bytes 2..4 changed -> ["ab", "XY"(hot), "ef"].
    let spans = styled_text(
        "abXYef", None, &[(2, 4)], 0, 20, Color::Red, Color::Reset, Color::Blue,
    );
    let parts: Vec<&str> = spans.iter().map(|s| s.content.as_str()).collect();
    assert_eq!(parts, vec!["ab", "XY", "ef"]);
    assert_eq!(spans[1].style.bg, Some(Color::Blue)); // hot run gets hot_bg
    assert_eq!(spans[0].style.bg, None); // line_bg Reset -> no bg
}

#[test]
fn respects_horizontal_offset_and_width() {
    // Skip 2 chars, show 3.
    let spans = styled_text(
        "abcdefgh", None, &[], 2, 3, Color::Gray, Color::Reset, Color::Reset,
    );
    let joined: String = spans.iter().map(|s| s.content.as_str()).collect();
    assert_eq!(joined, "cde");
}

#[test]
fn syntax_segments_drive_foreground() {
    // Two color runs from "syntax" -> two spans with those fgs.
    let segs: LineSegs = vec![(0, 2, Color::Red), (2, 4, Color::Green)];
    let spans = styled_text(
        "abcd", Some(&segs), &[], 0, 20, Color::Gray, Color::Reset, Color::Reset,
    );
    let parts: Vec<&str> = spans.iter().map(|s| s.content.as_str()).collect();
    assert_eq!(parts, vec!["ab", "cd"]);
    assert_eq!(spans[0].style.fg, Some(Color::Red));
    assert_eq!(spans[1].style.fg, Some(Color::Green));
}

#[test]
fn hot_span_is_bold_and_line_bg_applies_elsewhere() {
    let spans = styled_text(
        "xyz", None, &[(1, 2)], 0, 10, Color::Green, Color::Rgb(24, 42, 24), Color::Rgb(35, 80, 35),
    );
    let parts: Vec<&str> = spans.iter().map(|s| s.content.as_str()).collect();
    assert_eq!(parts, vec!["x", "y", "z"]);
    assert_eq!(spans[0].style.bg, Some(Color::Rgb(24, 42, 24)));
    assert!(!spans[0].style.bold);
    assert_eq!(spans[1].style.bg, Some(Color::Rgb(35, 80, 35)));
    assert!(spans[1].style.bold);
}

#[test]
fn multibyte_characters_use_byte_offsets() {
    // 'é' is two bytes: the range 1..3 covers it, the 'b' after it starts at byte 3.
    let spans = styled_text("aéb", None, &[(1, 3)], 0, 10, Color::Red, Color::Reset, Color::Blue);
    let parts: Vec<&str> = spans.iter().map(|s| s.content.as_str()).collect();
    assert_eq!(parts, vec!["a", "é", "b"]);
    assert_eq!(spans[1].style.bg, Some(Color::Blue));
}

#[test]
fn offset_past_the_end_shows_nothing() {
    let spans = styled_text("abc", None, &[], 5, 3, Color::Gray, Color::Reset, Color::Reset);
    assert!(spans.is_empty());
}
