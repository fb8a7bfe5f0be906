use git_ui::highlight::{color_at, extension, Highlighter, LineSegs};
use git_ui::style::Color;
use std::collections::HashSet;

#[test]
fn rust_line_gets_multiple_colors() {
    let h = Highlighter::new();
    let segs = h.file("main.rs", "fn main() { let x = 1; }\n");
    let colors: HashSet<_> = segs[0].iter().map(|&(_, _, c)| c).collect();
    // Keyword/ident/number should not all be one color.
    assert!(colors.len() > 1, "expected syntax colors, got {colors:?}");
}

#[test]
fn segments_tile_each_line() {
    let h = Highlighter::new();
    let text = "let a = 1;\nlet b = 2;\n";
    let segs = h.file("x.rs", text);
    assert_eq!(segs.len(), 2);
    for line in &segs {
        assert_eq!(line[0].0, 0);
        assert_eq!(line.last().unwrap().1, 11);
        for w in line.windows(2) {
            assert_eq!(w[0].1, w[1].0);
        }
    }
}

#[test]
fn unknown_extension_still_highlights_as_plain_text() {
    let h = Highlighter::new();
    let segs = h.file("README", "hello\nworld");
    assert_eq!(segs.len(), 2);
    assert_eq!(segs[1].last().unwrap().1, 5);
}

#[test]
fn color_at_finds_first_containing_segment() {
    let segs: LineSegs = vec![(0, 2, Color::Red), (2, 4, Color::Green)];
    assert_eq!(color_at(&segs, 0), Some(Color::Red));
    assert_eq!(color_at(&segs, 3), Some(Color::Green));
    assert_eq!(color_at(&segs, 4), None);
}

#[test]
fn extension_is_what_follows_the_last_dot() {
    assert_eq!(extension("src/main.rs").as_deref(), Some("rs"));
    assert_eq!(extension("archive.tar.gz").as_deref(), Some("gz"));
    assert_eq!(extension("Makefile"), None);
    assert_eq!(extension("dir.d/file").as_deref(), Some("d/file"));
}

#[test]
fn segments_are_nonempty_and_plain_text_is_one_segment() {
    let h = Highlighter::new();
    for line in &h.file("main.rs", "fn main() {\n    /* a\n b */ let s = \"x\";\n}\n") {
        assert!(!line.is_empty());
        for &(s, e, _) in line {
            assert!(s < e);
        }
    }
    let plain = h.file("notes", "hello there\nworld\n");
    assert_eq!(plain.len(), 2);
    assert_eq!(plain[0].len(), 1);
    assert_eq!(plain[0][0].0, 0);
    assert_eq!(plain[0][0].1, 12);
    assert_eq!(plain[1].len(), 1);
}

#[test]
fn highlighting_the_same_text_twice_gives_the_same_segments() {
    let h = Highlighter::new();
    let text = "fn f() -> u8 { 1 }\n// done\n";
    assert_eq!(h.file("f.rs", text), h.file("f.rs", text));
    assert!(h.file("f.rs", "").is_empty());
}
