use git_ui::app::{App, View};
use git_ui::cli::{apply_snapshot_env, handle_key, loop_step, parse_args, waits_on_timer, Command, Key, LoopAction, LoopEvent};
use git_ui::git::{FileDiff, Mode};
use git_ui::screen::{render_body, scroll_pct, status_spans, tab_strip, Body};

fn file(path: &str, old: &str, new: &str) -> FileDiff {
    FileDiff { path: path.to_string(), status: 'M', old: Some(old.to_string()), new: Some(new.to_string()) }
}

fn sample() -> App {
    let big_old: String = (0..30).map(|i| format!("line {i}\n")).collect();
    let big_new = big_old.replace("line 3\n", "line three\n");
    App::new(
        Mode::All,
        vec![file("a.rs", &big_old, &big_new), file("b.rs", "x\n", "y\n"), file("c.rs", "same\n", "same\n")],
        false,
    )
}

#[test]
fn new_app_starts_at_first_file_top_left() {
    let app = sample();
    assert_eq!(app.cur, 0);
    assert_eq!(app.v_offset, 0);
    assert_eq!(app.split_pct, 50);
    assert_eq!(app.view, View::Split);
    assert!(app.syntax);
    assert_eq!(app.rows.len(), 3);
    assert_eq!(app.hl.len(), 3);
}

#[test]
fn next_file_wraps_and_prev_stops() {
    let mut app = sample();
    app.next_file();
    app.next_file();
    assert_eq!(app.cur, 2);
    app.next_file();
    assert_eq!(app.cur, 0);
    app.prev_file();
    assert_eq!(app.cur, 0);
    app.next_file();
    app.prev_file();
    assert_eq!(app.cur, 0);
}

#[test]
fn switching_files_resets_scroll() {
    let mut app = sample();
    app.viewport_h = 10;
    app.scroll_down(5);
    app.scroll_right(8);
    assert_eq!(app.v_offset, 5);
    app.next_file();
    assert_eq!((app.v_offset, app.h_offset), (0, 0));
}

#[test]
fn scrolling_clamps_to_content() {
    let mut app = sample();
    app.viewport_h = 10;
    app.scroll_down(100);
    assert_eq!(app.v_offset, 20); // 30 rows less a 10-row viewport
    app.scroll_up(7);
    assert_eq!(app.v_offset, 13);
    app.scroll_up(100);
    assert_eq!(app.v_offset, 0);
    app.bottom();
    assert_eq!(app.v_offset, 20);
    app.top();
    assert_eq!(app.v_offset, 0);
    app.scroll_left(3);
    assert_eq!(app.h_offset, 0);
}

#[test]
fn pane_width_stays_in_bounds() {
    let mut app = sample();
    for _ in 0..10 {
        app.widen_left();
    }
    assert_eq!(app.split_pct, 80);
    for _ in 0..20 {
        app.widen_right();
    }
    assert_eq!(app.split_pct, 20);
    app.widen_left();
    app.widen_right();
    assert_eq!(app.split_pct, 20);
}

#[test]
fn toggles_flip_back() {
    let mut app = sample();
    app.toggle_view();
    assert_eq!(app.view, View::Unified);
    app.toggle_view();
    assert_eq!(app.view, View::Split);
    app.toggle_syntax();
    assert!(!app.syntax);
    assert!(app.segs(true, 1).is_none());
    app.toggle_syntax();
    assert!(app.segs(true, 1).is_some());
}

#[test]
fn tab_label_shows_status_and_path() {
    let app = sample();
    assert_eq!(app.tab_label(1), " M b.rs ");
}

#[test]
fn unchanged_file_is_detected() {
    let mut app = sample();
    assert!(!app.current_unchanged());
    app.next_file();
    app.next_file();
    assert!(app.current_unchanged());
}

#[test]
fn reload_keeps_selection_and_reports_change() {
    let mut app = sample();
    app.next_file();
    app.next_file();
    assert!(!app.reload(None));
    let same: Vec<FileDiff> = app.files.clone();
    assert!(!app.reload(Some(same)));
    assert!(app.reload(Some(vec![file("a.rs", "1\n", "2\n")])));
    assert_eq!(app.cur, 0);
    assert_eq!(app.files.len(), 1);
    assert!(app.reload(Some(vec![])));
    assert_eq!(app.cur, 0);
}

#[test]
fn keys_drive_the_viewer() {
    let mut app = sample();
    app.viewport_h = 10;
    handle_key(&mut app, Key::Char('j'), false);
    assert_eq!(app.v_offset, 1);
    handle_key(&mut app, Key::PageDown, false);
    assert_eq!(app.v_offset, 11);
    handle_key(&mut app, Key::Char('G'), false);
    assert_eq!(app.v_offset, 20);
    handle_key(&mut app, Key::Char('g'), false);
    assert_eq!(app.v_offset, 0);
    handle_key(&mut app, Key::Char('l'), false);
    assert_eq!(app.h_offset, 4);
    handle_key(&mut app, Key::Tab, false);
    assert_eq!(app.cur, 1);
    handle_key(&mut app, Key::Char(']'), false);
    assert_eq!(app.split_pct, 55);
    handle_key(&mut app, Key::Char('u'), false);
    assert_eq!(app.view, View::Unified);
    handle_key(&mut app, Key::Char('c'), false);
    assert!(!app.quit);
    handle_key(&mut app, Key::Char('c'), true);
    assert!(app.quit);
}

#[test]
fn command_line_flags() {
    let args = |v: &[&str]| v.iter().map(|s| s.to_string()).collect::<Vec<String>>();
    assert!(matches!(parse_args(&args(&["-h", "all"])), Command::Help));
    assert!(matches!(parse_args(&args(&["--version"])), Command::Version));
    match parse_args(&args(&["-w", "src/main.rs"])) {
        Command::Diff { target, watch } => {
            assert_eq!(target, "src/main.rs");
            assert!(watch);
        }
        _ => panic!(),
    }
    match parse_args(&args(&["HEAD"])) {
        Command::Diff { target, watch } => {
            assert_eq!(target, "HEAD");
            assert!(!watch);
        }
        _ => panic!(),
    }
    assert!(matches!(parse_args(&args(&["--watch"])), Command::Missing));
}

#[test]
fn split_body_windows_rows() {
    let mut app = sample();
    app.v_offset = 2;
    match render_body(&mut app, 5, 40, 40, 80) {
        Body::Split(l, r) => {
            assert_eq!(l.len(), 5);
            assert_eq!(r.len(), 5);
            // First visible row is line 3 on both sides: gutter "   3 ".
            assert_eq!(l[0][0].content, "   3 ");
        }
        _ => panic!("expected split body"),
    }
    assert_eq!(app.viewport_h, 5);
    assert_eq!(app.content_len, 30);
}

#[test]
fn unified_body_expands_changed_rows() {
    let mut app = sample();
    app.toggle_view();
    match render_body(&mut app, 100, 0, 0, 80) {
        Body::Unified(lines) => {
            // 30 rows, one of them changed: 31 lines.
            assert_eq!(lines.len(), 31);
            assert_eq!(lines[3][1].content, "- ");
            assert_eq!(lines[4][1].content, "+ ");
        }
        _ => panic!("expected unified body"),
    }
    assert_eq!(app.content_len, 31);
}

#[test]
fn unchanged_and_empty_bodies() {
    let mut app = sample();
    app.next_file();
    app.next_file();
    assert!(matches!(render_body(&mut app, 5, 40, 40, 80), Body::Unchanged));
    assert_eq!(app.content_len, 0);
    let mut empty = App::new(Mode::All, vec![], true);
    assert!(matches!(render_body(&mut empty, 5, 40, 40, 80), Body::Waiting));
}

#[test]
fn status_bar_and_scroll_position() {
    let mut app = sample();
    app.viewport_h = 10;
    app.content_len = 30;
    assert_eq!(scroll_pct(&app), "Top");
    app.v_offset = 5;
    assert_eq!(scroll_pct(&app), "25%");
    app.v_offset = 20;
    assert_eq!(scroll_pct(&app), "Bot");
    app.content_len = 3;
    assert_eq!(scroll_pct(&app), "All");
    let spans = status_spans(&app);
    assert_eq!(spans[0].content, " [1/3] ");
    assert_eq!(spans[1].content, " SPLIT ");
}

#[test]
fn tab_strip_keeps_active_tab_visible() {
    let mut app = sample();
    app.next_file();
    app.next_file();
    let spans = tab_strip(&mut app, 10);
    assert_eq!(spans.len(), 3);
    assert!(spans[2].style.bold);
    // Labels are 8 wide: the third tab ends at column 24.
    assert_eq!(app.tab_scroll, 14);
    app.prev_file();
    app.prev_file();
    tab_strip(&mut app, 10);
    assert_eq!(app.tab_scroll, 0);
}

#[test]
fn line_zero_and_past_the_end_have_no_segments() {
    let app = sample();
    assert!(app.segs(true, 0).is_none());
    assert!(app.segs(false, 0).is_none());
    assert!(app.segs(true, 30).is_some());
    assert!(app.segs(true, 31).is_none());
}

#[test]
fn reload_follows_the_selected_path() {
    let mut app = sample();
    app.next_file();
    assert_eq!(app.files[app.cur].path, "b.rs");
    app.v_offset = 0;
    app.viewport_h = 7;
    app.tab_scroll = 3;
    let fresh = vec![
        file("0.rs", "n\n", "m\n"),
        file("a.rs", "1\n", "2\n"),
        file("b.rs", "x\n", "z\n"),
    ];
    assert!(app.reload(Some(fresh)));
    assert_eq!(app.cur, 2);
    assert_eq!(app.files[app.cur].path, "b.rs");
    assert_eq!(app.viewport_h, 7);
    assert_eq!(app.tab_scroll, 3);
    assert!(matches!(app.mode, Mode::All));
}

#[test]
fn reload_clamps_when_the_selected_path_is_gone() {
    let mut app = sample();
    app.next_file();
    app.next_file();
    assert!(app.reload(Some(vec![file("x.rs", "1\n", "2\n"), file("y.rs", "1\n", "3\n")])));
    assert_eq!(app.cur, 1);
}

#[test]
fn snapshot_env_steps_files_and_picks_the_view() {
    let mut app = sample();
    apply_snapshot_env(&mut app, Some("2"), Some("unified"));
    assert_eq!(app.cur, 2);
    assert_eq!(app.view, View::Unified);

    let cases: [(Option<&str>, usize); 8] = [
        (None, 0),
        (Some("1"), 1),
        (Some("+1"), 1),
        (Some("4"), 1),
        (Some("0"), 0),
        (Some("-3"), 0),
        (Some("two"), 0),
        (Some("99999999999"), 0),
    ];
    for (cur, want) in cases {
        let mut app = sample();
        app.v_offset = 5;
        apply_snapshot_env(&mut app, cur, Some("Unified"));
        assert_eq!(app.cur, want, "GITUI_CUR={cur:?}");
        assert_eq!(app.view, View::Split);
        assert_eq!(app.v_offset, if want == 0 { 5 } else { 0 });
    }
}

#[test]
fn loop_step_reloads_on_timeout_only_when_watching() {
    let mut app = sample();
    assert!(!waits_on_timer(&app));
    assert_eq!(loop_step(&mut app, LoopEvent::Timeout), LoopAction::Redraw);
    let mut watching = App::new(Mode::All, vec![file("a.rs", "1\n", "2\n")], true);
    assert!(waits_on_timer(&watching));
    assert_eq!(loop_step(&mut watching, LoopEvent::Timeout), LoopAction::Reload);
}

#[test]
fn loop_step_handles_presses_only() {
    let mut app = sample();
    app.viewport_h = 5;
    let release = LoopEvent::Key { key: Key::Char('j'), ctrl: false, press: false };
    assert_eq!(loop_step(&mut app, release), LoopAction::Redraw);
    assert_eq!(app.v_offset, 0);
    let press = LoopEvent::Key { key: Key::Char('j'), ctrl: false, press: true };
    assert_eq!(loop_step(&mut app, press), LoopAction::Redraw);
    assert_eq!(app.v_offset, 1);
    assert_eq!(loop_step(&mut app, LoopEvent::Other), LoopAction::Redraw);
    assert_eq!(app.v_offset, 1);
    let quit = LoopEvent::Key { key: Key::Char('q'), ctrl: false, press: true };
    assert_eq!(loop_step(&mut app, quit), LoopAction::Stop);
    assert!(app.quit);
}
