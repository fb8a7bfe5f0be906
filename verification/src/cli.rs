//! The command line and the keyboard: what the arguments ask for, and what
//! each key does to the viewer's state.

use vstd::prelude::*;
use vstd::view::View as _;
use crate::app::{App, View, toggled, widened, narrowed};
use crate::git::str_eq;
use crate::text::{views, chars_of, string_from};

verus! {

/// What the command line asks for.
#[derive(Debug, Clone)]
pub enum Command {
    /// Print the help.
    Help,
    /// Print the version.
    Version,
    /// Diff `target` (a file, `all`, or a commit), live-reloading with `watch`.
    Diff { target: String, watch: bool },
    /// No target was given: print the help and fail.
    Missing,
}

/// Whether some argument is `short` or `long`.
pub open spec fn has_flag(args: Seq<Seq<char>>, short: Seq<char>, long: Seq<char>) -> bool {
    exists|i: int| 0 <= i < args.len() && (#[trigger] args[i] == short || args[i] == long)
}

/// Whether an argument starts with `-`.
pub open spec fn is_option(a: Seq<char>) -> bool {
    a.len() > 0 && a[0] == '-'
}

/// Index of the first argument that is not an option, or `args.len()`.
pub open spec fn first_positional(args: Seq<Seq<char>>) -> int
    decreases args.len(),
{
    if args.len() == 0 {
        0
    } else if !is_option(args[0]) {
        0
    } else {
        1 + first_positional(args.drop_first())
    }
}

/// Help wins over version, version over diffing; the target is the first
/// argument that does not start with `-`, and watching is asked for by
/// `-w` or `--watch` anywhere.
pub open spec fn spec_command(args: Seq<Seq<char>>) -> (Option<Seq<char>>, bool, u8) {
    if has_flag(args, "-h"@, "--help"@) {
        (None, false, 0)
    } else if has_flag(args, "-V"@, "--version"@) {
        (None, false, 1)
    } else if first_positional(args) < args.len() {
        (Some(args[first_positional(args)]), has_flag(args, "-w"@, "--watch"@), 2)
    } else {
        (None, false, 3)
    }
}

/// The command line asks for help exactly when some argument is `-h` or
/// `--help`; otherwise for the version exactly when one is `-V` or
/// `--version`; a diff watches exactly when some argument is `-w` or
/// `--watch`, and its target is the first argument that does not start with
/// `-`.
pub proof fn lemma_command_flags(args: Seq<Seq<char>>)
    ensures
        (spec_command(args).2 == 0) <==> exists|i: int| 0 <= i < args.len()
            && (#[trigger] args[i] == "-h"@ || args[i] == "--help"@),
        (spec_command(args).2 == 1) <==> (!(exists|i: int| 0 <= i < args.len()
            && (#[trigger] args[i] == "-h"@ || args[i] == "--help"@)) && exists|i: int| 0 <= i < args.len()
            && (#[trigger] args[i] == "-V"@ || args[i] == "--version"@)),
        spec_command(args).2 == 2 ==> (spec_command(args).1 <==> exists|i: int| 0 <= i < args.len()
            && (#[trigger] args[i] == "-w"@ || args[i] == "--watch"@)),
        spec_command(args).2 == 2 ==> exists|i: int| 0 <= i < args.len() && Some(#[trigger] args[i]) == spec_command(args).0
            && !is_option(args[i]) && forall|j: int| 0 <= j < i ==> is_option(#[trigger] args[j]),
{
    if spec_command(args).2 == 2 {
        lemma_first_positional(args);
        let i = first_positional(args);
        assert(Some(args[i]) == spec_command(args).0);
    }
}

/// The first positional argument, when there is one, does not start with `-`.
proof fn lemma_first_positional(args: Seq<Seq<char>>)
    ensures
        0 <= first_positional(args) <= args.len(),
        first_positional(args) < args.len() ==> !is_option(args[first_positional(args)]),
        forall|j: int| 0 <= j < first_positional(args) ==> is_option(#[trigger] args[j]),
    decreases args.len(),
{
    if args.len() > 0 && is_option(args[0]) {
        let d = args.drop_first();
        lemma_first_positional(d);
        let k = first_positional(d);
        if k < args.len() - 1 {
            assert(d[k] == args[k + 1]);
        }
        assert forall|j: int| 0 <= j < first_positional(args) implies is_option(#[trigger] args[j]) by {
            if j > 0 {
                assert(d[j - 1] == args[j]);
            }
        }
    }
}

/// Whether some argument is `short` or `long`.
fn any_flag(args: &Vec<String>, short: &str, long: &str) -> (r: bool)
    ensures
        r == has_flag(views(args@), short@, long@),
{
    let mut i: usize = 0;
    while i < args.len()
        invariant
            i <= args.len(),
            forall|j: int| 0 <= j < i ==> !(views(args@)[j] == short@ || views(args@)[j] == long@),
        decreases args.len() - i,
    {
        let a = args[i].as_str();
        if str_eq(a, short) || str_eq(a, long) {
            assert(views(args@)[i as int] == a@);
            return true;
        }
        i = i + 1;
    }
    proof {
        assert forall|j: int| 0 <= j < views(args@).len() implies !(#[trigger] views(args@)[j] == short@
            || views(args@)[j] == long@) by {}
    }
    false
}

/// What the command-line arguments (the program name left out) ask for.
pub fn parse_args(args: &Vec<String>) -> (c: Command)
    ensures
        ({
            let (target, watch, which) = spec_command(views(args@));
            match c {
                Command::Help => which == 0,
                Command::Version => which == 1,
                Command::Diff { target: t, watch: w } => which == 2 && target == Some(t@) && watch == w,
                Command::Missing => which == 3,
            }
        }),
        c matches Command::Diff { watch: w, .. } ==> (w <==> exists|i: int| 0 <= i < args.len()
            && (#[trigger] args@[i]@ == "-w"@ || args@[i]@ == "--watch"@)),
{
    if any_flag(args, "-h", "--help") {
        return Command::Help;
    }
    if any_flag(args, "-V", "--version") {
        return Command::Version;
    }
    let watch = any_flag(args, "-w", "--watch");
    let ghost av = views(args@);
    let mut i: usize = 0;
    assert(av.skip(0) =~= av);
    while i < args.len()
        invariant
            i <= args.len(),
            av == views(args@),
            !has_flag(av, "-h"@, "--help"@),
            !has_flag(av, "-V"@, "--version"@),
            watch == has_flag(av, "-w"@, "--watch"@),
            forall|j: int| 0 <= j < i ==> is_option(#[trigger] av[j]),
            first_positional(av) == i + first_positional(av.skip(i as int)),
        decreases args.len() - i,
    {
        let a = args[i].as_str();
        assert(av[i as int] == a@);
        assert(av.skip(i as int)[0] == a@);
        if a.unicode_len() == 0 || a.get_char(0) != '-' {
            assert(!is_option(av.skip(i as int)[0]));
            assert(first_positional(av.skip(i as int)) == 0);
            let t = args[i].clone();
            proof {
                if watch {
                    let w = choose|w: int| 0 <= w < av.len() && (#[trigger] av[w] == "-w"@ || av[w] == "--watch"@);
                    assert(av[w] == args@[w]@);
                } else {
                    assert forall|w: int| 0 <= w < args.len() implies !(#[trigger] args@[w]@ == "-w"@
                        || args@[w]@ == "--watch"@) by {
                        assert(av[w] == args@[w]@);
                    }
                }
            }
            return Command::Diff { target: t, watch };
        }
        assert(av.skip(i as int).drop_first() =~= av.skip(i + 1));
        i = i + 1;
    }
    assert(av.skip(i as int) =~= Seq::<Seq<char>>::empty());
    Command::Missing
}

/// A key the viewer responds to.
#[derive(Debug, Clone, Copy, PartialEq, Eq, Structural)]
pub enum Key {
    Char(char),
    Esc,
    Down,
    Up,
    Right,
    Left,
    PageDown,
    PageUp,
    Home,
    End,
    Tab,
    BackTab,
    Other,
}

/// What a key asks the viewer to do.
#[derive(Debug, Clone, Copy, PartialEq, Eq, Structural)]
pub enum Action {
    Quit,
    ScrollDown(usize),
    ScrollUp(usize),
    ScrollRight(usize),
    ScrollLeft(usize),
    Top,
    Bottom,
    NextFile,
    PrevFile,
    WidenLeft,
    WidenRight,
    ToggleView,
    ToggleSyntax,
    Nothing,
}

/// The action of a key (`ctrl` when Control is held). A page is the viewport
/// height, at least one line; horizontal steps are four columns.
pub open spec fn spec_key_action(key: Key, ctrl: bool, page: usize) -> Action {
    match key {
        Key::Char('q') | Key::Esc => Action::Quit,
        Key::Char('c') => if ctrl { Action::Quit } else { Action::Nothing },
        Key::Char('j') | Key::Down => Action::ScrollDown(1),
        Key::Char('k') | Key::Up => Action::ScrollUp(1),
        Key::Char('l') | Key::Right => Action::ScrollRight(4),
        Key::Char('h') | Key::Left => Action::ScrollLeft(4),
        Key::PageDown => Action::ScrollDown(page),
        Key::PageUp => Action::ScrollUp(page),
        Key::Char('g') | Key::Home => Action::Top,
        Key::Char('G') | Key::End => Action::Bottom,
        Key::Char('n') | Key::Tab => Action::NextFile,
        Key::Char('p') | Key::BackTab => Action::PrevFile,
        Key::Char(']') => Action::WidenLeft,
        Key::Char('[') => Action::WidenRight,
        Key::Char('u') => Action::ToggleView,
        Key::Char('s') => Action::ToggleSyntax,
        _ => Action::Nothing,
    }
}

/// Each documented key does what the help says: `q`/Esc and Ctrl-C quit;
/// `j`/`k` and the arrows scroll a line (`h`/`l` four columns); PageDown and
/// PageUp scroll a page; `g`/Home and `G`/End jump to the top and bottom;
/// `n`/Tab and `p`/BackTab go to the next and previous file; `]` and `[`
/// resize the panes; `u` switches the view and `s` syntax highlighting.
pub proof fn lemma_documented_keys(ctrl: bool, page: usize)
    ensures
        spec_key_action(Key::Char('q'), ctrl, page) == Action::Quit,
        spec_key_action(Key::Esc, ctrl, page) == Action::Quit,
        spec_key_action(Key::Char('c'), true, page) == Action::Quit,
        spec_key_action(Key::Char('c'), false, page) == Action::Nothing,
        spec_key_action(Key::Char('j'), ctrl, page) == Action::ScrollDown(1),
        spec_key_action(Key::Down, ctrl, page) == Action::ScrollDown(1),
        spec_key_action(Key::Char('k'), ctrl, page) == Action::ScrollUp(1),
        spec_key_action(Key::Up, ctrl, page) == Action::ScrollUp(1),
        spec_key_action(Key::Char('l'), ctrl, page) == Action::ScrollRight(4),
        spec_key_action(Key::Right, ctrl, page) == Action::ScrollRight(4),
        spec_key_action(Key::Char('h'), ctrl, page) == Action::ScrollLeft(4),
        spec_key_action(Key::Left, ctrl, page) == Action::ScrollLeft(4),
        spec_key_action(Key::PageDown, ctrl, page) == Action::ScrollDown(page),
        spec_key_action(Key::PageUp, ctrl, page) == Action::ScrollUp(page),
        spec_key_action(Key::Char('g'), ctrl, page) == Action::Top,
        spec_key_action(Key::Home, ctrl, page) == Action::Top,
        spec_key_action(Key::Char('G'), ctrl, page) == Action::Bottom,
        spec_key_action(Key::End, ctrl, page) == Action::Bottom,
        spec_key_action(Key::Char('n'), ctrl, page) == Action::NextFile,
        spec_key_action(Key::Tab, ctrl, page) == Action::NextFile,
        spec_key_action(Key::Char('p'), ctrl, page) == Action::PrevFile,
        spec_key_action(Key::BackTab, ctrl, page) == Action::PrevFile,
        spec_key_action(Key::Char(']'), ctrl, page) == Action::WidenLeft,
        spec_key_action(Key::Char('['), ctrl, page) == Action::WidenRight,
        spec_key_action(Key::Char('u'), ctrl, page) == Action::ToggleView,
        spec_key_action(Key::Char('s'), ctrl, page) == Action::ToggleSyntax,
        spec_key_action(Key::Other, ctrl, page) == Action::Nothing,
{
}

/// With files to show, `n` selects the next file (the first after the last)
/// and `p` the one before (staying on the first), each time scrolled back to
/// the top left.
pub proof fn lemma_file_keys_move_selection(app: App, ctrl: bool)
    requires
        app.wf(),
        app.files.len() > 0,
    ensures
        applied(app, spec_key_action(Key::Char('n'), ctrl, page_of(app))).cur == (app.cur + 1) % (app.files.len() as int),
        applied(app, spec_key_action(Key::Char('p'), ctrl, page_of(app))).cur == if app.cur > 0 {
            app.cur - 1
        } else {
            0
        },
        applied(app, spec_key_action(Key::Char('n'), ctrl, page_of(app))).v_offset == 0,
        applied(app, spec_key_action(Key::Char('n'), ctrl, page_of(app))).h_offset == 0,
{
}

/// The action of a key.
pub fn key_action(key: Key, ctrl: bool, page: usize) -> (a: Action)
    ensures
        a == spec_key_action(key, ctrl, page),
{
    match key {
        Key::Char('q') | Key::Esc => Action::Quit,
        Key::Char('c') if ctrl => Action::Quit,
        Key::Char('j') | Key::Down => Action::ScrollDown(1),
        Key::Char('k') | Key::Up => Action::ScrollUp(1),
        Key::Char('l') | Key::Right => Action::ScrollRight(4),
        Key::Char('h') | Key::Left => Action::ScrollLeft(4),
        Key::PageDown => Action::ScrollDown(page),
        Key::PageUp => Action::ScrollUp(page),
        Key::Char('g') | Key::Home => Action::Top,
        Key::Char('G') | Key::End => Action::Bottom,
        Key::Char('n') | Key::Tab => Action::NextFile,
        Key::Char('p') | Key::BackTab => Action::PrevFile,
        Key::Char(']') => Action::WidenLeft,
        Key::Char('[') => Action::WidenRight,
        Key::Char('u') => Action::ToggleView,
        Key::Char('s') => Action::ToggleSyntax,
        _ => Action::Nothing,
    }
}

/// The viewer after an action.
pub open spec fn applied(app: App, a: Action) -> App {
    match a {
        Action::Quit => App { quit: true, ..app },
        Action::ScrollDown(n) => App {
            v_offset: if app.v_offset + n <= app.spec_max_v() {
                (app.v_offset + n) as usize
            } else {
                app.spec_max_v() as usize
            },
            ..app
        },
        Action::ScrollUp(n) => App { v_offset: if app.v_offset >= n { (app.v_offset - n) as usize } else { 0 }, ..app },
        Action::ScrollRight(n) => App { h_offset: (app.h_offset + n) as usize, ..app },
        Action::ScrollLeft(n) => App { h_offset: if app.h_offset >= n { (app.h_offset - n) as usize } else { 0 }, ..app },
        Action::Top => App { v_offset: 0, ..app },
        Action::Bottom => App { v_offset: app.spec_max_v() as usize, ..app },
        Action::NextFile => if app.files.len() == 0 {
            app
        } else {
            App { cur: ((app.cur + 1) % (app.files.len() as int)) as usize, v_offset: 0, h_offset: 0, ..app }
        },
        Action::PrevFile => if app.cur > 0 {
            App { cur: (app.cur - 1) as usize, v_offset: 0, h_offset: 0, ..app }
        } else {
            app
        },
        Action::WidenLeft => App { split_pct: widened(app.split_pct), ..app },
        Action::WidenRight => App { split_pct: narrowed(app.split_pct), ..app },
        Action::ToggleView => App { view: toggled(app.view), ..app },
        Action::ToggleSyntax => App { syntax: !app.syntax, ..app },
        Action::Nothing => app,
    }
}

/// Scrolling down never passes the bottom: after scrolling down or jumping to
/// the bottom, the offset is at most the furthest the view can scroll, and the
/// furthest stays where it was.
pub proof fn lemma_scroll_down_stops_at_bottom(app: App, n: usize)
    requires
        app.wf(),
    ensures
        applied(app, Action::ScrollDown(n)).v_offset <= app.spec_max_v(),
        applied(app, Action::ScrollDown(n)).spec_max_v() == app.spec_max_v(),
        applied(app, Action::Bottom).v_offset == app.spec_max_v(),
{
}

/// A page: the viewport height, at least one line.
pub open spec fn page_of(app: App) -> usize {
    if app.viewport_h >= 1 { app.viewport_h } else { 1 }
}

/// The action can be applied without overflowing an offset.
pub open spec fn action_fits(app: App, a: Action) -> bool {
    match a {
        Action::ScrollDown(n) => app.v_offset + n <= usize::MAX,
        Action::ScrollRight(n) => app.h_offset + n <= usize::MAX,
        _ => true,
    }
}

/// Carry out an action.
pub fn apply(app: &mut App, a: Action)
    requires
        old(app).wf(),
        action_fits(*old(app), a),
    ensures
        final(app).wf(),
        *final(app) == applied(*old(app), a),
{
    match a {
        Action::Quit => app.quit = true,
        Action::ScrollDown(n) => app.scroll_down(n),
        Action::ScrollUp(n) => app.scroll_up(n),
        Action::ScrollRight(n) => app.scroll_right(n),
        Action::ScrollLeft(n) => app.scroll_left(n),
        Action::Top => app.top(),
        Action::Bottom => app.bottom(),
        Action::NextFile => app.next_file(),
        Action::PrevFile => app.prev_file(),
        Action::WidenLeft => app.widen_left(),
        Action::WidenRight => app.widen_right(),
        Action::ToggleView => app.toggle_view(),
        Action::ToggleSyntax => app.toggle_syntax(),
        Action::Nothing => {},
    }
}

/// Respond to a key press.
pub fn handle_key(app: &mut App, key: Key, ctrl: bool)
    requires
        old(app).wf(),
        action_fits(*old(app), spec_key_action(key, ctrl, page_of(*old(app)))),
    ensures
        final(app).wf(),
        *final(app) == applied(*old(app), spec_key_action(key, ctrl, page_of(*old(app)))),
{
    let page = if app.viewport_h >= 1 { app.viewport_h } else { 1 };
    let a = key_action(key, ctrl, page);
    apply(app, a);
}


/// The value of a sequence of decimal digits.
pub open spec fn digits_value(d: Seq<char>) -> int
    decreases d.len(),
{
    if d.len() == 0 {
        0
    } else {
        digits_value(d.drop_last()) * 10 + (d.last() as int - '0' as int)
    }
}

/// Whether every character is an ASCII digit.
pub open spec fn all_digits(d: Seq<char>) -> bool {
    forall|i: int| 0 <= i < d.len() ==> '0' <= #[trigger] d[i] <= '9'
}

/// What `u16::from_str` gives: an optional `+`, then one or more ASCII
/// digits whose value fits in 16 bits.
pub open spec fn spec_parse_u16(s: Seq<char>) -> Option<u16> {
    let d = if s.len() > 0 && s[0] == '+' { s.drop_first() } else { s };
    if d.len() > 0 && all_digits(d) && digits_value(d) <= u16::MAX {
        Some(digits_value(d) as u16)
    } else {
        None
    }
}

/// A sequence of digits has at least the value of any of its prefixes.
proof fn lemma_digits_value_prefix(d: Seq<char>, k: int)
    requires
        0 <= k <= d.len(),
        all_digits(d),
    ensures
        0 <= digits_value(d.take(k)) <= digits_value(d),
    decreases d.len() - k,
{
    if k < d.len() {
        lemma_digits_value_prefix(d, k + 1);
        let t = d.take(k + 1);
        assert(t.drop_last() =~= d.take(k));
        assert(t.last() == d[k]);
        assert(all_digits(t));
    } else {
        assert(d.take(k) =~= d);
        lemma_digits_value_nonneg(d);
    }
}

/// A sequence of digits has a value of at least 0.
proof fn lemma_digits_value_nonneg(d: Seq<char>)
    requires
        all_digits(d),
    ensures
        digits_value(d) >= 0,
    decreases d.len(),
{
    if d.len() > 0 {
        assert(all_digits(d.drop_last()));
        assert(d.last() == d[d.len() - 1]);
        lemma_digits_value_nonneg(d.drop_last());
    }
}

/// An optional `+`, then one or more ASCII digits whose value is at most
/// `max`: that value.
pub open spec fn spec_parse_unsigned(s: Seq<char>, max: int) -> Option<int> {
    let d = if s.len() > 0 && s[0] == '+' { s.drop_first() } else { s };
    if d.len() > 0 && all_digits(d) && digits_value(d) <= max {
        Some(digits_value(d))
    } else {
        None
    }
}

/// Parse an optional `+`, then one or more ASCII digits whose value is at
/// most `max`, as the `from_str` of Rust's unsigned integers does.
fn parse_unsigned(s: &str, max: u32) -> (r: Option<u32>)
    ensures
        match r {
            Some(v) => spec_parse_unsigned(s@, max as int) == Some(v as int),
            None => spec_parse_unsigned(s@, max as int) is None,
        },
{
    let chars = chars_of(s);
    let n = chars.len();
    let start: usize = if n > 0 && chars[0] == '+' { 1 } else { 0 };
    let ghost d = if s@.len() > 0 && s@[0] == '+' { s@.drop_first() } else { s@ };
    assert(d =~= s@.skip(start as int));
    if start == n {
        return None;
    }
    let mut v: u64 = 0;
    let mut i: usize = start;
    assert(d.take(0) =~= Seq::<char>::empty());
    while i < n
        invariant
            start <= i <= n,
            n == s@.len(),
            chars@ == s@,
            d == s@.skip(start as int),
            d == (if s@.len() > 0 && s@[0] == '+' { s@.drop_first() } else { s@ }),
            d.len() > 0,
            all_digits(d.take(i - start)),
            v == digits_value(d.take(i - start)),
            v <= max,
        decreases n - i,
    {
        let c = chars[i];
        assert(d[i - start] == c);
        if !('0' <= c && c <= '9') {
            assert(!all_digits(d));
            return None;
        }
        let nv: u64 = v * 10 + (c as u64 - '0' as u64);
        let ghost t = d.take(i + 1 - start);
        assert(t.drop_last() =~= d.take(i - start));
        assert(t.last() == c);
        assert(all_digits(t));
        assert(nv == digits_value(t));
        if nv > max as u64 {
            proof {
                if all_digits(d) {
                    lemma_digits_value_prefix(d, i + 1 - start);
                }
            }
            return None;
        }
        v = nv;
        i = i + 1;
    }
    assert(d.take(n - start) =~= d);
    Some(v as u32)
}

/// Parse a decimal `u16` as `u16::from_str` does: an optional `+`, then one or
/// more ASCII digits whose value fits in 16 bits.
fn parse_u16(s: &str) -> (r: Option<u16>)
    ensures
        r == spec_parse_u16(s@),
{
    match parse_unsigned(s, 65535) {
        Some(v) => Some(v as u16),
        None => None,
    }
}

/// Index of the first `c` in `s`, or `s.len()`.
pub open spec fn first_index_of(s: Seq<char>, c: char) -> int
    decreases s.len(),
{
    if s.len() == 0 {
        0
    } else if s[0] == c {
        0
    } else {
        1 + first_index_of(s.drop_first(), c)
    }
}

/// The terminal size of a headless frame, from `WxH`; 100 by 24 when the text
/// is not of that form.
pub open spec fn spec_snapshot_size(spec: Seq<char>) -> (u16, u16) {
    let i = first_index_of(spec, 'x');
    if i < spec.len() {
        match (spec_parse_u16(spec.take(i)), spec_parse_u16(spec.skip(i + 1))) {
            (Some(w), Some(h)) => (w, h),
            _ => (100, 24),
        }
    } else {
        (100, 24)
    }
}

/// The terminal size of a headless frame, from `WxH`.
pub fn snapshot_size(spec: &str) -> (r: (u16, u16))
    ensures
        r == spec_snapshot_size(spec@),
{
    let chars = chars_of(spec);
    let n = chars.len();
    let mut i: usize = 0;
    assert(spec@.skip(0) =~= spec@);
    while i < n && chars[i] != 'x'
        invariant
            i <= n,
            n == spec@.len(),
            chars@ == spec@,
            first_index_of(spec@, 'x') == i + first_index_of(spec@.skip(i as int), 'x'),
        decreases n - i,
    {
        assert(spec@.skip(i as int).drop_first() =~= spec@.skip(i + 1));
        i = i + 1;
    }
    if i == n {
        return (100, 24);
    }
    assert(spec@.skip(i as int)[0] == 'x');
    assert(first_index_of(spec@, 'x') == i);
    let w = string_from(&chars, 0, i);
    let h = string_from(&chars, i + 1, n);
    assert(spec@.take(i as int) =~= spec@.subrange(0, i as int));
    assert(spec@.skip(i + 1) =~= spec@.subrange(i + 1, n as int));
    match (parse_u16(w.as_str()), parse_u16(h.as_str())) {
        (Some(w), Some(h)) => (w, h),
        _ => (100, 24),
    }
}

/// How many times a headless frame steps to the next file for the text of
/// `GITUI_CUR`: its number as `i32::from_str` reads it when that is positive;
/// none when the text is absent, does not parse, or is negative or 0.
pub open spec fn snapshot_steps(cur: Option<Seq<char>>) -> int {
    match cur {
        Some(s) => match spec_parse_unsigned(s, i32::MAX as int) {
            Some(v) => v,
            None => 0,
        },
        None => 0,
    }
}

/// The viewer after stepping `k` files on: the selection moves `k` files
/// forward, wrapping around, with the scroll reset; nothing moves when `k` is
/// 0 or there is no file.
pub open spec fn stepped(app: App, k: int) -> App {
    if app.files.len() > 0 && k > 0 {
        App { cur: ((app.cur + k) % (app.files.len() as int)) as usize, v_offset: 0, h_offset: 0, ..app }
    } else {
        app
    }
}

/// Prepare the viewer for a headless frame from the texts of `GITUI_CUR` and
/// `GITUI_VIEW` (`None` when unset): step to the next file as many times as
/// `GITUI_CUR` says, then switch to the unified view when `GITUI_VIEW` is
/// `unified`.
pub fn apply_snapshot_env(app: &mut App, cur: Option<&str>, view: Option<&str>)
    requires
        old(app).wf(),
    ensures
        final(app).wf(),
        ({
            let moved = stepped(*old(app), snapshot_steps(match cur { Some(s) => Some(s@), None => None }));
            *final(app) == if view matches Some(v) && v@ == "unified"@ {
                App { view: crate::app::toggled(moved.view), ..moved }
            } else {
                moved
            }
        }),
{
    let steps: u32 = match cur {
        Some(s) => match parse_unsigned(s, 2147483647) {
            Some(v) => v,
            None => 0,
        },
        None => 0,
    };
    let ghost a0 = *app;
    let ghost n = a0.files.len() as int;
    let mut i: u32 = 0;
    while i < steps
        invariant
            i <= steps,
            app.wf(),
            *app == stepped(a0, i as int),
            n == a0.files.len(),
            a0.wf(),
        decreases steps - i,
    {
        app.next_file();
        proof {
            if n > 0 {
                let x = a0.cur + i;
                vstd::arithmetic::div_mod::lemma_add_mod_noop(x, 1, n);
                if n > 1 {
                    vstd::arithmetic::div_mod::lemma_small_mod(1, n as nat);
                } else {
                    assert(x % 1 == 0);
                    assert((x + 1) % 1 == 0);
                }
                if i == 0 {
                    vstd::arithmetic::div_mod::lemma_small_mod(a0.cur as nat, n as nat);
                }
            }
        }
        i = i + 1;
    }
    match view {
        Some(v) => {
            if str_eq(v, "unified") {
                app.toggle_view();
            }
        },
        None => {},
    }
}

/// What the terminal reported while the viewer waited.
#[derive(Debug, Clone, Copy, PartialEq, Eq, Structural)]
pub enum LoopEvent {
    /// The watch timer ran out with no input.
    Timeout,
    /// A key event: the key, whether Ctrl was held, and whether it was a
    /// press (not a release or a repeat).
    Key { key: Key, ctrl: bool, press: bool },
    /// Any other terminal event.
    Other,
}

/// What the front end does after an event.
#[derive(Debug, Clone, Copy, PartialEq, Eq, Structural)]
pub enum LoopAction {
    /// Collect the diff again and reload it, then draw and wait again.
    Reload,
    /// Draw and wait for the next event.
    Redraw,
    /// Leave the viewer.
    Stop,
}

/// Whether the front end waits for input with the watch timer running: only
/// in watch mode.
pub fn waits_on_timer(app: &App) -> (r: bool)
    ensures
        r == app.watch,
{
    app.watch
}

/// What an event does to the viewer, and what the front end does next.
pub open spec fn spec_loop_step(app: App, ev: LoopEvent) -> (App, LoopAction) {
    let after = match ev {
        LoopEvent::Key { key, ctrl, press } => if press {
            applied(app, spec_key_action(key, ctrl, page_of(app)))
        } else {
            app
        },
        _ => app,
    };
    let act = if ev == LoopEvent::Timeout && app.watch {
        LoopAction::Reload
    } else if after.quit {
        LoopAction::Stop
    } else {
        LoopAction::Redraw
    };
    (after, act)
}

/// One turn of the viewer's event loop: a timeout in watch mode asks for a
/// reload; a key press is handled; key releases and other events change
/// nothing. The front end stops once the viewer wants to quit.
pub fn loop_step(app: &mut App, ev: LoopEvent) -> (act: LoopAction)
    requires
        old(app).wf(),
        ev matches LoopEvent::Key { key, ctrl, press } ==> (press ==> action_fits(
            *old(app),
            spec_key_action(key, ctrl, page_of(*old(app))),
        )),
    ensures
        final(app).wf(),
        (*final(app), act) == spec_loop_step(*old(app), ev),
{
    match ev {
        LoopEvent::Timeout => {
            if app.watch {
                return LoopAction::Reload;
            }
        },
        LoopEvent::Key { key, ctrl, press } => {
            if press {
                handle_key(app, key, ctrl);
            }
        },
        LoopEvent::Other => {},
    }
    if app.quit {
        LoopAction::Stop
    } else {
        LoopAction::Redraw
    }
}

} // verus!
