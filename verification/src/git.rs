//! What the viewer diffs, and the decisions around the `git` calls that find
//! it. Running `git` and reading files is the front end's part: these
//! functions tell it what to ask and assemble the answers.

use vstd::prelude::*;
use crate::text::{views, plain_lines, text_lines, substring};

verus! {

/// Git's well-known empty-tree object (sha1 repositories). Used as the
/// "parent" of a root commit so that it diffs cleanly.
pub const EMPTY_TREE: &'static str = "4b825dc642cb6eb9a060e54bf8d69288fbee4904";

/// What the user pointed the viewer at on the command line.
#[derive(Debug, Clone)]
pub enum Mode {
    /// Single working-tree file vs HEAD.
    File(String),
    /// Every uncommitted change vs HEAD.
    All,
    /// Everything a commit changed (commit vs its first parent).
    Commit(String),
}

/// The value of a mode.
pub enum ModeView {
    File(Seq<char>),
    All,
    Commit(Seq<char>),
}

impl View for Mode {
    type V = ModeView;

    open spec fn view(&self) -> ModeView {
        match self {
            Mode::File(p) => ModeView::File(p@),
            Mode::All => ModeView::All,
            Mode::Commit(c) => ModeView::Commit(c@),
        }
    }
}

/// One file's before/after, ready to diff.
#[derive(Debug, Clone)]
pub struct FileDiff {
    pub path: String,
    pub status: char,
    /// `None` when the file did not exist on that side (added / deleted).
    pub old: Option<String>,
    pub new: Option<String>,
}

/// The value of a file diff.
pub struct FileView {
    pub path: Seq<char>,
    pub status: char,
    pub old: Option<Seq<char>>,
    pub new: Option<Seq<char>>,
}

/// The value of an optional text.
pub open spec fn opt_text(o: Option<String>) -> Option<Seq<char>> {
    match o {
        Some(s) => Some(s@),
        None => None,
    }
}

impl View for FileDiff {
    type V = FileView;

    open spec fn view(&self) -> FileView {
        FileView { path: self.path@, status: self.status, old: opt_text(self.old), new: opt_text(self.new) }
    }
}

/// The values of a list of file diffs.
pub open spec fn file_views(v: Seq<FileDiff>) -> Seq<FileView> {
    v.map_values(|f: FileDiff| f@)
}

/// A side's text, empty when the file does not exist there.
pub open spec fn text_or_empty(o: Option<Seq<char>>) -> Seq<char> {
    match o {
        Some(s) => s,
        None => seq![],
    }
}

/// A side's text, empty when the file does not exist there.
pub fn text_of(o: &Option<String>) -> (r: &str)
    ensures
        r@ == text_or_empty(opt_text(*o)),
{
    match o {
        Some(s) => s.as_str(),
        None => {
            proof {
                reveal_strlit("");
            }
            ""
        },
    }
}

/// Index of the last `c` in `s`, or -1.
pub open spec fn last_index_of(s: Seq<char>, c: char) -> int
    decreases s.len(),
{
    if s.len() == 0 {
        -1
    } else if s.last() == c {
        s.len() - 1
    } else {
        last_index_of(s.drop_last(), c)
    }
}

/// One line of `git diff --name-status`: a status field and at least one
/// path, separated by tabs. The status is the first character of the first
/// field; the path is the last field (renames and copies list the old path,
/// then the new one: the new one is taken).
pub open spec fn name_status_entry(line: Seq<char>) -> Option<(char, Seq<char>)> {
    let t = last_index_of(line, '\t');
    if t >= 0 && line[0] != '\t' {
        Some((line[0], line.skip(t + 1)))
    } else {
        None
    }
}

/// The entries of the lines that hold one, in order.
pub open spec fn name_status_entries(lines: Seq<Seq<char>>) -> Seq<(char, Seq<char>)>
    decreases lines.len(),
{
    if lines.len() == 0 {
        seq![]
    } else {
        let prev = name_status_entries(lines.drop_last());
        match name_status_entry(lines.last()) {
            Some(e) => prev.push(e),
            None => prev,
        }
    }
}

/// Views of (status, path) pairs.
pub open spec fn entry_views(v: Seq<(char, String)>) -> Seq<(char, Seq<char>)> {
    v.map_values(|e: (char, String)| (e.0, e.1@))
}

/// The entry of one line, if it holds one.
fn parse_entry(line: &str) -> (r: Option<(char, String)>)
    ensures
        match r {
            Some(e) => name_status_entry(line@) == Some((e.0, e.1@)),
            None => name_status_entry(line@) is None,
        },
{
    let n = line.unicode_len();
    let mut i = n;
    assert(line@.take(n as int) =~= line@);
    while i > 0
        invariant
            i <= n,
            n == line@.len(),
            last_index_of(line@, '\t') == last_index_of(line@.take(i as int), '\t'),
        decreases i,
    {
        if line.get_char(i - 1) == '\t' {
            proof {
                assert(line@.take(i as int).last() == '\t');
            }
            if line.get_char(0) == '\t' {
                return None;
            }
            let path = substring(line, i, n);
            assert(line@.skip(i as int) =~= line@.subrange(i as int, n as int));
            return Some((line.get_char(0), path));
        }
        assert(line@.take(i as int).drop_last() =~= line@.take(i - 1));
        i = i - 1;
    }
    None
}

/// Parse `git diff --name-status` output into `(status, path)` pairs, one per
/// line that holds an entry.
pub fn parse_name_status(raw: &str) -> (r: Vec<(char, String)>)
    ensures
        entry_views(r@) == name_status_entries(plain_lines(raw@)),
{
    let lines = text_lines(raw);
    let ghost ls = views(lines@);
    let mut out: Vec<(char, String)> = Vec::new();
    let mut i: usize = 0;
    assert(ls.take(0) =~= Seq::<Seq<char>>::empty());
    while i < lines.len()
        invariant
            i <= lines.len(),
            ls == views(lines@),
            ls == plain_lines(raw@),
            entry_views(out@) == name_status_entries(ls.take(i as int)),
        decreases lines.len() - i,
    {
        let e = parse_entry(lines[i].as_str());
        proof {
            assert(ls.take(i + 1).drop_last() =~= ls.take(i as int));
            assert(ls.take(i + 1).last() == lines@[i as int]@);
        }
        match e {
            Some(e) => {
                assert(entry_views(out@.push(e)) =~= entry_views(out@).push((e.0, e.1@)));
                out.push(e);
            },
            None => {},
        }
        i = i + 1;
    }
    assert(ls.take(lines.len() as int) =~= ls);
    out
}

/// The nonempty lines of a text, in order.
pub open spec fn nonempty_lines(lines: Seq<Seq<char>>) -> Seq<Seq<char>> {
    lines.filter(|l: Seq<char>| l.len() > 0)
}

/// The untracked paths that `git ls-files --others --exclude-standard` lists:
/// its nonempty lines.
pub fn untracked_paths(raw: &str) -> (r: Vec<String>)
    ensures
        views(r@) == nonempty_lines(plain_lines(raw@)),
{
    let lines = text_lines(raw);
    let ghost ls = views(lines@);
    let mut out: Vec<String> = Vec::new();
    let mut i: usize = 0;
    assert(ls.take(0) =~= Seq::<Seq<char>>::empty());
    while i < lines.len()
        invariant
            i <= lines.len(),
            ls == views(lines@),
            ls == plain_lines(raw@),
            views(out@) == nonempty_lines(ls.take(i as int)),
        decreases lines.len() - i,
    {
        proof {
            assert(ls.take(i + 1).drop_last() =~= ls.take(i as int));
            assert(ls.take(i + 1).last() == lines@[i as int]@);
            reveal_with_fuel(Seq::filter, 1);
        }
        if lines[i].unicode_len() > 0 {
            let l = lines[i].clone();
            assert(views(out@.push(l)) =~= views(out@).push(l@));
            out.push(l);
        }
        i = i + 1;
    }
    assert(ls.take(lines.len() as int) =~= ls);
    out
}

/// The status of a single file: modified when it is both at HEAD and on disk,
/// added when only on disk, deleted when only at HEAD, and none when it is in
/// neither place.
pub open spec fn spec_file_status(at_head: bool, on_disk: bool) -> Option<char> {
    if at_head && on_disk {
        Some('M')
    } else if on_disk {
        Some('A')
    } else if at_head {
        Some('D')
    } else {
        None
    }
}

/// The status of a single file from where it exists.
pub fn file_status(at_head: bool, on_disk: bool) -> (r: Option<char>)
    ensures
        r == spec_file_status(at_head, on_disk),
{
    match (at_head, on_disk) {
        (true, true) => Some('M'),
        (false, true) => Some('A'),
        (true, false) => Some('D'),
        (false, false) => None,
    }
}

/// What the front end must find out next to resolve the command-line argument.
#[derive(Debug, Clone, Copy, PartialEq, Eq, Structural)]
pub enum Probe {
    /// Whether the argument names a file on disk or a path git tracks.
    Path,
    /// Whether the argument names a commit.
    Commit,
}

/// Where resolving the command-line argument stands.
#[derive(Debug, Clone)]
pub enum Resolution {
    Resolved(Mode),
    Ask(Probe),
    /// Not a tracked file, an existing path, `all`, or a commit.
    Unknown,
}

/// Resolve the argument into a mode: `all` is a keyword; otherwise a file (on
/// disk or tracked) wins over a revision of the same name; otherwise it must
/// name a commit. `path_found` and `commit_found` carry the answers to the
/// probes asked so far.
pub fn resolve_mode(arg: &str, path_found: Option<bool>, commit_found: Option<bool>) -> (r: Resolution)
    ensures
        arg@ == "all"@ ==> r is Resolved && r->Resolved_0@ == ModeView::All,
        arg@ != "all"@ ==> match path_found {
            None => r is Ask && r->Ask_0 == Probe::Path,
            Some(true) => r is Resolved && r->Resolved_0@ == ModeView::File(arg@),
            Some(false) => match commit_found {
                None => r is Ask && r->Ask_0 == Probe::Commit,
                Some(true) => r is Resolved && r->Resolved_0@ == ModeView::Commit(arg@),
                Some(false) => r is Unknown,
            },
        },
{
    if str_eq(arg, "all") {
        return Resolution::Resolved(Mode::All);
    }
    match path_found {
        None => Resolution::Ask(Probe::Path),
        Some(true) => Resolution::Resolved(Mode::File(String::from_str(arg))),
        Some(false) => match commit_found {
            None => Resolution::Ask(Probe::Commit),
            Some(true) => Resolution::Resolved(Mode::Commit(String::from_str(arg))),
            Some(false) => Resolution::Unknown,
        },
    }
}

/// Whether two strings hold the same characters.
pub fn str_eq(a: &str, b: &str) -> (r: bool)
    ensures
        r == (a@ == b@),
{
    let x = crate::text::chars_of(a);
    let y = crate::text::chars_of(b);
    if x.len() != y.len() {
        return false;
    }
    let mut i: usize = 0;
    while i < x.len()
        invariant
            i <= x.len(),
            x.len() == y.len(),
            x@ == a@,
            y@ == b@,
            forall|j: int| 0 <= j < i ==> x@[j] == y@[j],
        decreases x.len() - i,
    {
        if x[i] != y[i] {
            return false;
        }
        i = i + 1;
    }
    assert(x@ =~= y@);
    true
}


/// A piece of outside work that collecting the file diffs needs.
#[derive(Debug, Clone)]
pub enum Fetch {
    /// `git show <rev>:<path>`: the file at a revision, absent when it is not there.
    Show { rev: String, path: String },
    /// The file on disk, absent when it is gone.
    Working { path: String },
    /// `git diff --name-status <base> [<target>]`: the changed files.
    NameStatus { base: String, target: Option<String> },
    /// `git ls-files --others --exclude-standard`: the untracked files.
    Untracked,
    /// `git rev-parse --verify <id>^`: present when the commit has a parent.
    HasParent { id: String },
}

/// The value of a fetch.
pub enum FetchView {
    Show(Seq<char>, Seq<char>),
    Working(Seq<char>),
    NameStatus(Seq<char>, Option<Seq<char>>),
    Untracked,
    HasParent(Seq<char>),
}

impl View for Fetch {
    type V = FetchView;

    open spec fn view(&self) -> FetchView {
        match self {
            Fetch::Show { rev, path } => FetchView::Show(rev@, path@),
            Fetch::Working { path } => FetchView::Working(path@),
            Fetch::NameStatus { base, target } => FetchView::NameStatus(base@, opt_text(*target)),
            Fetch::Untracked => FetchView::Untracked,
            Fetch::HasParent { id } => FetchView::HasParent(id@),
        }
    }
}

/// Where collecting the file diffs stands.
pub enum Outcome {
    /// The next piece of outside work; its answer is the next reply.
    Ask(Fetch),
    /// All file diffs, in order.
    Finished(Vec<FileDiff>),
    /// A single file has no content at HEAD or on disk.
    Failed(String),
}

/// The value of an outcome.
pub enum OutcomeView {
    Ask(FetchView),
    Finished(Seq<FileView>),
    Failed(Seq<char>),
}

impl View for Outcome {
    type V = OutcomeView;

    open spec fn view(&self) -> OutcomeView {
        match self {
            Outcome::Ask(f) => OutcomeView::Ask(f@),
            Outcome::Finished(v) => OutcomeView::Finished(file_views(v@)),
            Outcome::Failed(p) => OutcomeView::Failed(p@),
        }
    }
}

/// The values of the replies.
pub open spec fn reply_views(r: Seq<Option<String>>) -> Seq<Option<Seq<char>>> {
    r.map_values(|o: Option<String>| opt_text(o))
}

/// The changed files a listing reply names.
pub open spec fn listed(reply: Option<Seq<char>>) -> Seq<(char, Seq<char>)> {
    name_status_entries(plain_lines(text_or_empty(reply)))
}

/// The untracked files a listing reply names.
pub open spec fn listed_untracked(reply: Option<Seq<char>>) -> Seq<Seq<char>> {
    nonempty_lines(plain_lines(text_or_empty(reply)))
}

/// A file diff's value.
pub open spec fn file_view(path: Seq<char>, status: char, old: Option<Seq<char>>, new: Option<Seq<char>>) -> FileView {
    FileView { path, status, old, new }
}

/// Collecting a single file: its content at HEAD and on disk decide its
/// status (none: it fails); then both are read again for the diff.
pub open spec fn collect_file(p: Seq<char>, r: Seq<Option<Seq<char>>>) -> OutcomeView {
    let k = r.len();
    if k == 0 {
        OutcomeView::Ask(FetchView::Show("HEAD"@, p))
    } else if k == 1 {
        OutcomeView::Ask(FetchView::Working(p))
    } else {
        match spec_file_status(r[0] is Some, r[1] is Some) {
            None => OutcomeView::Failed(p),
            Some(st) => if k == 2 {
                OutcomeView::Ask(FetchView::Show("HEAD"@, p))
            } else if k == 3 {
                OutcomeView::Ask(FetchView::Working(p))
            } else {
                OutcomeView::Finished(seq![file_view(p, st, r[2], r[3])])
            },
        }
    }
}

/// Collecting every uncommitted change: the changed files against HEAD, each
/// read at HEAD and on disk; then the untracked files, each read on disk and
/// listed as added.
pub open spec fn collect_all(r: Seq<Option<Seq<char>>>) -> OutcomeView {
    let k = r.len() as int;
    if k == 0 {
        OutcomeView::Ask(FetchView::NameStatus("HEAD"@, None))
    } else {
        let e = listed(r[0]);
        let m = e.len() as int;
        if k <= 2 * m {
            let j = (k - 1) / 2;
            if (k - 1) % 2 == 0 {
                OutcomeView::Ask(FetchView::Show("HEAD"@, e[j].1))
            } else {
                OutcomeView::Ask(FetchView::Working(e[j].1))
            }
        } else if k == 2 * m + 1 {
            OutcomeView::Ask(FetchView::Untracked)
        } else {
            let u = listed_untracked(r[2 * m + 1]);
            let t = k - (2 * m + 2);
            if t < u.len() {
                OutcomeView::Ask(FetchView::Working(u[t]))
            } else {
                OutcomeView::Finished(
                    Seq::new(m as nat, |j: int| file_view(e[j].1, e[j].0, r[1 + 2 * j], r[2 + 2 * j]))
                        + Seq::new(u.len(), |t: int| file_view(u[t], 'A', None, r[2 * m + 2 + t])),
                )
            }
        }
    }
}

/// The revision a commit is diffed against: its first parent, or the empty
/// tree for a root commit.
pub open spec fn parent_rev(id: Seq<char>, has_parent: bool) -> Seq<char> {
    if has_parent {
        id + "^"@
    } else {
        EMPTY_TREE@
    }
}

/// Collecting what a commit changed: whether it has a parent, then the
/// changed files against the parent, each read at the parent (when there is
/// one) and at the commit.
pub open spec fn collect_commit(id: Seq<char>, r: Seq<Option<Seq<char>>>) -> OutcomeView {
    let k = r.len() as int;
    if k == 0 {
        OutcomeView::Ask(FetchView::HasParent(id))
    } else {
        let hp = r[0] is Some;
        let parent = parent_rev(id, hp);
        if k == 1 {
            OutcomeView::Ask(FetchView::NameStatus(parent, Some(id)))
        } else {
            let e = listed(r[1]);
            let m = e.len() as int;
            let c: int = if hp { 2 } else { 1 };
            let t = k - 2;
            if t < c * m {
                let j = t / c;
                if hp && t % c == 0 {
                    OutcomeView::Ask(FetchView::Show(parent, e[j].1))
                } else {
                    OutcomeView::Ask(FetchView::Show(id, e[j].1))
                }
            } else {
                OutcomeView::Finished(Seq::new(m as nat, |j: int| file_view(
                    e[j].1,
                    e[j].0,
                    if hp { r[2 + 2 * j] } else { None },
                    if hp { r[3 + 2 * j] } else { r[2 + j] },
                )))
            }
        }
    }
}

/// Where collecting the file diffs of a mode stands after the given replies.
pub open spec fn spec_collect(mode: ModeView, r: Seq<Option<Seq<char>>>) -> OutcomeView {
    match mode {
        ModeView::File(p) => collect_file(p, r),
        ModeView::All => collect_all(r),
        ModeView::Commit(id) => collect_commit(id, r),
    }
}


/// The views of a list grown by one file.
proof fn lemma_file_views_push(v: Seq<FileDiff>, f: FileDiff)
    ensures
        file_views(v.push(f)) == file_views(v).push(f@),
{
    assert(file_views(v.push(f)) =~= file_views(v).push(f@));
}

/// Collecting every uncommitted change lists the changed files, read at HEAD
/// and on disk, and then every untracked file as an addition read on disk.
pub proof fn lemma_all_lists_changes_then_untracked(r: Seq<Option<Seq<char>>>)
    requires
        collect_all(r) is Finished,
    ensures
        ({
            let files = collect_all(r)->Finished_0;
            let e = listed(r[0]);
            let u = listed_untracked(r[2 * e.len() as int + 1]);
            &&& files.len() == e.len() + u.len()
            &&& forall|j: int| 0 <= j < e.len() ==> (#[trigger] files[j]).path == e[j].1
                && files[j].status == e[j].0 && files[j].old == r[1 + 2 * j] && files[j].new == r[2 + 2 * j]
            &&& forall|t: int| 0 <= t < u.len() ==> (#[trigger] files[e.len() + t]).path == u[t]
                && files[e.len() + t].status == 'A' && files[e.len() + t].old is None
                && files[e.len() + t].new == r[2 * e.len() + 2 + t]
        }),
{
    let files = collect_all(r)->Finished_0;
    let e = listed(r[0]);
    let m = e.len() as int;
    let u = listed_untracked(r[2 * m + 1]);
    let a = Seq::new(m as nat, |j: int| file_view(e[j].1, e[j].0, r[1 + 2 * j], r[2 + 2 * j]));
    let b = Seq::new(u.len(), |t: int| file_view(u[t], 'A', None, r[2 * m + 2 + t]));
    assert(files == a + b);
    assert forall|t: int| 0 <= t < u.len() implies (#[trigger] files[m + t]) == b[t] by {}
}

/// A root commit is diffed against the empty tree: each of its files is read
/// at the commit only, so all of them show up as additions.
pub proof fn lemma_root_commit_files_have_no_old_side(id: Seq<char>, r: Seq<Option<Seq<char>>>)
    requires
        r.len() > 0,
        r[0] is None,
        collect_commit(id, r) is Finished,
    ensures
        forall|j: int| 0 <= j < collect_commit(id, r)->Finished_0.len()
            ==> (#[trigger] collect_commit(id, r)->Finished_0[j]).old is None,
{
}

/// Collecting what a commit changed lists every changed file once, in the
/// listing's order; each file's new side is the answer to the question that
/// read that file's path at the commit, and its old side the answer to the
/// question that read it at the parent (a root commit has no old side).
pub proof fn lemma_commit_files_read_where_asked(id: Seq<char>, r: Seq<Option<Seq<char>>>)
    requires
        collect_commit(id, r) is Finished,
    ensures
        ({
            let files = collect_commit(id, r)->Finished_0;
            let e = listed(r[1]);
            let hp = r[0] is Some;
            let parent = parent_rev(id, hp);
            &&& files.len() == e.len()
            &&& forall|j: int| 0 <= j < files.len() ==> {
                &&& (#[trigger] files[j]).path == e[j].1
                &&& files[j].status == e[j].0
                &&& hp ==> {
                    &&& collect_commit(id, r.take(2 + 2 * j)) == OutcomeView::Ask(FetchView::Show(parent, files[j].path))
                    &&& files[j].old == r[2 + 2 * j]
                    &&& collect_commit(id, r.take(3 + 2 * j)) == OutcomeView::Ask(FetchView::Show(id, files[j].path))
                    &&& files[j].new == r[3 + 2 * j]
                }
                &&& !hp ==> {
                    &&& files[j].old is None
                    &&& collect_commit(id, r.take(2 + j)) == OutcomeView::Ask(FetchView::Show(id, files[j].path))
                    &&& files[j].new == r[2 + j]
                }
            }
        }),
{
    let files = collect_commit(id, r)->Finished_0;
    let e = listed(r[1]);
    let m = e.len() as int;
    let hp = r[0] is Some;
    assert forall|j: int| 0 <= j < files.len() implies {
        &&& hp ==> {
            &&& collect_commit(id, r.take(2 + 2 * j)) == OutcomeView::Ask(FetchView::Show(parent_rev(id, hp), files[j].path))
            &&& collect_commit(id, r.take(3 + 2 * j)) == OutcomeView::Ask(FetchView::Show(id, files[j].path))
        }
        &&& !hp ==> collect_commit(id, r.take(2 + j)) == OutcomeView::Ask(FetchView::Show(id, files[j].path))
    } by {
        if hp {
            assert(r.len() >= 2 + 2 * m);
            let a = r.take(2 + 2 * j);
            let b = r.take(3 + 2 * j);
            assert(a[0] == r[0] && a[1] == r[1]);
            assert(b[0] == r[0] && b[1] == r[1]);
            assert((2 * j) / 2 == j && (2 * j) % 2 == 0) by (nonlinear_arith)
                requires 0 <= j;
            assert((2 * j + 1) / 2 == j && (2 * j + 1) % 2 == 1) by (nonlinear_arith)
                requires 0 <= j;
        } else {
            let a = r.take(2 + j);
            assert(a[0] == r[0] && a[1] == r[1]);
            assert(j / 1 == j && j % 1 == 0) by (nonlinear_arith);
        }
    }
}

/// A single file fails exactly when it is neither at HEAD nor on disk;
/// otherwise its status says where it is, and its old and new sides are the
/// answers to the questions that read it at HEAD and on disk.
pub proof fn lemma_single_file_status(p: Seq<char>, r: Seq<Option<Seq<char>>>)
    requires
        r.len() >= 2,
    ensures
        (collect_file(p, r) is Failed) <==> (r[0] is None && r[1] is None),
        collect_file(p, r) is Finished ==> collect_file(p, r)->Finished_0.len() == 1
            && collect_file(p, r)->Finished_0[0].status == spec_file_status(r[0] is Some, r[1] is Some)->0,
        collect_file(p, r) is Finished ==> {
            &&& collect_file(p, r)->Finished_0[0].path == p
            &&& collect_file(p, r.take(2)) == OutcomeView::Ask(FetchView::Show("HEAD"@, p))
            &&& collect_file(p, r)->Finished_0[0].old == r[2]
            &&& collect_file(p, r.take(3)) == OutcomeView::Ask(FetchView::Working(p))
            &&& collect_file(p, r)->Finished_0[0].new == r[3]
        },
{
    if collect_file(p, r) is Finished {
        assert(r.take(2)[0] == r[0] && r.take(2)[1] == r[1]);
        assert(r.take(3)[0] == r[0] && r.take(3)[1] == r[1]);
    }
}

/// A copy of an optional text.
fn opt_clone(o: &Option<String>) -> (r: Option<String>)
    ensures
        opt_text(r) == opt_text(*o),
{
    match o {
        Some(s) => Some(s.clone()),
        None => None,
    }
}

/// The reply at `k`.
fn reply(r: &Vec<Option<String>>, k: usize) -> (o: Option<String>)
    requires
        k < r.len(),
    ensures
        opt_text(o) == reply_views(r@)[k as int],
{
    opt_clone(&r[k])
}

/// Where collecting a single file stands.
fn collect_file_step(p: &String, r: &Vec<Option<String>>) -> (o: Outcome)
    ensures
        o@ == collect_file(p@, reply_views(r@)),
{
    let k = r.len();
    if k == 0 {
        return Outcome::Ask(Fetch::Show { rev: String::from_str("HEAD"), path: p.clone() });
    }
    if k == 1 {
        return Outcome::Ask(Fetch::Working { path: p.clone() });
    }
    let st = match file_status(r[0].is_some(), r[1].is_some()) {
        Some(st) => st,
        None => return Outcome::Failed(p.clone()),
    };
    if k == 2 {
        return Outcome::Ask(Fetch::Show { rev: String::from_str("HEAD"), path: p.clone() });
    }
    if k == 3 {
        return Outcome::Ask(Fetch::Working { path: p.clone() });
    }
    let mut files: Vec<FileDiff> = Vec::new();
    files.push(FileDiff { path: p.clone(), status: st, old: reply(r, 2), new: reply(r, 3) });
    assert(file_views(files@) =~= seq![file_view(p@, st, reply_views(r@)[2], reply_views(r@)[3])]);
    Outcome::Finished(files)
}

/// Where collecting every uncommitted change stands.
fn collect_all_step(r: &Vec<Option<String>>) -> (o: Outcome)
    ensures
        o@ == collect_all(reply_views(r@)),
{
    let ghost rv = reply_views(r@);
    let k = r.len();
    if k == 0 {
        return Outcome::Ask(Fetch::NameStatus { base: String::from_str("HEAD"), target: None });
    }
    let e = parse_name_status(text_of(&r[0]));
    let m = e.len();
    assert(entry_views(e@) == listed(rv[0]));
    if (k - 1) / 2 < m {
        let j = (k - 1) / 2;
        assert(entry_views(e@)[j as int].1 == e@[j as int].1@);
        if (k - 1) % 2 == 0 {
            return Outcome::Ask(Fetch::Show { rev: String::from_str("HEAD"), path: e[j].1.clone() });
        } else {
            return Outcome::Ask(Fetch::Working { path: e[j].1.clone() });
        }
    }
    let two_m = 2 * m;
    if k == two_m + 1 {
        return Outcome::Ask(Fetch::Untracked);
    }
    let u = untracked_paths(text_of(&r[two_m + 1]));
    assert(views(u@) == listed_untracked(rv[2 * m + 1]));
    let t = k - (two_m + 2);
    if t < u.len() {
        assert(views(u@)[t as int] == u@[t as int]@);
        return Outcome::Ask(Fetch::Working { path: u[t].clone() });
    }
    let ghost ev = entry_views(e@);
    let ghost uv = views(u@);
    let mut files: Vec<FileDiff> = Vec::new();
    let mut j: usize = 0;
    while j < m
        invariant
            j <= m,
            m == e.len(),
            two_m == 2 * m,
            k == r.len(),
            k >= two_m + 2 + u.len(),
            rv == reply_views(r@),
            ev == entry_views(e@),
            file_views(files@) == Seq::new(j as nat, |i: int| file_view(ev[i].1, ev[i].0, rv[1 + 2 * i], rv[2 + 2 * i])),
        decreases m - j,
    {
        let f = FileDiff { path: e[j].1.clone(), status: e[j].0, old: reply(r, 1 + 2 * j), new: reply(r, 2 + 2 * j) };
        proof {
            assert(ev[j as int] == (e@[j as int].0, e@[j as int].1@));
            assert(f@ == file_view(ev[j as int].1, ev[j as int].0, rv[1 + 2 * j], rv[2 + 2 * j]));
            lemma_file_views_push(files@, f);
        }
        files.push(f);
        j = j + 1;
        assert(file_views(files@) =~= Seq::new(j as nat, |i: int| file_view(ev[i].1, ev[i].0, rv[1 + 2 * i], rv[2 + 2 * i])));
    }
    let ghost head = file_views(files@);
    let mut t: usize = 0;
    while t < u.len()
        invariant
            t <= u.len(),
            two_m == 2 * m,
            k == r.len(),
            k >= two_m + 2 + u.len(),
            rv == reply_views(r@),
            uv == views(u@),
            file_views(files@) == head + Seq::new(t as nat, |i: int| file_view(uv[i], 'A', None, rv[2 * m + 2 + i])),
        decreases u.len() - t,
    {
        let f = FileDiff { path: u[t].clone(), status: 'A', old: None, new: reply(r, two_m + 2 + t) };
        proof {
            assert(uv[t as int] == u@[t as int]@);
            assert(f@ == file_view(uv[t as int], 'A', None, rv[2 * m + 2 + t]));
            lemma_file_views_push(files@, f);
        }
        files.push(f);
        t = t + 1;
        assert(file_views(files@) =~= head + Seq::new(t as nat, |i: int| file_view(uv[i], 'A', None, rv[2 * m + 2 + i])));
    }
    Outcome::Finished(files)
}

/// The revision a commit is diffed against.
fn parent_of(id: &String, has_parent: bool) -> (r: String)
    ensures
        r@ == parent_rev(id@, has_parent),
{
    if has_parent {
        let mut p = id.clone();
        p.append("^");
        p
    } else {
        String::from_str(EMPTY_TREE)
    }
}

/// Where collecting what a commit changed stands.
fn collect_commit_step(id: &String, r: &Vec<Option<String>>) -> (o: Outcome)
    ensures
        o@ == collect_commit(id@, reply_views(r@)),
{
    let ghost rv = reply_views(r@);
    let k = r.len();
    if k == 0 {
        return Outcome::Ask(Fetch::HasParent { id: id.clone() });
    }
    let hp = r[0].is_some();
    let parent = parent_of(id, hp);
    if k == 1 {
        return Outcome::Ask(Fetch::NameStatus { base: parent, target: Some(id.clone()) });
    }
    let e = parse_name_status(text_of(&r[1]));
    let m = e.len();
    let ghost ev = entry_views(e@);
    assert(ev == listed(rv[1]));
    let c: usize = if hp { 2 } else { 1 };
    let t = k - 2;
    if t / c < m {
        let j = t / c;
        assert(ev[j as int].1 == e@[j as int].1@);
        assert(t < c * m) by (nonlinear_arith)
            requires j == t / c, j < m, c == 1 || c == 2;
        if hp && t % c == 0 {
            return Outcome::Ask(Fetch::Show { rev: parent, path: e[j].1.clone() });
        } else {
            return Outcome::Ask(Fetch::Show { rev: id.clone(), path: e[j].1.clone() });
        }
    }
    assert(t >= c * m) by (nonlinear_arith)
        requires t / c >= m, c == 1 || c == 2;
    let mut files: Vec<FileDiff> = Vec::new();
    let mut j: usize = 0;
    while j < m
        invariant
            j <= m,
            m == e.len(),
            k == r.len(),
            t == k - 2,
            c == if hp { 2usize } else { 1usize },
            t >= c * m,
            hp == (rv[0] is Some),
            rv == reply_views(r@),
            ev == entry_views(e@),
            file_views(files@) == Seq::new(j as nat, |i: int| file_view(
                ev[i].1,
                ev[i].0,
                if hp { rv[2 + 2 * i] } else { None },
                if hp { rv[3 + 2 * i] } else { rv[2 + i] },
            )),
        decreases m - j,
    {
        let f = if hp {
            FileDiff { path: e[j].1.clone(), status: e[j].0, old: reply(r, 2 + 2 * j), new: reply(r, 3 + 2 * j) }
        } else {
            FileDiff { path: e[j].1.clone(), status: e[j].0, old: None, new: reply(r, 2 + j) }
        };
        proof {
            assert(ev[j as int] == (e@[j as int].0, e@[j as int].1@));
            assert(f@ == file_view(
                ev[j as int].1,
                ev[j as int].0,
                if hp { rv[2 + 2 * j] } else { None },
                if hp { rv[3 + 2 * j] } else { rv[2 + j] },
            ));
            lemma_file_views_push(files@, f);
        }
        files.push(f);
        j = j + 1;
        assert(file_views(files@) =~= Seq::new(j as nat, |i: int| file_view(
            ev[i].1,
            ev[i].0,
            if hp { rv[2 + 2 * i] } else { None },
            if hp { rv[3 + 2 * i] } else { rv[2 + i] },
        )));
    }
    Outcome::Finished(files)
}

/// Where collecting the file diffs of `mode` stands after `replies`, the
/// answers to the outside work asked so far, in order. The front end starts
/// with no replies, performs each asked fetch and appends its answer, until
/// the files are finished or collecting fails.
pub fn collect(mode: &Mode, replies: &Vec<Option<String>>) -> (o: Outcome)
    ensures
        o@ == spec_collect(mode@, reply_views(replies@)),
{
    match mode {
        Mode::File(p) => collect_file_step(p, replies),
        Mode::All => collect_all_step(replies),
        Mode::Commit(id) => collect_commit_step(id, replies),
    }
}

} // verus!
