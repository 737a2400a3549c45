//! Runs that copy and move, on a file system in memory.
use mykrut::clipboard::{
    conflict_from_code, conflict_name, drain_progress, finish_transfer, progress_data,
    ConflictResolver, ProgressMsg,
};
use mykrut::copy_progress::{
    must_wait, CancelFlag, Conflict, CopyError, CopyOutcome, EntryKind, Op, PauseFlag, Progress,
    ProgressEmitter, Totals,
};
use mykrut::copy_run::{CopyRun, Event, Phase};
use mykrut::listing::show_operation_error;
use mykrut::state::AppState;
use mykrut::undo::UndoOp;
use mykrut::unix_path::UnixPath;
use std::collections::BTreeMap;

#[derive(Clone)]
enum Node {
    Dir,
    File(Vec<u8>),
    Link,
}

/// A file system in memory. The first component of a path is its device.
struct MemFs {
    nodes: BTreeMap<Vec<u8>, Node>,
    unreadable: Vec<Vec<u8>>,
}

fn path(s: &str) -> UnixPath {
    UnixPath::new(s)
}

impl MemFs {
    fn new() -> MemFs {
        MemFs { nodes: BTreeMap::new(), unreadable: Vec::new() }
    }

    fn dir(mut self, p: &str) -> Self {
        self.nodes.insert(p.as_bytes().to_vec(), Node::Dir);
        self
    }

    fn file(mut self, p: &str, contents: &[u8]) -> Self {
        self.nodes.insert(p.as_bytes().to_vec(), Node::File(contents.to_vec()));
        self
    }

    fn link(mut self, p: &str) -> Self {
        self.nodes.insert(p.as_bytes().to_vec(), Node::Link);
        self
    }

    fn has(&self, p: &str) -> bool {
        self.nodes.contains_key(p.as_bytes())
    }

    fn read(&self, p: &str) -> Vec<u8> {
        match &self.nodes[p.as_bytes()] {
            Node::File(c) => c.clone(),
            _ => panic!("no file: {p}"),
        }
    }

    fn below(&self, p: &UnixPath) -> Vec<Vec<u8>> {
        let mut prefix = p.bytes.clone();
        prefix.push(b'/');
        self.nodes
            .keys()
            .filter(|k| **k == p.bytes || k.starts_with(&prefix))
            .cloned()
            .collect()
    }

    fn children(&self, p: &UnixPath) -> Vec<Vec<u8>> {
        let mut prefix = p.bytes.clone();
        prefix.push(b'/');
        self.nodes
            .keys()
            .filter(|k| k.starts_with(&prefix) && !k[prefix.len()..].contains(&b'/'))
            .map(|k| k[prefix.len()..].to_vec())
            .collect()
    }

    fn examine(&self, p: &UnixPath) -> Event {
        match self.nodes.get(&p.bytes) {
            Some(Node::Dir) => Event::Meta(EntryKind::Directory, 0),
            Some(Node::File(c)) => Event::Meta(EntryKind::Other, c.len() as u64),
            Some(Node::Link) => Event::Meta(EntryKind::Link, 4),
            None => Event::Failed("not found".into()),
        }
    }

    fn device(p: &UnixPath) -> Vec<u8> {
        p.components()[1].clone()
    }

    fn prescan(&self, srcs: &[UnixPath]) -> Totals {
        let mut t = Totals::new();
        for s in srcs {
            let found = match self.examine(s) {
                Event::Meta(k, n) => Some((k, n)),
                _ => None,
            };
            if t.prescan(found) {
                for p in self.below(s) {
                    match &self.nodes[&p] {
                        Node::File(c) => t.walked(Some(c.len() as u64)),
                        _ => t.walked(None),
                    }
                }
            }
        }
        t
    }
}

/// Performs a run. `decide` answers conflicts, `report` sees the progress and
/// says whether to cancel from then on.
fn run_on(
    fs: &mut MemFs,
    srcs: &[&str],
    dest: &str,
    op: Op,
    decide: impl FnMut(&UnixPath) -> Conflict,
    report: impl FnMut(&Progress) -> bool,
) -> CopyOutcome {
    drive(fs, srcs, dest, op, decide, report, CopyRun::step)
}

/// Performs a run that never asks.
fn run_keeping_both(fs: &mut MemFs, srcs: &[&str], dest: &str, op: Op) -> CopyOutcome {
    let never = |p: &UnixPath| -> Conflict { panic!("asked for {}", p.display()) };
    drive(fs, srcs, dest, op, never, silent, CopyRun::step_keeping_both)
}

fn drive(
    fs: &mut MemFs,
    srcs: &[&str],
    dest: &str,
    op: Op,
    mut decide: impl FnMut(&UnixPath) -> Conflict,
    mut report: impl FnMut(&Progress) -> bool,
    step: impl Fn(&mut CopyRun, Event, bool),
) -> CopyOutcome {
    let srcs: Vec<UnixPath> = srcs.iter().map(|s| path(s)).collect();
    let mut cancelled = false;
    let totals = fs.prescan(&srcs);
    let mut run = CopyRun::new(srcs, path(dest), op, totals, cancelled);
    let mut open_dirs: Vec<Vec<Vec<u8>>> = Vec::new();
    let mut rest: Vec<u8> = Vec::new();
    for _ in 0..100_000 {
        let source = run.src.clone();
        let target = run.dest.clone();
        if run.phase != Phase::ReportFinal && run.phase != Phase::Finished {
            assert!(target.starts_with(&path(dest)), "{}", target.display());
        }
        let event = match run.phase {
            Phase::Finished => break,
            Phase::Poll | Phase::PollChunk => Event::Ready,
            Phase::StatSource => fs.examine(&source),
            Phase::StatDest | Phase::StatMoved => fs.examine(&target),
            Phase::Ask => Event::Decision(decide(&target)),
            Phase::Probe => Event::Occupied(fs.nodes.contains_key(&run.candidate().bytes)),
            Phase::RemoveDest => {
                for p in fs.below(&target) {
                    fs.nodes.remove(&p);
                }
                Event::Done
            }
            Phase::CopyLink => {
                fs.nodes.insert(target.bytes.clone(), Node::Link);
                Event::Done
            }
            Phase::MakeDir => {
                fs.nodes.insert(target.bytes.clone(), Node::Dir);
                Event::Done
            }
            Phase::OpenDir => {
                if fs.unreadable.contains(&source.bytes) {
                    Event::Failed("denied".into())
                } else {
                    let mut c = fs.children(&source);
                    c.reverse();
                    open_dirs.push(c);
                    Event::Done
                }
            }
            Phase::NextChild => match open_dirs.last_mut().unwrap().pop() {
                Some(c) => Event::Child(c),
                None => {
                    open_dirs.pop();
                    Event::NoMoreChildren
                }
            },
            Phase::OpenFile => {
                if fs.unreadable.contains(&source.bytes) {
                    Event::Failed("denied".into())
                } else {
                    assert!(!fs.nodes.contains_key(&target.bytes), "{}", target.display());
                    rest = match &fs.nodes[&source.bytes] {
                        Node::File(c) => c.clone(),
                        _ => panic!("no file"),
                    };
                    fs.nodes.insert(target.bytes.clone(), Node::File(Vec::new()));
                    Event::Done
                }
            }
            Phase::CopyChunk => {
                let n = rest.len().min(4096);
                let chunk: Vec<u8> = rest.drain(..n).collect();
                match fs.nodes.get_mut(&target.bytes) {
                    Some(Node::File(c)) => c.extend(chunk),
                    _ => panic!("no file"),
                }
                Event::Chunk(n as u64)
            }
            Phase::CloseFile => Event::Done,
            Phase::DropFile => {
                fs.nodes.remove(&target.bytes);
                Event::Done
            }
            Phase::ReportFile | Phase::ReportChunk | Phase::ReportMoved | Phase::ReportFinal => {
                if report(&run.progress().0) {
                    cancelled = true;
                }
                Event::Done
            }
            Phase::Rename => {
                if MemFs::device(&source) != MemFs::device(&target) {
                    Event::CrossDevice
                } else {
                    for p in fs.below(&source) {
                        let node = fs.nodes.remove(&p).unwrap();
                        let mut to = target.bytes.clone();
                        to.extend(&p[source.bytes.len()..]);
                        fs.nodes.insert(to, node);
                    }
                    Event::Done
                }
            }
            Phase::CountMoved => {
                let mut t = (0, 0);
                for p in fs.below(&target) {
                    if let Node::File(c) = &fs.nodes[&p] {
                        t = (t.0 + 1, t.1 + c.len() as u64);
                    }
                }
                Event::Counted(t.0, t.1)
            }
            Phase::RemoveSource => {
                for p in fs.below(&source) {
                    fs.nodes.remove(&p);
                }
                Event::Done
            }
        };
        step(&mut run, event, cancelled);
    }
    run.outcome(cancelled)
}

fn keep_both(_: &UnixPath) -> Conflict {
    Conflict::KeepBoth
}

fn silent(_: &Progress) -> bool {
    false
}

#[test]
fn prescan_counts_recursive() {
    let fs = MemFs::new()
        .dir("/m/d")
        .dir("/m/d/sub")
        .file("/m/d/a.txt", b"12345")
        .file("/m/d/sub/b.txt", b"abc");
    let t = fs.prescan(&[path("/m/d")]);
    assert_eq!(t.files, 2);
    assert_eq!(t.bytes, 8);
}

#[test]
fn copy_with_progress_emits_at_least_one_event() {
    let mut fs = MemFs::new().dir("/m/s").dir("/m/d").file("/m/s/a.txt", b"hello world");
    let mut events: Vec<(u64, u64)> = Vec::new();
    let outcome = run_on(&mut fs, &["/m/s/a.txt"], "/m/d", Op::Copy, keep_both, |p| {
        events.push((p.files_done, p.bytes_done));
        false
    });
    assert_eq!(outcome.succeeded, 1);
    assert!(outcome.errors.is_empty());
    assert!(!events.is_empty(), "expected ≥1 progress event");
    let last = events.last().unwrap();
    assert_eq!(last.0, 1);
    assert_eq!(last.1, 11);
    assert!(fs.has("/m/d/a.txt"));
    assert_eq!(fs.read("/m/d/a.txt"), b"hello world");
}

#[test]
fn cancel_stops_copy_mid_run() {
    let mut fs = MemFs::new().dir("/m/s").dir("/m/d");
    let names: Vec<String> = (0..50).map(|i| format!("/m/s/f{i}.txt")).collect();
    for n in &names {
        fs = fs.file(n, &[0u8; 8192]);
    }
    let srcs: Vec<&str> = names.iter().map(String::as_str).collect();
    let outcome = run_on(&mut fs, &srcs, "/m/d", Op::Copy, keep_both, |p| p.files_done >= 5);
    assert!(outcome.succeeded < 50, "expected early termination, got {}", outcome.succeeded);
    assert!(outcome.cancelled, "outcome should be marked cancelled");
}

#[test]
fn move_same_fs_uses_rename() {
    let mut fs = MemFs::new().dir("/m/s").dir("/m/d").file("/m/s/a.txt", b"hi");
    let outcome = run_on(&mut fs, &["/m/s/a.txt"], "/m/d", Op::Move, keep_both, silent);
    assert_eq!(outcome.succeeded, 1);
    assert!(!fs.has("/m/s/a.txt"));
    assert!(fs.has("/m/d/a.txt"));
}

fn two_files() -> MemFs {
    MemFs::new()
        .dir("/m/s")
        .dir("/m/d")
        .file("/m/s/a.txt", b"new")
        .file("/m/d/a.txt", b"old")
}

#[test]
fn conflict_skip_keeps_existing() {
    let mut fs = two_files();
    let outcome = run_on(&mut fs, &["/m/s/a.txt"], "/m/d", Op::Copy, |_| Conflict::Skip, silent);
    assert_eq!(outcome.skipped, 1);
    assert_eq!(fs.read("/m/d/a.txt"), b"old", "existing file untouched");
}

#[test]
fn conflict_overwrite_replaces() {
    let mut fs = two_files();
    run_on(&mut fs, &["/m/s/a.txt"], "/m/d", Op::Copy, |_| Conflict::Overwrite, silent);
    assert_eq!(fs.read("/m/d/a.txt"), b"new", "existing file replaced");
}

#[test]
fn conflict_keep_both_makes_unique_name() {
    let mut fs = two_files();
    run_on(&mut fs, &["/m/s/a.txt"], "/m/d", Op::Copy, keep_both, silent);
    assert_eq!(fs.read("/m/d/a.txt"), b"old", "original kept");
    assert!(fs.has("/m/d/a (1).txt"), "copy placed under a unique name");
}

#[test]
fn conflict_cancel_stops_everything() {
    let mut fs = two_files().file("/m/s/b.txt", b"b");
    let outcome = run_on(
        &mut fs,
        &["/m/s/a.txt", "/m/s/b.txt"],
        "/m/d",
        Op::Copy,
        |_| Conflict::Cancel,
        silent,
    );
    assert!(outcome.cancelled);
    assert_eq!((outcome.succeeded, outcome.skipped), (0, 0));
    assert!(!fs.has("/m/d/b.txt"));
}

#[test]
fn copy_directory_recursive() {
    let mut fs = MemFs::new()
        .dir("/m/s")
        .dir("/m/s/sub")
        .file("/m/s/sub/f.txt", b"x")
        .file("/m/s/g.txt", b"yy")
        .dir("/m/d");
    let outcome = run_on(&mut fs, &["/m/s"], "/m/d", Op::Copy, keep_both, silent);
    assert_eq!(outcome.succeeded, 1);
    assert!(fs.has("/m/d/s/sub/f.txt"));
    assert!(fs.has("/m/d/s/g.txt"));
}

#[test]
fn moving_across_devices_copies_and_removes() {
    let mut fs = MemFs::new()
        .dir("/m/s")
        .dir("/m/s/sub")
        .file("/m/s/sub/f.txt", b"x")
        .link("/m/s/l")
        .dir("/n/d");
    let outcome = run_on(&mut fs, &["/m/s"], "/n/d", Op::Move, keep_both, silent);
    assert_eq!((outcome.succeeded, outcome.errors.len()), (1, 0));
    assert!(fs.has("/n/d/s/sub/f.txt") && fs.has("/n/d/s/l"));
    assert!(!fs.has("/m/s") && !fs.has("/m/s/sub/f.txt"));
    assert_eq!(outcome.dests, vec![(path("/m/s"), path("/n/d/s"))]);
}

#[test]
fn source_stays_where_copying_failed() {
    let mut fs = MemFs::new()
        .dir("/m/s")
        .file("/m/s/bad", b"x")
        .file("/m/s/good", b"y")
        .dir("/n/d");
    fs.unreadable.push(b"/m/s/bad".to_vec());
    let outcome = run_on(&mut fs, &["/m/s"], "/n/d", Op::Move, keep_both, silent);
    assert!(fs.has("/m/s/bad") && fs.has("/m/s/good"));
    assert!(fs.has("/n/d/s/good"));
    assert_eq!(outcome.succeeded, 0);
    assert_eq!(outcome.errors.len(), 1);
    assert_eq!(outcome.errors[0].path, path("/m/s/bad"));
    assert_eq!(outcome.errors[0].message, "io: denied");
}

#[test]
fn folder_with_a_failure_is_no_success() {
    let mut fs = MemFs::new()
        .dir("/m/s")
        .file("/m/s/bad", b"x")
        .file("/m/s/good", b"y")
        .dir("/m/d");
    fs.unreadable.push(b"/m/s/bad".to_vec());
    let outcome = run_on(&mut fs, &["/m/s"], "/m/d", Op::Copy, keep_both, silent);
    assert!(fs.has("/m/d/s/good") && !fs.has("/m/d/s/bad"));
    assert_eq!(outcome.errors.len(), 1);
    assert_eq!(outcome.errors[0].path, path("/m/s/bad"));
    assert_eq!(outcome.succeeded, 0);
    assert!(outcome.dests.is_empty());
}

#[test]
fn cancelled_file_is_not_recorded() {
    let mut fs = MemFs::new().dir("/m/d").file("/m/big", &[7u8; 20_000]);
    let mut last = 0;
    let outcome = run_on(&mut fs, &["/m/big"], "/m/d", Op::Copy, keep_both, |p| {
        last = p.files_done;
        p.bytes_done > 0
    });
    assert!(outcome.cancelled);
    assert!(!fs.has("/m/d/big") && fs.has("/m/big"));
    assert_eq!((outcome.succeeded, last), (0, 0));
    assert!(outcome.dests.is_empty());
}

#[test]
fn cancelled_folder_is_not_recorded() {
    let mut fs = MemFs::new()
        .dir("/m/s")
        .file("/m/s/a", b"a")
        .file("/m/s/b", b"b")
        .dir("/m/d");
    let outcome =
        run_on(&mut fs, &["/m/s"], "/m/d", Op::Copy, keep_both, |p| p.files_done == 1);
    assert!(outcome.cancelled && fs.has("/m/d/s/a") && !fs.has("/m/d/s/b"));
    assert_eq!(outcome.succeeded, 0);
    assert!(outcome.dests.is_empty());
}

#[test]
fn file_written_before_a_cancel_is_recorded() {
    let mut fs = MemFs::new().dir("/m/d").file("/m/a", b"a").file("/m/b", b"b");
    let outcome =
        run_on(&mut fs, &["/m/a", "/m/b"], "/m/d", Op::Copy, keep_both, |p| p.files_done == 1);
    assert!(outcome.cancelled);
    assert_eq!(outcome.dests, vec![(path("/m/a"), path("/m/d/a"))]);
    assert!(fs.has("/m/d/a") && !fs.has("/m/d/b"));
}

#[test]
fn skipped_child_survives_a_move() {
    let merge = || {
        MemFs::new()
            .dir("/m/s")
            .file("/m/s/c", b"new")
            .file("/m/s/e", b"e")
            .dir("/m/d")
            .dir("/m/d/s")
            .file("/m/d/s/c", b"old")
    };
    let mut fs = merge();
    let outcome = run_on(&mut fs, &["/m/s"], "/m/d", Op::Move, |_| Conflict::Skip, silent);
    assert_eq!(fs.read("/m/s/c"), b"new");
    assert_eq!(fs.read("/m/d/s/c"), b"old");
    assert_eq!(fs.read("/m/d/s/e"), b"e");
    assert!(outcome.errors.is_empty() && outcome.dests.is_empty());
    let mut fs = merge();
    let outcome = run_on(&mut fs, &["/m/s"], "/m/d", Op::Move, keep_both, silent);
    assert!(!fs.has("/m/s"));
    assert_eq!(fs.read("/m/d/s/c"), b"old");
    assert_eq!(fs.read("/m/d/s/c (1)"), b"new");
    assert_eq!(outcome.succeeded, 1);
}

#[test]
fn folders_are_merged_without_asking() {
    let mut fs = MemFs::new()
        .dir("/m/s")
        .dir("/m/s/sub")
        .file("/m/s/sub/a", b"new")
        .file("/m/s/sub/b", b"b")
        .dir("/m/d")
        .dir("/m/d/sub")
        .file("/m/d/sub/a", b"old");
    let mut asked: Vec<String> = Vec::new();
    let outcome = run_on(
        &mut fs,
        &["/m/s/sub"],
        "/m/d",
        Op::Copy,
        |p| {
            asked.push(p.display());
            Conflict::Skip
        },
        silent,
    );
    assert_eq!(asked, ["/m/d/sub/a"]);
    assert_eq!(fs.read("/m/d/sub/a"), b"old");
    assert_eq!(fs.read("/m/d/sub/b"), b"b");
    // What was skipped is no top-level path.
    assert_eq!((outcome.succeeded, outcome.skipped), (1, 0));
}

#[test]
fn failures_do_not_stop_the_batch() {
    let mut fs = MemFs::new().dir("/m/d").file("/m/b", b"b");
    let outcome = run_on(&mut fs, &["/m/gone", "/", "/m/b"], "/m/d", Op::Copy, keep_both, silent);
    assert_eq!(outcome.succeeded, 1);
    assert_eq!(outcome.errors.len(), 1);
    assert_eq!(outcome.errors[0].message, "io: not found");
    assert!(fs.has("/m/d/b"));
    let mut fs = MemFs::new().dir("/m/d");
    let outcome = run_on(&mut fs, &[], "/m/d", Op::Move, keep_both, silent);
    assert_eq!((outcome.succeeded, outcome.cancelled), (0, false));
}

#[test]
fn moved_folders_are_counted() {
    let mut fs = MemFs::new()
        .dir("/m/s")
        .file("/m/s/a", b"123")
        .file("/m/s/b", b"45")
        .dir("/m/d");
    let mut last = (0, 0);
    run_on(&mut fs, &["/m/s"], "/m/d", Op::Move, keep_both, |p| {
        last = (p.files_done, p.bytes_done);
        false
    });
    assert_eq!(last, (2, 5));
}

#[test]
fn flags() {
    let mut c = CancelFlag::new();
    let mut p = PauseFlag::new();
    assert!(!c.is_cancelled() && !p.is_paused());
    p.set_paused(true);
    assert!(must_wait(&p, &c));
    c.cancel();
    assert!(c.is_cancelled() && !must_wait(&p, &c));
    c.reset();
    assert!(must_wait(&p, &c));
    assert!(!CancelFlag::default().is_cancelled() && !PauseFlag::default().is_paused());
}

#[test]
fn progress_is_throttled() {
    let ms = 1_000_000i64;
    let mut e = ProgressEmitter::new(0);
    assert!(e.maybe_emit(0, false));
    assert!(!e.maybe_emit(32 * ms, false));
    assert!(e.maybe_emit(33 * ms, false));
    assert!(e.maybe_emit(34 * ms, true));
    assert!(!e.maybe_emit(66 * ms, false));
}

fn progress(files_done: u64) -> Progress {
    Progress {
        op: Op::Copy,
        current: path("/a/b.txt"),
        files_done,
        files_total: 9,
        bytes_done: 1024,
        bytes_total: 2048,
    }
}

#[test]
fn window_takes_the_latest() {
    let d = drain_progress(vec![
        ProgressMsg::Update(progress(1)),
        ProgressMsg::Conflict(path("/x/y")),
        ProgressMsg::Update(progress(2)),
    ]);
    assert_eq!(d.latest.unwrap().files_done, 2);
    assert_eq!(d.conflict.as_deref(), Some("y"));
    assert!(!d.done);
    let d = drain_progress(vec![ProgressMsg::Done]);
    assert!(d.done && d.latest.is_none() && d.conflict.is_none());
    let data = progress_data(&progress(3), "Copying", "of", true);
    assert_eq!((data.op.as_str(), data.current.as_str()), ("Copying", "b.txt"));
    assert_eq!(data.bytes_text, "1.00 KB of 2.00 KB");
    assert!(data.visible && data.paused);
    assert_eq!(conflict_name(&path("/")), "");
}

#[test]
fn one_answer_can_hold_for_all() {
    assert_eq!(conflict_from_code(0), Conflict::Overwrite);
    assert_eq!(conflict_from_code(1), Conflict::Skip);
    assert_eq!(conflict_from_code(2), Conflict::KeepBoth);
    assert_eq!(conflict_from_code(3), Conflict::Cancel);
    let mut r = ConflictResolver::new();
    assert_eq!(r.answered(Some((Conflict::Skip, false))), Conflict::Skip);
    assert_eq!(r.decided(), None);
    assert_eq!(r.answered(None), Conflict::Cancel);
    assert_eq!(r.decided(), None);
    assert_eq!(r.answered(Some((Conflict::Overwrite, true))), Conflict::Overwrite);
    assert_eq!(r.decided(), Some(Conflict::Overwrite));
}

fn outcome(dests: Vec<(UnixPath, UnixPath)>) -> CopyOutcome {
    CopyOutcome {
        succeeded: dests.len() as u64,
        errors: vec![CopyError { path: path("/x"), message: "io: no".into() }],
        cancelled: false,
        skipped: 0,
        dests,
    }
}

#[test]
fn transfers_can_be_undone() {
    let mut s = AppState::new(1, 2);
    let errors = finish_transfer(&mut s, Op::Copy, outcome(vec![(path("/a"), path("/d/a"))]));
    assert_eq!(errors.len(), 1);
    assert!(matches!(&s.undo.undo[0], UndoOp::Copy { dests } if *dests == vec![path("/d/a")]));
    finish_transfer(&mut s, Op::Move, outcome(vec![(path("/a"), path("/d/a"))]));
    assert!(matches!(
        &s.undo.undo[1],
        UndoOp::Move { moves } if *moves == vec![(path("/a"), path("/d/a"))]
    ));
    finish_transfer(&mut s, Op::Move, outcome(vec![]));
    assert_eq!(s.undo.undo.len(), 2);
    let (title, text) = show_operation_error(Op::Copy, &errors);
    assert!(!title.is_empty());
    assert!(text.contains("/x") && text.contains("io: no"), "{text}");
}

#[test]
fn a_run_that_never_asks_keeps_both() {
    let tree = || {
        MemFs::new()
            .dir("/m/s")
            .dir("/m/s/t")
            .dir("/m/d")
            .dir("/m/d/t")
            .file("/m/s/a.txt", b"new")
            .file("/m/s/t/b", b"new")
            .file("/m/d/a.txt", b"old")
            .file("/m/d/a (1).txt", b"older")
            .file("/m/d/t/b", b"old")
    };
    for op in [Op::Copy, Op::Move] {
        let (mut fs, mut asked) = (tree(), tree());
        let srcs = ["/m/s/a.txt", "/m/s/t"];
        let outcome = run_keeping_both(&mut fs, &srcs, "/m/d", op);
        for (p, c) in [("/m/d/a.txt", "old"), ("/m/d/a (1).txt", "older"), ("/m/d/t/b", "old")] {
            assert_eq!(fs.read(p), c.as_bytes());
        }
        assert_eq!(fs.read("/m/d/a (2).txt"), b"new");
        assert_eq!(fs.read("/m/d/t/b (1)"), b"new");
        assert_eq!(outcome.dests[0], (path("/m/s/a.txt"), path("/m/d/a (2).txt")));
        let other = run_on(&mut asked, &srcs, "/m/d", op, keep_both, silent);
        assert_eq!((outcome.succeeded, outcome.skipped), (other.succeeded, other.skipped));
        assert!(fs.nodes.keys().eq(asked.nodes.keys()));
    }
}

#[test]
fn destinations_come_in_the_order_of_the_sources() {
    let mut fs = MemFs::new().dir("/m/s").dir("/m/d");
    let names = ["/m/s/c", "/m/s/a", "/m/s/b", "/m/s/d"];
    for n in names {
        fs = fs.file(n, b"x");
    }
    fs.unreadable.push(b"/m/s/b".to_vec());
    let outcome = run_on(&mut fs, &names, "/m/d", Op::Copy, keep_both, silent);
    let sources: Vec<String> = outcome.dests.iter().map(|d| d.0.display()).collect();
    assert_eq!(sources, ["/m/s/c", "/m/s/a", "/m/s/d"]);
    assert_eq!(outcome.errors.len(), 1);
}
