//! Names: validity, free names, bulk rename patterns and numbers as text.
use mykrut::bulk_rename::{parse, render, render_batch, Segment};
use mykrut::file_ops::{
    count_deleted, create_directory, deep_count, delete_step, nth_candidate_name, prune_child,
    rename_in_place, split_name, unique_destination, validate_name, with_permission_bits,
    CountStep, DeepCountStats, DeleteStep, FileOpError, Found, RenameStep, Visited,
};
use mykrut::fs_atomic::{next_step, temp_path, AtomicError, AtomicStep};
use mykrut::num_text::{
    decimal_text, hex_text, hex_u16_text, padded_decimal_text, parse_text,
};
use mykrut::unix_path::UnixPath;
use std::cell::RefCell;
use std::collections::BTreeSet;

fn path(s: &str) -> UnixPath {
    UnixPath::new(s)
}

fn name_of(p: &UnixPath) -> String {
    String::from_utf8(p.file_name().unwrap()).unwrap()
}

/// A directory tree of which only the paths matter.
struct Tree {
    paths: RefCell<BTreeSet<Vec<u8>>>,
}

impl Tree {
    fn new(paths: &[&str]) -> Tree {
        Tree { paths: RefCell::new(paths.iter().map(|p| p.as_bytes().to_vec()).collect()) }
    }

    fn has(&self, p: &UnixPath) -> bool {
        self.paths.borrow().contains(&p.bytes)
    }

    fn add(&self, p: &UnixPath) {
        self.paths.borrow_mut().insert(p.bytes.clone());
    }

    fn remove(&self, p: &UnixPath) -> bool {
        self.paths.borrow_mut().remove(&p.bytes)
    }
}

#[test]
fn parses_literals() {
    assert_eq!(parse("hello"), vec![Segment::Literal("hello".into())]);
}

#[test]
fn parses_idx_no_width() {
    let s = parse("file_{idx}");
    assert_eq!(s, vec![Segment::Literal("file_".into()), Segment::Idx { width: 0 }]);
}

#[test]
fn parses_idx_with_width() {
    let s = parse("img_{3:idx}.jpg");
    assert_eq!(
        s,
        vec![
            Segment::Literal("img_".into()),
            Segment::Idx { width: 3 },
            Segment::Literal(".jpg".into())
        ]
    );
}

#[test]
fn parses_name_and_ext() {
    let s = parse("{name}_backup{ext.}");
    assert_eq!(s, vec![Segment::Name, Segment::Literal("_backup".into()), Segment::ExtDot]);
}

#[test]
fn renders_index_padding() {
    let segs = parse("{3:idx}_x");
    assert_eq!(render(&segs, 1, "anything"), "001_x");
    assert_eq!(render(&segs, 42, "anything"), "042_x");
    assert_eq!(render(&segs, 1234, "anything"), "1234_x");
}

#[test]
fn renders_name_and_ext() {
    let segs = parse("{name}_v2{ext.}");
    assert_eq!(render(&segs, 1, "report.pdf"), "report_v2.pdf");
    assert_eq!(render(&segs, 1, "noext"), "noext_v2");
}

#[test]
fn escapes_braces() {
    let segs = parse("{{literal}}");
    assert_eq!(render(&segs, 1, "x"), "{literal}");
}

#[test]
fn unknown_placeholder_passes_through() {
    let segs = parse("{wat}_{idx}");
    assert_eq!(render(&segs, 1, "x"), "{wat}_1");
}

#[test]
fn preserves_non_ascii_literals() {
    let segs = parse("café-{idx}-日本");
    assert_eq!(render(&segs, 1, "x"), "café-1-日本");
    let segs = parse("{name}_ÄÖÜ");
    assert_eq!(render(&segs, 1, "report.pdf"), "report_ÄÖÜ");
}

#[test]
fn batch_renders_in_order() {
    let names: Vec<String> = vec!["a.jpg".into(), "b.png".into(), "c.gif".into()];
    let r = render_batch("photo_{2:idx}{ext.}", &names);
    assert_eq!(r, vec!["photo_01.jpg", "photo_02.png", "photo_03.gif"]);
}

#[test]
fn extension_without_its_dot() {
    let segs = parse("{ext}-{name}");
    assert_eq!(segs, vec![Segment::Ext, Segment::Literal("-".into()), Segment::Name]);
    assert_eq!(render(&segs, 7, "a.tar.gz"), "gz-a.tar");
    assert_eq!(render(&segs, 7, "plain"), "-plain");
}

#[test]
fn unfinished_placeholder_is_literal() {
    assert_eq!(render(&parse("a{name"), 1, "x.y"), "a{name");
    assert_eq!(render(&parse("}{"), 1, "x.y"), "}{");
    assert_eq!(render(&parse(""), 1, "x.y"), "");
}

#[test]
fn escaped_braces_render_as_themselves() {
    for s in ["{}", "a{b}c", "}}{{", "no braces"] {
        let escaped = s.replace('{', "{{").replace('}', "}}");
        assert_eq!(render(&parse(&escaped), 3, "n.e"), s);
    }
}

#[test]
fn validate_name_rejects_bad() {
    assert!(validate_name("").is_err());
    assert!(validate_name(".").is_err());
    assert!(validate_name("..").is_err());
    assert!(validate_name("a/b").is_err());
    validate_name("hello.txt").unwrap();
}

#[test]
fn validate_name_gives_the_name_back() {
    match validate_name("a/b") {
        Err(FileOpError::InvalidName(n)) => assert_eq!(n, "a/b"),
        other => panic!("{other:?}"),
    }
    assert_eq!(
        validate_name("..").unwrap_err().message(),
        "invalid name (contains '/' or empty): .."
    );
    assert!(validate_name("...").is_ok());
}

#[test]
fn split_name_handles_dotfile() {
    let split = |s: &str| split_name(s);
    assert_eq!(split("file.txt"), ("file".to_string(), "txt".to_string()));
    assert_eq!(split("nofile"), ("nofile".to_string(), "".to_string()));
    assert_eq!(split(".hidden"), (".hidden".to_string(), "".to_string()));
    assert_eq!(split("a.b.c"), ("a.b".to_string(), "c".to_string()));
}

#[test]
fn unique_destination_skips_existing() {
    let dir = path("/tmp/d");
    let fs = Tree::new(&["/tmp/d/hello.txt"]);
    let d = unique_destination(&dir, "hello.txt", |p: &UnixPath| fs.has(p));
    assert_eq!(name_of(&d), "hello (1).txt");

    fs.add(&path("/tmp/d/hello (1).txt"));
    let d = unique_destination(&dir, "hello.txt", |p: &UnixPath| fs.has(p));
    assert_eq!(name_of(&d), "hello (2).txt");

    let d = unique_destination(&dir, "fresh.txt", |p: &UnixPath| fs.has(p));
    assert_eq!(name_of(&d), "fresh.txt");
}

#[test]
fn unique_destination_gives_up_at_last() {
    let d = unique_destination(&path("/d"), "a.b", |_: &UnixPath| true);
    assert_eq!(d.display(), "/d/a.b");
}

#[test]
fn candidate_names_differ() {
    let names: BTreeSet<String> = (0..200).map(|n| nth_candidate_name("x.y", n)).collect();
    assert_eq!(names.len(), 200);
    assert_eq!(nth_candidate_name("x.y", 0), "x.y");
    assert_eq!(nth_candidate_name("x.y", 12), "x (12).y");
    assert_eq!(nth_candidate_name("dir", 3), "dir (3)");
    assert_eq!(nth_candidate_name(".rc", 1), ".rc (1)");
}

#[test]
fn delete_permanently_works() {
    let fs = Tree::new(&["/d/doomed.txt"]);
    let target = path("/d/doomed.txt");
    let found = if fs.has(&target) { Found::Other } else { Found::Gone };
    let step = delete_step(found).unwrap();
    assert_eq!(step, DeleteStep::RemoveFile);
    assert!(fs.remove(&target));
    let n = count_deleted(&vec![step]);
    assert_eq!(n, 1);
    assert!(!fs.has(&target));
}

#[test]
fn delete_passes_over_what_is_gone() {
    let steps = vec![
        delete_step(Found::Directory).unwrap(),
        delete_step(Found::Gone).unwrap(),
        delete_step(Found::Other).unwrap(),
    ];
    assert_eq!(steps, vec![DeleteStep::RemoveTree, DeleteStep::Nothing, DeleteStep::RemoveFile]);
    assert_eq!(count_deleted(&steps), 2);
    match delete_step(Found::Failed("denied".into())) {
        Err(FileOpError::Io(m)) => assert_eq!(m, "denied"),
        other => panic!("{other:?}"),
    }
}

#[test]
fn create_directory_picks_unique_name() {
    let dir = path("/d");
    let fs = Tree::new(&[]);
    let a = create_directory(&dir, "newfolder", |p: &UnixPath| fs.has(p)).unwrap();
    fs.add(&a);
    assert!(fs.has(&a));
    assert_eq!(name_of(&a), "newfolder");

    let b = create_directory(&dir, "newfolder", |p: &UnixPath| fs.has(p)).unwrap();
    fs.add(&b);
    assert!(fs.has(&b));
    assert_eq!(name_of(&b), "newfolder (1)");
    assert!(create_directory(&dir, "a/b", |_: &UnixPath| false).is_err());
}

#[test]
fn rename_in_place_works() {
    let fs = Tree::new(&["/d/a.txt"]);
    let a = path("/d/a.txt");
    let b = match rename_in_place(&a, "b.txt", |p: &UnixPath| fs.has(p)).unwrap() {
        RenameStep::Rename(b) => b,
        other => panic!("{other:?}"),
    };
    fs.remove(&a);
    fs.add(&b);
    assert!(fs.has(&b) && !fs.has(&a));
    assert_eq!(name_of(&b), "b.txt");
}

#[test]
fn rename_rejects_invalid() {
    let a = path("/d/a.txt");
    let err = rename_in_place(&a, "..", |_: &UnixPath| false).unwrap_err();
    assert!(matches!(err, FileOpError::InvalidName(_)));
    let err = rename_in_place(&a, "x/y", |_: &UnixPath| false).unwrap_err();
    assert!(matches!(err, FileOpError::InvalidName(_)));
}

#[test]
fn rename_meets_what_is_there() {
    let a = path("/d/a.txt");
    match rename_in_place(&a, "a.txt", |_: &UnixPath| true) {
        Ok(RenameStep::Unchanged(p)) => assert_eq!(p, a),
        other => panic!("{other:?}"),
    }
    match rename_in_place(&a, "b.txt", |_: &UnixPath| true) {
        Err(FileOpError::DestExists(p)) => assert_eq!(p.display(), "/d/b.txt"),
        other => panic!("{other:?}"),
    }
    match rename_in_place(&path("/"), "b.txt", |_: &UnixPath| false) {
        Err(FileOpError::SourceGone(p)) => assert_eq!(p.display(), "/"),
        other => panic!("{other:?}"),
    }
}

#[test]
fn error_messages() {
    assert_eq!(
        FileOpError::DestExists(path("/d/x")).message(),
        "path exists at destination: /d/x"
    );
    assert_eq!(FileOpError::SourceGone(path("/d/x")).message(), "source path is gone: /d/x");
    assert_eq!(FileOpError::Io("broken".into()).message(), "io: broken");
    assert_eq!(FileOpError::Trash("full".into()).message(), "trash: full");
    assert_eq!(FileOpError::Walk("loop".into()).message(), "walkdir: loop");
}

#[test]
fn permission_bits_replace_the_low_ones() {
    assert_eq!(with_permission_bits(0o100644, 0o755), 0o100755);
    assert_eq!(with_permission_bits(0o100644, 0o177755), 0o107755);
    assert_eq!(with_permission_bits(0, 0), 0);
}

#[test]
fn deep_count_adds_up() {
    let mut s = DeepCountStats::default();
    for v in [
        Visited::Root,
        Visited::Directory,
        Visited::File(Some(10)),
        Visited::File(None),
        Visited::Other,
        Visited::Unreadable,
        Visited::File(Some(5)),
    ] {
        s.visit(v);
    }
    assert_eq!((s.files, s.folders, s.bytes), (3, 1, 15));
}

#[test]
fn deep_count_stops_when_cancelled() {
    let walk = vec![
        Visited::Root,
        Visited::File(Some(10)),
        Visited::Unreadable,
        Visited::Directory,
        Visited::File(Some(5)),
    ];
    let stats = |files: u64, folders: u64, bytes: u64| DeepCountStats { files, folders, bytes };
    let ago = vec![500, 120, 500, 119, 500];
    assert_eq!(
        deep_count(&walk, &vec![false; 5], &ago),
        (stats(2, 1, 15), vec![stats(1, 0, 10), stats(2, 1, 15)])
    );
    let late = vec![false, false, false, true, false];
    assert_eq!(deep_count(&walk, &late, &ago), (stats(1, 0, 10), vec![stats(1, 0, 10)]));
    assert_eq!(deep_count(&walk, &vec![true; 5], &ago), (stats(0, 0, 0), vec![]));
    let mut s = stats(1, 2, 3);
    assert_eq!(s.step(Visited::Directory, true, 500), CountStep::Stop);
    assert_eq!(s, stats(1, 2, 3));
    assert_eq!(s.step(Visited::Directory, false, 0), CountStep::Next);
    assert_eq!(s, stats(1, 3, 3));
}

#[test]
fn deep_count_stays_out_of_kernel_trees() {
    assert!(prune_child(&path("/"), b"proc"));
    assert!(prune_child(&path("/"), b"sys"));
    assert!(!prune_child(&path("/"), b"home"));
    assert!(!prune_child(&path("/home"), b"proc"));
}

#[test]
fn temporary_file_lies_beside_the_file() {
    let tmp = temp_path(&path("/home/x/cfg.toml"), 77).unwrap();
    assert_eq!(tmp.display(), "/home/x/.cfg.toml.tmp.77");
    assert_eq!(tmp.parent(), path("/home/x/cfg.toml").parent());
    assert_ne!(tmp.file_name(), path("/home/x/cfg.toml").file_name());
    assert_eq!(temp_path(&path("/"), 1).unwrap_err(), AtomicError::NoParent);
    assert_eq!(temp_path(&path("a/.."), 1).unwrap_err(), AtomicError::NoFileName);
    assert_eq!(AtomicError::NoParent.message(), "config path has no parent");
    assert_eq!(AtomicError::NoFileName.message(), "config path has no file name");
}

#[test]
fn write_atomic_replaces_contents() {
    let target = path("/d/cfg.toml");
    let mut files: std::collections::BTreeMap<Vec<u8>, Vec<u8>> = Default::default();
    let mut write = |contents: &[u8], files: &mut std::collections::BTreeMap<Vec<u8>, Vec<u8>>| {
        let tmp = temp_path(&target, 42).unwrap();
        let mut step = AtomicStep::WriteTemp;
        while step != AtomicStep::Done && step != AtomicStep::Failed {
            match step {
                AtomicStep::WriteTemp => {
                    files.insert(tmp.bytes.clone(), contents.to_vec());
                }
                AtomicStep::Rename => {
                    let c = files.remove(&tmp.bytes).unwrap();
                    files.insert(target.bytes.clone(), c);
                }
                _ => unreachable!(),
            }
            step = next_step(step, true);
        }
        assert_eq!(step, AtomicStep::Done);
    };
    write(b"first", &mut files);
    assert_eq!(files[&target.bytes], b"first");
    write(b"second", &mut files);
    assert_eq!(files[&target.bytes], b"second");
    assert!(
        !files.keys().any(|k| String::from_utf8_lossy(k).contains(".tmp.")),
        "temp file was not cleaned up"
    );
}

#[test]
fn failed_write_leaves_the_file() {
    assert_eq!(next_step(AtomicStep::WriteTemp, false), AtomicStep::Failed);
    assert_eq!(next_step(AtomicStep::Rename, false), AtomicStep::RemoveTemp);
    assert_eq!(next_step(AtomicStep::RemoveTemp, true), AtomicStep::Failed);
}

#[test]
fn numbers_as_text() {
    for n in [0u64, 7, 10, 1234567890, u64::MAX] {
        assert_eq!(decimal_text(n), n.to_string());
        assert_eq!(parse_text(&n.to_string(), u64::MAX), Some(n));
        assert_eq!(padded_decimal_text(n, 5), format!("{n:05}"));
    }
    assert_eq!(hex_text(&[0x00, 0x0f, 0xa5, 0xff]), "000fa5ff");
    assert_eq!(hex_u16_text(0x2e), "002e");
    for s in ["", "+", "-1", "1 ", "0x1", "18446744073709551616", "١"] {
        assert_eq!(parse_text(s, u64::MAX), s.parse::<u64>().ok(), "{s}");
    }
    assert_eq!(parse_text("+12", u64::MAX), "+12".parse::<u64>().ok());
    assert_eq!(parse_text("256", 255), None);
    assert_eq!(parse_text("255", 255), Some(255));
}

#[test]
fn paths_agree_with_std() {
    let samples = [
        "", "/", "//", ".", "..", "./a", "a/.", "a/..", "/a/b", "/a//b/", "a/b/c.tar.gz", "/a/./b",
        ".hidden", "x.", "/.", "/..", "a/./", "./", "../x", "/a/b/.rc", "é/ü.png", "a.b.c",
    ];
    for s in samples {
        let std = std::path::Path::new(s);
        let own = path(s);
        let text = |b: Option<Vec<u8>>| b.map(|b| String::from_utf8(b).unwrap());
        assert_eq!(text(own.file_name()).as_deref(), std.file_name().and_then(|n| n.to_str()), "{s}");
        assert_eq!(text(own.extension()).as_deref(), std.extension().and_then(|n| n.to_str()), "{s}");
        assert_eq!(text(own.file_stem()).as_deref(), std.file_stem().and_then(|n| n.to_str()), "{s}");
        assert_eq!(
            text(own.parent().map(|p| p.bytes)).as_deref(),
            std.parent().and_then(|p| p.to_str()),
            "{s}"
        );
        assert_eq!(own.is_absolute(), std.is_absolute(), "{s}");
        let comps: Vec<Vec<u8>> =
            std.components().map(|c| c.as_os_str().to_str().unwrap().as_bytes().to_vec()).collect();
        assert_eq!(own.components(), comps, "{s}");
        for t in samples {
            let std_t = std::path::Path::new(t);
            assert_eq!(own == path(t), std == std_t, "{s} {t}");
            assert_eq!(own.starts_with(&path(t)), std.starts_with(std_t), "{s} {t}");
            assert_eq!(
                own.join(t).to_text().unwrap(),
                std.join(t).to_str().unwrap(),
                "{s} {t}"
            );
        }
    }
    assert_eq!(UnixPath::from_bytes(b"a\xffb").display(), "a\u{fffd}b");
    assert_eq!(UnixPath::from_bytes(b"a\xffb").to_text(), None);
    assert_eq!(path("a/b").to_text(), Some("a/b".to_string()));
}
