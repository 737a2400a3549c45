//! Working with other programs: default applications, archives, mounts,
//! terminals.
use mykrut::archive::{
    collect_selected_archives, destination_for, extract_args, extract_via_7z, is_archive_entry,
    is_archive_mime, is_archive_path, strip_archive_extensions, ExtractError, ExtractRun,
    ExtractState, ExtractStep,
};
use mykrut::calendar::FileTime;
use mykrut::compress::{
    archive_args, archive_file_name, bytes_text, detect_7z_file, pack_u64, parse_percent,
    request_compress, spawn_error, start_compress, ArchiveEvent, ArchiveFormat, ArchivePhase,
    ArchiveRun,
};
use mykrut::desktop::{
    application_dirs_in, apps_for_mime, build_argv, current_lang_prefix, default_desktop_id,
    desktop_file_candidates, find_desktop_file, mimeapps_lists_in, parse_desktop_entry,
    parse_desktop_name, DesktopApp, DesktopFile,
};
use mykrut::mimeapps::{parse_mimeapps_default, upsert_default_app};
use mykrut::open_with::{
    add_custom, add_custom_apps, chosen, invalidate_cache, normalize_exec, picker_rows,
    run_command, AppNameCache, CustomApp,
};
use mykrut::remote::{
    display_authority, is_remote_uri, mount_args, parse_uri, resolve_mounted, MountResult,
    RemoteMount, RemoteStep,
};
use mykrut::spawn::{
    is_runnable_executable, launch_dir, resolve_target, root_args, sanitize_exe,
    terminal_candidates, DisplayEnv,
};
use mykrut::startup::{build_filter, initial_dir, start_dir};
use mykrut::state::AppState;
use mykrut::types::{FileEntry, FileType, Location, Permissions};
use mykrut::unix_path::UnixPath;

fn path(s: &str) -> UnixPath {
    UnixPath::new(s)
}

fn paths(v: &[&str]) -> Vec<UnixPath> {
    v.iter().map(|s| path(s)).collect()
}

fn shown(v: &[UnixPath]) -> Vec<String> {
    v.iter().map(|p| p.display()).collect()
}

fn chars(s: &str) -> Vec<char> {
    s.chars().collect()
}

fn entry(name: &str, file_type: FileType, mime: Option<&str>) -> FileEntry {
    FileEntry {
        path: path("/d").join(name),
        display_name: name.to_string(),
        file_type,
        mime: mime.map(|m| m.to_string()),
        size: 0,
        mtime: FileTime::epoch(),
        permissions: Permissions::default(),
        is_hidden: false,
        is_symlink: false,
    }
}

#[test]
fn detects_common_archives() {
    for n in [
        "foo.zip",
        "foo.7z",
        "FOO.7Z",
        "x.tar.gz",
        "x.TAR.GZ",
        "x.tgz",
        "deep/path/x.tar.bz2",
        "x.zst",
    ] {
        assert!(is_archive_path(&path(n)), "should be archive: {n}");
    }
    for n in ["foo.txt", "x.png", "noext", "x.tar.png"] {
        assert!(!is_archive_path(&path(n)), "should not: {n}");
    }
}

#[test]
fn strips_double_then_single_extensions() {
    assert_eq!(strip_archive_extensions("foo.tar.gz"), "foo");
    assert_eq!(strip_archive_extensions("Foo.TAR.GZ"), "Foo");
    assert_eq!(strip_archive_extensions("foo.tgz"), "foo");
    assert_eq!(strip_archive_extensions("foo.7z"), "foo");
    assert_eq!(strip_archive_extensions("nothing"), "nothing");
}

#[test]
fn archives_by_type() {
    assert!(is_archive_mime("application/zip"));
    assert!(!is_archive_mime("application/x-rar"));
    assert!(is_archive_entry(&entry("C", FileType::Regular, Some("application/zip"))));
    assert!(is_archive_entry(&entry("C.rar", FileType::Regular, None)));
    assert!(!is_archive_entry(&entry("C.zip", FileType::Directory, None)));
    let mut s = AppState::new(1, 2);
    s.entries = vec![
        entry("a.zip", FileType::Regular, None),
        entry("b", FileType::Regular, Some("application/gzip")),
        entry("c.txt", FileType::Regular, None),
        entry("d.zip", FileType::Regular, None),
    ];
    s.selected = [0, 1, 2].into_iter().collect();
    assert_eq!(shown(&collect_selected_archives(&s, false, &vec![])), ["/d/a.zip", "/d/b"]);
    s.search_hit_paths = paths(&["/x/b", "/x/c.7z", "/x/d.7z"]);
    assert_eq!(shown(&collect_selected_archives(&s, true, &vec![true, true, false])), ["/x/c.7z"]);
}

#[test]
fn extraction_goes_beside_the_archive() {
    let d = destination_for(&path("/a/x.tar.gz"), |p: &UnixPath| *p == UnixPath::new("/a/x"));
    assert_eq!(d.display(), "/a/x (1)");
    assert_eq!(destination_for(&path("/"), |_: &UnixPath| false).display(), "./extracted");
    assert_eq!(
        shown(&extract_args(&path("/a/x.zip"), &path("/a/x"), &Some("pw".into()))),
        ["x", "/a/x.zip", "-o/a/x", "-ppw", "-y"]
    );
    assert_eq!(extract_args(&path("/a"), &path("/b"), &None)[3].display(), "-p");
}

#[test]
fn extraction_results() {
    assert!(extract_via_7z(ExtractRun::Ended(true, vec![], vec![])).is_ok());
    let complaint = b"ERROR: Wrong Password?".to_vec();
    assert!(matches!(
        extract_via_7z(ExtractRun::Ended(false, vec![], complaint)),
        Err(ExtractError::WrongPassword)
    ));
    assert!(matches!(
        extract_via_7z(ExtractRun::Ended(false, b"Enter password".to_vec(), vec![])),
        Err(ExtractError::WrongPassword)
    ));
    assert!(matches!(extract_via_7z(ExtractRun::NotFound), Err(ExtractError::ToolMissing)));
    for (run, text) in [
        (ExtractRun::Ended(false, b"out".to_vec(), b"broken".to_vec()), "broken"),
        (ExtractRun::NotStarted("denied".into()), "spawn 7z: denied"),
        (ExtractRun::NoDestination("full".into()), "create dest: full"),
    ] {
        match extract_via_7z(run) {
            Err(ExtractError::Other(m)) => assert_eq!(m, text),
            other => panic!("{other:?}"),
        }
    }
}

#[test]
fn passwords_are_kept_for_the_batch() {
    let mut q = ExtractState::new();
    let first = q.start(paths(&["/a.zip", "/b.zip", "/c.zip"]));
    assert!(matches!(&first, ExtractStep::Run(p, None) if *p == path("/a.zip")));
    let ask = q.finished(None, Err(ExtractError::WrongPassword));
    assert!(matches!(&ask, ExtractStep::AskPassword(n, false) if n == "a.zip"));
    let again = q.run_current(Some("pw".into()));
    assert!(matches!(&again, ExtractStep::Run(p, Some(w)) if *p == path("/a.zip") && w == "pw"));
    let next = q.finished(Some("pw".into()), Ok(()));
    assert!(matches!(&next, ExtractStep::Run(p, Some(w)) if *p == path("/b.zip") && w == "pw"));
    // A failure does not stop the batch.
    let next = q.finished(Some("pw".into()), Err(ExtractError::Other("bad".into())));
    assert!(matches!(&next, ExtractStep::Run(p, Some(w)) if *p == path("/c.zip") && w == "pw"));
    assert!(matches!(q.finished(Some("pw".into()), Ok(())), ExtractStep::Refresh));
    // Another batch knows nothing of the password.
    assert!(matches!(q.start(paths(&["/z.zip"])), ExtractStep::Run(_, None)));
    assert!(matches!(q.finished(None, Err(ExtractError::ToolMissing)), ExtractStep::Idle));
    assert!(matches!(q.run_current(None), ExtractStep::Idle));
}

#[test]
fn wrong_password_is_asked_again() {
    let mut q = ExtractState::new();
    q.start(paths(&["/a.zip", "/b.zip"]));
    let ask = q.finished(Some("x".into()), Err(ExtractError::WrongPassword));
    assert!(matches!(ask, ExtractStep::AskPassword(_, true)));
    q.cancel();
    assert!(matches!(q.run_current(None), ExtractStep::Idle));
}

#[test]
fn compressing_begins_with_a_name() {
    assert!(request_compress(&vec![]).is_none());
    let (dir, name) = request_compress(&paths(&["/a/b.txt"])).unwrap();
    assert_eq!((dir.display(), name), ("/a".to_string(), "b".to_string()));
    let (_, name) = request_compress(&paths(&["/a/b.txt", "/a/c"])).unwrap();
    assert_eq!(name, "archive");
    let job = start_compress(&path("/a"), &paths(&["/a/b.txt", "/", "/a/c"]), "x", "".into()).unwrap();
    assert_eq!(shown(&job.names), ["b.txt", "c"]);
    assert_eq!(shown(&job.sources), ["/a/b.txt", "/a/c"]);
    assert_eq!(job.password, None);
    assert!(start_compress(&path("/a"), &paths(&["/a/b"]), "  ", "".into()).is_none());
    assert!(start_compress(&path("/a"), &vec![], "x", "".into()).is_none());
}

#[test]
fn compressing_calls_the_right_program() {
    let f = ArchiveFormat::from_code;
    assert_eq!(archive_file_name(" x ", f(0)), "x.zip");
    assert_eq!(archive_file_name("x", f(1)), "x.7z");
    assert_eq!(archive_file_name("x", f(2)), "x.tar.gz");
    assert_eq!(f(9), ArchiveFormat::Zip);
    let names = paths(&["a", "b"]);
    let out = path("/o");
    let args = |format, pw: Option<&str>| {
        shown(&archive_args(f(format), &out, &names, &pw.map(|p| p.to_string())))
    };
    assert_eq!(args(2, Some("p")), ["-czvf", "/o", "a", "b"]);
    assert_eq!(args(0, None), ["a", "-tzip", "-y", "-bsp1", "-bb1", "/o", "a", "b"]);
    assert_eq!(
        args(0, Some("p")),
        ["a", "-tzip", "-pp", "-mem=AES256", "-y", "-bsp1", "-bb1", "/o", "a", "b"]
    );
    assert_eq!(
        args(1, Some("p")),
        ["a", "-t7z", "-pp", "-mhe=on", "-y", "-bsp1", "-bb1", "/o", "a", "b"]
    );
    assert_eq!(spawn_error(f(2), true, "x"), "`tar` is not installed");
    assert_eq!(spawn_error(f(0), false, "x"), "spawn 7z: x");
}

#[test]
fn progress_lines_are_read() {
    assert_eq!(parse_percent(&chars(" 42% 7 + x")), Some(42));
    assert_eq!(parse_percent(&chars("% 7%")), Some(7));
    assert_eq!(parse_percent(&chars("no percent")), None);
    assert_eq!(parse_percent(&chars("250%")), Some(100));
    assert_eq!(detect_7z_file(&chars("+ dir/a b.txt")).as_deref(), Some("dir/a b.txt"));
    assert_eq!(detect_7z_file(&chars("Compressing  a.txt")).as_deref(), Some("a.txt"));
    assert_eq!(detect_7z_file(&chars("Compressing  ")), None);
    assert_eq!(detect_7z_file(&chars("- x")), None);
}

#[test]
fn output_is_read_in_pieces() {
    let text = "\r  0%\r 10% 1 + a.txt\n+ b.txt\n\n 55%\r";
    let mut whole = ArchiveRun::new(ArchiveFormat::Zip, 3, false);
    let all: Vec<String> = whole.read(text).iter().map(|u| format!("{u:?}")).collect();
    let mut pieces = ArchiveRun::new(ArchiveFormat::Zip, 3, false);
    let mut got: Vec<String> = Vec::new();
    for c in text.chars() {
        got.extend(pieces.read(&c.to_string()).iter().map(|u| format!("{u:?}")));
    }
    assert_eq!(all, got);
    assert_eq!(all.len(), 4);
    let mut tar = ArchiveRun::new(ArchiveFormat::TarGz, 4, false);
    let ups = tar.read("a\nb\n");
    assert_eq!(ups.len(), 2);
    assert_eq!((ups[1].current.as_str(), ups[1].files_done), ("b", Some(2)));
    assert_eq!((ups[1].fraction.part, ups[1].fraction.whole), (2, 4));
}

#[test]
fn archive_runs_end() {
    let mut r = ArchiveRun::new(ArchiveFormat::SevenZip, 1, false);
    assert_eq!(r.checked_step(ArchiveEvent::Data(b"+ x\n".to_vec()), false).unwrap().len(), 1);
    r.checked_step(ArchiveEvent::TimedOut, false).unwrap();
    r.checked_step(ArchiveEvent::EndOfOutput, false).unwrap();
    assert!(matches!(r.phase, ArchivePhase::Waiting));
    r.step(ArchiveEvent::Exited(false, "exit status: 2".into()), false);
    r.step(ArchiveEvent::Message("  ".into()), false);
    assert!(matches!(&r.phase, ArchivePhase::Failed(m) if m == "7z exited with exit status: 2"));
    let mut r = ArchiveRun::new(ArchiveFormat::TarGz, 1, false);
    r.step(ArchiveEvent::EndOfOutput, false);
    r.step(ArchiveEvent::Exited(true, "".into()), true);
    assert!(matches!(r.phase, ArchivePhase::Created));
    let mut r = ArchiveRun::new(ArchiveFormat::TarGz, 1, false);
    r.step(ArchiveEvent::EndOfOutput, false);
    r.step(ArchiveEvent::WaitFailed("gone".into()), false);
    assert!(matches!(&r.phase, ArchivePhase::Failed(m) if m == "wait tar: gone"));
    let mut r = ArchiveRun::new(ArchiveFormat::TarGz, 1, false);
    r.step(ArchiveEvent::TimedOut, true);
    assert!(matches!(r.phase, ArchivePhase::Cancelled(true)));
    assert!(matches!(
        ArchiveRun::new(ArchiveFormat::Zip, 1, true).phase,
        ArchivePhase::Cancelled(true)
    ));
}

#[test]
fn archive_run_refuses_what_it_cannot_count() {
    let mut r = ArchiveRun::new(ArchiveFormat::TarGz, 1, false);
    r.files_done = u64::MAX - 2;
    assert!(r.checked_step(ArchiveEvent::Data(b"a\nb\n".to_vec()), false).is_none());
    assert_eq!(r.files_done, u64::MAX - 2);
}

#[test]
fn sizes_travel_in_halves() {
    for v in [0u64, 1, u32::MAX as u64, 1 << 32, u64::MAX, 0x1234_5678_9abc_def0] {
        let (lo, hi) = pack_u64(v);
        assert_eq!((lo, hi), (v as i32, (v >> 32) as i32));
        assert_eq!((lo as u32 as u64) | ((hi as u32 as u64) << 32), v);
    }
    assert_eq!(bytes_text(1024, 2048, "of"), "1.00 KB of 2.00 KB");
    assert_eq!(bytes_text(1024, 0, "of"), "");
}

#[test]
fn parses_default_applications_section() {
    let raw = "\
[Added Associations]\n\
foo=bar.desktop\n\
[Default Applications]\n\
text/plain=gedit.desktop;\n\
image/jpeg=eog.desktop;feh.desktop;\n\
";
    assert_eq!(parse_mimeapps_default(raw, "text/plain").as_deref(), Some("gedit.desktop"));
    assert_eq!(parse_mimeapps_default(raw, "image/jpeg").as_deref(), Some("eog.desktop"));
    assert_eq!(parse_mimeapps_default(raw, "foo"), None);
}

#[test]
fn parse_desktop_name_picks_plain_when_no_locale_match() {
    let text = "[Desktop Entry]\nName=Vim\nName[fr]=Vim FR\nExec=vim %F\n";
    let lang = current_lang_prefix(&Some("de_DE.UTF-8".into()));
    assert_eq!(parse_desktop_name(text, &lang).as_deref(), Some("Vim"));
}

#[test]
fn desktop_names_follow_the_language() {
    let text = "[Desktop Entry]\nName=Vim\nName[fr]=Vim FR\n[Other]\nName=No\n";
    let lang = current_lang_prefix(&Some("fr_FR.UTF-8".into()));
    assert_eq!(lang.as_deref(), Some("fr"));
    assert_eq!(parse_desktop_name(text, &lang).as_deref(), Some("Vim FR"));
    assert_eq!(current_lang_prefix(&Some("C.UTF-8".into())).as_deref(), Some("C"));
    assert_eq!(current_lang_prefix(&Some("_PL".into())), None);
    assert_eq!(current_lang_prefix(&None), None);
    assert_eq!(parse_desktop_name("[Other]\nName=No\n", &None), None);
}

#[test]
fn upsert_replaces_existing_default() {
    let raw = "[Default Applications]\ntext/plain=old.desktop\nimage/png=eog.desktop\n";
    let out = upsert_default_app(raw, "text/plain", "new.desktop");
    assert!(out.contains("text/plain=new.desktop"));
    assert!(out.contains("image/png=eog.desktop"), "other entries preserved");
    assert!(!out.contains("old.desktop"));
}

#[test]
fn upsert_adds_section_when_missing() {
    let raw = "[Added Associations]\nfoo=bar.desktop\n";
    let out = upsert_default_app(raw, "text/plain", "gedit.desktop");
    assert!(out.contains("[Added Associations]"), "existing section kept");
    assert!(out.contains("[Default Applications]"));
    assert!(out.contains("text/plain=gedit.desktop"));
}

#[test]
fn upsert_appends_within_existing_section() {
    let raw = "[Default Applications]\ntext/plain=gedit.desktop\n[Removed Associations]\nx=y.desktop\n";
    let out = upsert_default_app(raw, "image/png", "eog.desktop");
    let dflt = out.find("[Default Applications]").unwrap();
    let removed = out.find("[Removed Associations]").unwrap();
    let png = out.find("image/png=eog.desktop").unwrap();
    assert!(dflt < png && png < removed, "new entry lands inside the right section");
}

#[test]
fn new_default_is_read_back() {
    for raw in ["", "[Default Applications]\n", "[A]\nb=c", "[Default Applications]\na/b=x;y\n[Z]\n"] {
        let out = upsert_default_app(raw, "a/b", "n.desktop");
        assert_eq!(parse_mimeapps_default(&out, "a/b").as_deref(), Some("n.desktop"), "{raw}");
    }
    let raw = "[Default Applications]\nc/d=k.desktop\n";
    let out = upsert_default_app(raw, "a/b", "n.desktop");
    assert_eq!(parse_mimeapps_default(&out, "c/d").as_deref(), Some("k.desktop"));
}

#[test]
fn build_argv_expands_field_codes() {
    let p = paths(&["/a/b.txt", "/c d.png"]);
    assert_eq!(build_argv("gimp %U", &p), vec!["gimp", "/a/b.txt", "/c d.png"]);
    assert_eq!(build_argv("xterm %f", &p), vec!["xterm", "/a/b.txt"]);
    assert_eq!(build_argv("app -n %i %F", &p), vec!["app", "-n", "/a/b.txt", "/c d.png"]);
}

fn app(id: &str, name: &str, recommended: bool) -> DesktopApp {
    DesktopApp { id: id.into(), name: name.into(), exec_line: format!("{id} %f"), recommended }
}

#[test]
fn applications_for_a_type() {
    let file = |p: &str, t: &str| DesktopFile { path: path(p), text: Some(t.to_string()) };
    let files = vec![
        file("/a/z.desktop", "[Desktop Entry]\nType=Application\nName=zed\nExec=z %f\nMimeType=text/plain;\n"),
        file("/a/b.desktop", "[Desktop Entry]\nType=Application\nName=Bee\nExec=b %f\n"),
        file("/a/c.desktop", "[Desktop Entry]\nType=Application\nName=Cee\nExec=c %f\nMimeType=x/y;text/plain\n"),
        file("/a/h.desktop", "[Desktop Entry]\nType=Application\nName=Hid\nExec=h\nNoDisplay=true\n"),
        file("/b/z.desktop", "[Desktop Entry]\nType=Application\nName=Shadowed\nExec=z2\n"),
        DesktopFile { path: path("/a/u.desktop"), text: None },
    ];
    let apps = apps_for_mime(&files, &Some("text/plain".into()), &None);
    let got: Vec<(&str, bool)> = apps.iter().map(|a| (a.name.as_str(), a.recommended)).collect();
    assert_eq!(got, [("Cee", true), ("zed", true), ("Bee", false)]);
    assert_eq!(apps[0].id, "c.desktop");
    assert_eq!(apps[0].exec_line, "c %f");
    let entry = parse_desktop_entry(files[2].text.as_ref().unwrap(), &None).unwrap();
    assert_eq!(entry.mime_types, ["x/y", "text/plain"]);
}

#[test]
fn application_places() {
    let dirs = application_dirs_in(&Some(path("/h/.local/share")), &Some("/x:/y".into()));
    assert_eq!(
        shown(&dirs),
        [
            "/h/.local/share/applications",
            "/x/applications",
            "/y/applications",
            "/usr/local/share/applications",
            "/usr/share/applications"
        ]
    );
    assert!(shown(&application_dirs_in(&None, &None)).contains(&"/usr/share/applications".to_string()));
    assert_eq!(
        shown(&desktop_file_candidates(&paths(&["/x", "/y"]), "a.desktop")),
        ["/x/a.desktop", "/y/a.desktop"]
    );
    let found = find_desktop_file(&paths(&["/x", "/y"]), "a.desktop", |p: &UnixPath| {
        *p == UnixPath::new("/y/a.desktop")
    });
    assert_eq!(found, Some(path("/y/a.desktop")));
    assert_eq!(find_desktop_file(&paths(&["/x"]), "a.desktop", |_: &UnixPath| false), None);
    assert!(!mimeapps_lists_in(&Some(path("/c")), &Some(path("/d"))).is_empty());
    let texts = vec![
        None,
        Some("[Default Applications]\n".to_string()),
        Some("[Default Applications]\na/b=x.desktop\n".to_string()),
    ];
    assert_eq!(default_desktop_id(&texts, "a/b").as_deref(), Some("x.desktop"));
    assert_eq!(default_desktop_id(&texts, "c/d"), None);
}

#[test]
fn names_of_defaults_are_remembered() {
    let mut c = AppNameCache::new();
    assert_eq!(c.get("a/b"), None);
    c.insert("a/b".into(), None);
    c.insert("c/d".into(), Some("Vim".into()));
    assert_eq!(c.get("a/b"), Some(None));
    assert_eq!(c.get("c/d"), Some(Some("Vim".into())));
    invalidate_cache(&mut c);
    assert_eq!(c.get("c/d"), None);
}

#[test]
fn picking_an_application() {
    let apps = vec![app("b.desktop", "B", false)];
    let custom = vec![
        CustomApp { name: "one".into(), exec_line: "one %U".into() },
        CustomApp { name: "two".into(), exec_line: "two %U".into() },
    ];
    let apps = add_custom_apps(apps, &custom);
    let ids: Vec<&str> = apps.iter().map(|a| a.id.as_str()).collect();
    assert_eq!(ids, ["custom:two %U", "custom:one %U", "b.desktop"]);
    let rows = picker_rows(&apps, &Some("b.desktop".into()));
    assert!(rows[2].is_default && !rows[0].is_default && rows[0].recommended);
    let mime = Some("a/b".to_string());
    assert_eq!(chosen(&apps, &mime, "b.desktop", true), Some(("b.desktop %f".into(), true)));
    assert_eq!(chosen(&apps, &None, "b.desktop", true), Some(("b.desktop %f".into(), false)));
    assert_eq!(chosen(&apps, &mime, "custom:two %U", true), Some(("two %U".into(), false)));
    assert_eq!(chosen(&apps, &mime, "nope", true), None);
    assert_eq!(normalize_exec(" gimp "), "gimp %U");
    assert_eq!(normalize_exec("gimp %f"), "gimp %f");
    assert_eq!(run_command(" gimp ", &paths(&["/a"])).as_deref(), Some("gimp %U"));
    assert_eq!(run_command("  ", &paths(&["/a"])), None);
    assert_eq!(run_command("gimp", &vec![]), None);
    let mut store = custom;
    assert!(!add_custom(&mut store, CustomApp { name: "x".into(), exec_line: "one %U".into() }));
    assert!(add_custom(&mut store, CustomApp { name: "x".into(), exec_line: "x %U".into() }));
    assert_eq!(store.len(), 3);
}

#[test]
fn detects_remote_schemes() {
    assert!(is_remote_uri("ssh://192.168.0.1"));
    assert!(is_remote_uri("smb://nas/share"));
    assert!(is_remote_uri("sftp://user@host/dir"));
    assert!(!is_remote_uri("/home/user"));
    assert!(!is_remote_uri("trash:///"));
}

#[test]
fn parses_sftp() {
    let p = parse_uri("ssh://rafal@192.168.0.5/home/rafal/docs").unwrap();
    assert_eq!(p.scheme, "ssh");
    assert_eq!(p.host, "192.168.0.5");
    assert!(p.share.is_none());
    assert_eq!(p.subpath.as_deref(), Some("home/rafal/docs"));
}

#[test]
fn parses_smb_with_share() {
    let p = parse_uri("smb://nas/public/movies").unwrap();
    assert_eq!(p.scheme, "smb");
    assert_eq!(p.host, "nas");
    assert_eq!(p.share.as_deref(), Some("public"));
    assert_eq!(p.subpath.as_deref(), Some("movies"));
}

#[test]
fn parses_host_only() {
    let p = parse_uri("smb://server").unwrap();
    assert_eq!(p.host, "server");
    assert!(p.share.is_none());
    assert!(p.subpath.is_none());
}

#[test]
fn addresses_at_the_edges() {
    assert!(parse_uri("no scheme").is_none());
    assert!(parse_uri("smb:///x").is_none());
    let p = parse_uri(" SMB://a:b@c@Host:445/ ").unwrap();
    assert_eq!((p.scheme.as_str(), p.host.as_str()), ("smb", "Host"));
    assert_eq!((p.share, p.subpath), (None, None));
    assert_eq!(display_authority("smb://nas/public/x"), "public on nas");
    assert_eq!(display_authority("ssh://nas/public"), "nas");
    assert_eq!(display_authority("odd"), "odd");
}

#[test]
fn mounts_are_found() {
    let root = path("/run/user/1/gvfs");
    let names: Vec<Vec<u8>> = vec![
        b"sftp:host=other".to_vec(),
        b"smb-share:server=nas,share=private".to_vec(),
        b"smb-share:server=NAS,share=Public".to_vec(),
    ];
    let u = parse_uri("smb://Nas/public/movies").unwrap();
    assert_eq!(
        resolve_mounted(&u, &root, &names).unwrap().display(),
        "/run/user/1/gvfs/smb-share:server=NAS,share=Public/movies"
    );
    let u = parse_uri("ssh://other").unwrap();
    assert_eq!(resolve_mounted(&u, &root, &names).unwrap().display(), "/run/user/1/gvfs/sftp:host=other");
    let u = parse_uri("ssh://third").unwrap();
    assert!(resolve_mounted(&u, &root, &names).is_none());
    assert_eq!(mount_args("smb://x", &None), ["mount", "-a", "smb://x"]);
    assert_eq!(mount_args("smb://x", &Some("p".into())), ["mount", "smb://x"]);
}

#[test]
fn mounting_asks_for_a_password_once_refused() {
    let mut m = RemoteMount::new();
    assert!(matches!(m.open(" smb://x ", Some(path("/m"))), RemoteStep::Navigate(p) if p == path("/m")));
    assert!(matches!(m.open(" smb://x ", None), RemoteStep::Mount(u, None) if u == "smb://x"));
    let ask = m.finished("smb://x", true, MountResult::Refused);
    assert!(matches!(&ask, RemoteStep::AskPassword(h, false) if h == "x"), "{ask:?}");
    assert!(matches!(m.confirmed("pw".into()), RemoteStep::Mount(u, Some(p)) if u == "smb://x" && p == "pw"));
    let ask = m.finished("smb://x", false, MountResult::Refused);
    assert!(matches!(ask, RemoteStep::AskPassword(_, true)));
    let done = m.finished("smb://x", false, MountResult::Mounted(Some(path("/m"))));
    assert!(matches!(done, RemoteStep::Navigate(_)));
    m.cancelled();
    assert!(matches!(m.confirmed("pw".into()), RemoteStep::Idle));
}

#[test]
fn terminals_are_tried_in_order() {
    let own = terminal_candidates(&Some("myterm".into()));
    assert_eq!(own.len(), 13);
    assert_eq!((own[0].as_str(), own[1].as_str(), own[12].as_str()), ("myterm", "x-terminal-emulator", "xterm"));
    assert_eq!(terminal_candidates(&Some("  ".into())).len(), 12);
    assert_eq!(terminal_candidates(&None)[0], "x-terminal-emulator");
}

#[test]
fn place_to_open() {
    let mut s = AppState::new(1, 2);
    assert_eq!(resolve_target(&s, ""), None);
    s.current = Some(Location::Local(path("/d")));
    assert_eq!(resolve_target(&s, ""), Some(path("/d")));
    assert_eq!(resolve_target(&s, "/x"), Some(path("/x")));
    s.entries = vec![entry("sub", FileType::Directory, None), entry("f", FileType::Regular, None)];
    s.selected = [0].into_iter().collect();
    assert_eq!(resolve_target(&s, ""), Some(path("/d/sub")));
    s.selected = [1].into_iter().collect();
    assert_eq!(resolve_target(&s, ""), Some(path("/d")));
    s.selected = [0, 1].into_iter().collect();
    assert_eq!(resolve_target(&s, ""), Some(path("/d")));
}

#[test]
fn relaunching_as_root() {
    assert_eq!(sanitize_exe(path("/usr/bin/fm (deleted)")), path("/usr/bin/fm"));
    assert_eq!(sanitize_exe(path("/usr/bin/fm")), path("/usr/bin/fm"));
    let env = DisplayEnv {
        display: ":0".into(),
        wayland: "w".into(),
        xauth: "".into(),
        xdg_runtime: "/run".into(),
    };
    let args: Vec<String> = root_args(&env, &path("/fm"), &path("/d"))
        .into_iter()
        .map(|a| String::from_utf8(a).unwrap())
        .collect();
    assert_eq!(
        args,
        ["env", "DISPLAY=:0", "WAYLAND_DISPLAY=w", "XAUTHORITY=", "XDG_RUNTIME_DIR=/run", "/fm", "/d"]
    );
}

#[test]
fn programs_are_run_and_data_is_opened() {
    let head = |b: &[u8]| Some(b.to_vec());
    assert!(is_runnable_executable(true, Some(0o100755), &head(b"\x7fELF")));
    assert!(is_runnable_executable(true, Some(0o100001), &head(b"#!/b")));
    assert!(is_runnable_executable(true, Some(0o100010), &head(b"#!")));
    assert!(!is_runnable_executable(true, Some(0o100644), &head(b"#!/b")));
    assert!(!is_runnable_executable(true, Some(0o100755), &head(b"PK\x03\x04")));
    assert!(!is_runnable_executable(true, Some(0o100755), &head(b"\x7fEL")));
    assert!(!is_runnable_executable(false, Some(0o40755), &head(b"\x7fELF")));
    assert!(!is_runnable_executable(true, None, &head(b"\x7fELF")));
    assert!(!is_runnable_executable(true, Some(0o100755), &None));
    assert_eq!(launch_dir(&path("/a/b")), path("/a"));
    assert_eq!(launch_dir(&path("/")), path("/"));
}

#[test]
fn log_levels() {
    let p = build_filter(&None);
    assert_eq!(p.own, ["mykrut=debug", "mykrut_core=debug"]);
    assert!(p.explicit.is_empty());
    let p = build_filter(&Some(" info , nusb=debug,, trace ,a=b".into()));
    assert_eq!(p.own, ["mykrut=trace", "mykrut_core=trace"]);
    assert_eq!(p.explicit, ["nusb=debug", "a=b"]);
}

#[test]
fn start_directories() {
    assert_eq!(start_dir(Some(path("/x")), Some(path("/h"))), path("/x"));
    assert_eq!(start_dir(None, Some(path("/h"))), path("/h"));
    assert_eq!(start_dir(None, None), path("/"));
    assert_eq!(initial_dir(Some(path("/x"))), path("/x"));
    assert!(initial_dir(None).is_absolute());
}

#[test]
fn setting_a_default_twice() {
    for raw in [
        "",
        "[Added Associations]\na/b=x.desktop",
        "[Default Applications]\na/b=x.desktop\na/b=y.desktop\n",
        "[Default Applications]\r\nc/d=x.desktop\r\n[Other]\r\na/b=z.desktop\r\n",
        "# comment\n\n[Default Applications]\n\n",
        "[Default Applications]\na/b=x.desktop\r\r\n",
    ] {
        let once = upsert_default_app(raw, "a/b", "n.desktop");
        assert_eq!(upsert_default_app(&once, "a/b", "n.desktop"), once);
        assert_eq!(parse_mimeapps_default(&once, "a/b").as_deref(), Some("n.desktop"));
    }
    // A carriage return that is part of a line goes when the line is read again.
    let once = upsert_default_app("x\r\r\n", "a/b", "n.desktop");
    assert_ne!(upsert_default_app(&once, "a/b", "n.desktop"), once);
}
