//! What is shown of a file: sizes, times, types, icons, media and thumbnails.
use mykrut::calendar::{epoch_to_ymdhm, human_mtime, FileTime};
use mykrut::disk_space::{query, DiskSpace};
use mykrut::format_util::{human_size, kind_text};
use mykrut::icon_map::{icon_for_entry, icon_for_mime, icon_for_xdg_user_dir};
use mykrut::local_fs::{mime_for, needs_header, LocalFs, Stat};
use mykrut::media_meta::{
    classify, classify_with, fmt_duration, image_rows, media_info, probe, tag_rows, ImageFacts,
    MediaKind, TagFacts,
};
use mykrut::mime::{mime_from_header, mime_from_path};
use mykrut::properties::{
    aggregate_count, format_count_text, format_size_text, mode_octal, perm_bits,
    permissions_error, permissions_to_apply, snapshot_for, snapshot_for_many, unreadable_stat,
    ExtStat, TopLevel,
};
use mykrut::file_ops::DeepCountStats;
use mykrut::text::{is_white, to_ascii_lowercase, trim_text, words, lines};
use mykrut::thumbnails::{
    apply_film_strip, audio_thumbnail, cache_path_for, cache_path_in, cache_root, cache_root_in,
    checked_thumbnail, classify_as, cover_picture, cover_thumbnail, fail_path_in, file_uri,
    fits_shrinking, frame_grabber_args, generate_or_fail, image_cache_state, image_thumbnail,
    is_below_root, is_cache_fresh, is_in_thumbnail_cache, is_marked_failed, is_too_small, md5_hex,
    pdf_scale_quarters, thumb_job, too_small_path_in, CacheState, CoverError, Kind, ThumbJob,
    ThumbResult, ThumbSize,
};
use mykrut::trash_io::{
    empty_trash, is_below_trash, is_in_trash, original_path_for, restore, restore_by_original,
    sidecar_path, trash_files_dir, trash_files_in, trash_info_in, trash_root_in, url_decode,
    RestoreError, TrashItem,
};
use mykrut::types::{FileEntry, FileType, Permissions};
use mykrut::uid_map::{format_group, format_user, group_name, parse_passwd_like, user_name};
use mykrut::unix_path::UnixPath;
use mykrut::user_dirs::UserDirs;

fn path(s: &str) -> UnixPath {
    UnixPath::new(s)
}

fn at(secs: i64) -> FileTime {
    FileTime { secs, nanos: 0 }
}

fn no_facts() -> ImageFacts {
    ImageFacts { dimensions: None, exif: Vec::new() }
}

fn dirs_of(home: &str) -> UserDirs {
    UserDirs {
        home: Some(path(home)),
        desktop: Some(path(home).join("Desktop")),
        documents: None,
        downloads: Some(path(home).join("Downloads")),
        pictures: None,
        music: None,
        videos: None,
        templates: None,
        public: None,
    }
}

fn entry(name: &str, file_type: FileType, mime: Option<&str>) -> FileEntry {
    FileEntry {
        path: path("/d").join(name),
        display_name: name.to_string(),
        file_type,
        mime: mime.map(|m| m.to_string()),
        size: 0,
        mtime: FileTime::epoch(),
        permissions: Permissions::default(),
        is_hidden: false,
        is_symlink: false,
    }
}

#[test]
fn size_formats_round_correctly() {
    assert_eq!(human_size(0), "0 B");
    assert_eq!(human_size(1023), "1023 B");
    assert_eq!(human_size(1024), "1.00 KB");
    assert_eq!(human_size(1024 * 1024), "1.00 MB");
}

fn float_size(bytes: u64) -> String {
    let units = ["B", "KB", "MB", "GB", "TB", "PB"];
    if bytes < 1024 {
        return format!("{bytes} B");
    }
    let mut v = bytes as f64;
    let mut u = 0;
    while v >= 1024.0 && u + 1 < units.len() {
        v /= 1024.0;
        u += 1;
    }
    if v >= 100.0 {
        format!("{v:.0} {}", units[u])
    } else if v >= 10.0 {
        format!("{v:.1} {}", units[u])
    } else {
        format!("{v:.2} {}", units[u])
    }
}

#[test]
fn sizes_agree_with_floating_point() {
    let mut n: u64 = 1;
    for i in 0..40_000u64 {
        n = n.wrapping_mul(6364136223846793005).wrapping_add(1442695040888963407);
        let bytes = n >> (i % 60);
        assert_eq!(human_size(bytes), float_size(bytes), "{bytes}");
    }
    for k in 0..64u32 {
        for d in [-2i128, -1, 0, 1, 2] {
            let b = (1i128 << k) + d;
            if (0..=u64::MAX as i128).contains(&b) {
                assert_eq!(human_size(b as u64), float_size(b as u64), "{b}");
            }
        }
    }
    assert_eq!(human_size(u64::MAX), float_size(u64::MAX));
    assert_eq!(human_size(1029), float_size(1029));
}

#[test]
fn mtime_unix_epoch() {
    assert_eq!(human_mtime(FileTime::epoch()), "1970-01-01 00:00");
}

#[test]
fn dates_follow_the_calendar() {
    assert_eq!(human_mtime(at(951_782_400)), "2000-02-29 00:00");
    assert_eq!(human_mtime(at(4_107_542_399)), "2100-02-28 23:59");
    assert_eq!(human_mtime(at(4_107_542_400)), "2100-03-01 00:00");
    assert_eq!(human_mtime(at(1_700_000_000)), "2023-11-14 22:13");
    assert_eq!(human_mtime(at(-1)), "");
    assert_eq!(epoch_to_ymdhm(-1), (1969, 12, 31, 23, 59));
    assert_eq!(epoch_to_ymdhm(253_402_300_799), (9999, 12, 31, 23, 59));
}

#[test]
fn every_day_has_a_date_of_its_own() {
    let mut last = epoch_to_ymdhm(-86_400);
    for day in 0..150_000i64 {
        let d = epoch_to_ymdhm(day * 86_400);
        assert!((d.0, d.1, d.2) > (last.0, last.1, last.2), "{day}");
        last = d;
    }
}

#[test]
fn kinds_in_words() {
    assert_eq!(kind_text(&Some("text/plain".into()), true), "Folder");
    assert_eq!(kind_text(&Some("text/plain".into()), false), "text/plain");
    assert_eq!(kind_text(&None, false), "File");
}

#[test]
fn classify_uses_mime_then_extension() {
    assert_eq!(classify(&path("x.bin"), &Some("image/png".into())), MediaKind::Image);
    assert_eq!(classify(&path("song.mp3"), &None), MediaKind::Audio);
    assert_eq!(classify(&path("clip.mp4"), &None), MediaKind::Video);
    assert_eq!(classify(&path("notes.txt"), &None), MediaKind::NoMedia);
}

#[test]
fn classify_falls_back_to_the_guess() {
    let mime = |s: &str| Some(s.to_string());
    assert_eq!(classify_with(&mime("text/plain"), &mime("audio/ogg")), MediaKind::Audio);
    assert_eq!(classify_with(&mime("video/x"), &mime("audio/ogg")), MediaKind::Video);
    assert_eq!(classify_with(&None, &None), MediaKind::NoMedia);
    assert_eq!(MediaKind::Image.label(), "Image");
    assert_eq!(MediaKind::NoMedia.label(), "");
}

#[test]
fn duration_formats() {
    assert_eq!(fmt_duration(5), "0:05");
    assert_eq!(fmt_duration(125), "2:05");
    assert_eq!(fmt_duration(3725), "1:02:05");
}

#[test]
fn probe_text_file_is_none() {
    let info = probe(&path("/etc/hostname"), &Some("text/plain".into()), &no_facts(), &None);
    assert_eq!(info.kind, MediaKind::NoMedia);
    assert!(info.rows.is_empty());
}

fn pair(a: &str, b: &str) -> (String, String) {
    (a.to_string(), b.to_string())
}

#[test]
fn image_facts_become_rows() {
    let mut exif: Vec<Option<String>> = vec![None; 10];
    exif[0] = Some("\"Canon\"".into());
    exif[3] = Some("  ".into());
    exif[5] = Some("f/2.8".into());
    let facts = ImageFacts { dimensions: Some((640, 480)), exif };
    assert_eq!(
        image_rows(&facts),
        vec![
            pair("Dimensions", "640 × 480"),
            pair("Camera make", "Canon"),
            pair("Aperture", "f/2.8"),
        ]
    );
    assert_eq!(media_info(MediaKind::Image, &facts, &None).rows.len(), 3);
    assert!(media_info(MediaKind::Audio, &facts, &None).rows.is_empty());
}

#[test]
fn tags_become_rows() {
    let tags = TagFacts {
        length_secs: Some(65),
        bitrate: Some(320),
        sample_rate: Some(44_100),
        channels: Some(2),
        title: Some("  Song ".into()),
        artist: Some("".into()),
        album: None,
        genre: Some("Jazz".into()),
    };
    assert_eq!(
        tag_rows(&tags),
        vec![
            pair("Length", "1:05"),
            pair("Bitrate", "320 kbps"),
            pair("Sample rate", "44.1 kHz"),
            pair("Channels", "2"),
            pair("Title", "Song"),
            pair("Genre", "Jazz"),
        ]
    );
}

#[test]
fn sample_rates_agree_with_floating_point() {
    for sr in [8000u32, 11_025, 22_050, 44_056, 44_050, 44_150, 48_000, 96_000, 50, 150, 250, 49, u32::MAX] {
        let tags = TagFacts {
            length_secs: None,
            bitrate: None,
            sample_rate: Some(sr),
            channels: None,
            title: None,
            artist: None,
            album: None,
            genre: None,
        };
        assert_eq!(tag_rows(&tags)[0].1, format!("{:.1} kHz", f64::from(sr) / 1000.0), "{sr}");
    }
}

#[test]
fn mime_types_come_from_the_name_and_then_from_the_bytes() {
    assert_eq!(mime_from_path(&path("/a/x.PNG")).as_deref(), Some("image/png"));
    assert_eq!(mime_from_path(&path("/a/x")), None);
    assert_eq!(mime_from_header(b"PK\x03\x04rest").as_deref(), Some("application/zip"));
    assert_eq!(mime_from_header(b"plain"), None);
    let zip = Some(b"PK\x03\x04rest".to_vec());
    let file = Stat {
        is_dir: false,
        is_file: true,
        is_symlink: false,
        len: 0,
        modified: None,
        mode: 0,
    };
    let other = Stat { is_file: false, ..file };
    assert!(needs_header(&path("/a/C"), Some(file), None));
    assert!(needs_header(&path("/a/C"), None, Some(file)));
    assert!(!needs_header(&path("/a/C.txt"), Some(file), None));
    assert!(!needs_header(&path("/a/C"), Some(other), Some(file)));
    assert!(!needs_header(&path("/a/C"), None, None));
    assert_eq!(
        mime_for(&path("/a/C"), FileType::Regular, &zip).as_deref(),
        Some("application/zip")
    );
    assert_eq!(mime_for(&path("/a/C"), FileType::Special, &zip), None);
    assert_eq!(
        mime_for(&path("/a/C.txt"), FileType::Regular, &zip).as_deref(),
        Some("text/plain")
    );
    assert_eq!(
        mime_for(&path("/a/C.txt"), FileType::Directory, &zip).as_deref(),
        Some("inode/directory")
    );
}

#[test]
fn directory_entries_are_listed() {
    let stat = Stat {
        is_dir: false,
        is_file: true,
        is_symlink: false,
        len: 12,
        modified: Some(at(7)),
        mode: 0o100640,
    };
    let link = Stat { is_file: false, is_symlink: true, ..stat };
    let e = LocalFs::entry_from_dirent(path("/d/.x.txt"), b".x.txt", Some(stat), Some(link), &None)
        .unwrap();
    assert_eq!(e.name(), ".x.txt");
    assert!(e.is_hidden && e.is_symlink && !e.is_dir());
    assert_eq!(e.file_type, FileType::Regular);
    assert_eq!((e.size, e.mtime), (12, at(7)));
    assert_eq!(
        e.permissions,
        Permissions { mode: 0o100640, readable: true, writable: true, executable: false }
    );
    let dangling =
        LocalFs::entry_from_dirent(path("/d/l"), b"l", None, Some(link), &None).unwrap();
    assert_eq!(dangling.file_type, FileType::Symlink);
    let odd = Stat { is_file: false, modified: None, ..stat };
    let odd = LocalFs::entry_from_dirent(path("/d/s"), b"s", Some(odd), None, &None).unwrap();
    assert_eq!((odd.file_type, odd.mtime), (FileType::Special, FileTime::epoch()));
    assert!(LocalFs::entry_from_dirent(path("/d/s"), b"s", None, None, &None).is_none());
}

#[test]
fn icons_follow_the_type() {
    assert_eq!(icon_for_mime("image/png"), "image");
    assert_eq!(icon_for_mime("application/pdf"), "pdf");
    assert_eq!(icon_for_mime("text/x-rust"), "text");
    assert_eq!(icon_for_mime("application/x-xz"), "archive");
    assert_eq!(icon_for_mime("application/x-executable"), "executable");
    assert_eq!(icon_for_mime("inode/directory"), "folder");
    assert_eq!(icon_for_mime("x/y"), "file-generic");
    let dirs = dirs_of("/home/u");
    assert_eq!(icon_for_xdg_user_dir(&path("/home/u"), &dirs), Some("folder-home"));
    assert_eq!(icon_for_xdg_user_dir(&path("/home/u/Desktop/"), &dirs), Some("folder-desktop"));
    assert_eq!(icon_for_xdg_user_dir(&path("/home/u/Music"), &dirs), None);
    assert_eq!(icon_for_xdg_user_dir(&path("/no/such/place"), &dirs), None);
    assert_eq!(icon_for_xdg_user_dir(&path("/home/u/Desktop"), &UserDirs { home: None, ..dirs_of("/home/u") }), None);
    let mut d = entry("x", FileType::Directory, None);
    assert_eq!(icon_for_entry(&d, &dirs), "folder");
    d.path = path("/home/u/Downloads");
    assert_eq!(icon_for_entry(&d, &dirs), "folder-downloads");
    assert_eq!(icon_for_entry(&entry("x", FileType::Regular, Some("video/mp4")), &dirs), "video");
    assert_eq!(icon_for_entry(&entry("x", FileType::Regular, None), &dirs), "file-generic");
}

#[test]
fn disk_space_is_blocks_times_size() {
    assert_eq!(query(Some((4096, 10, 100))), Some(DiskSpace { free: 40_960, total: 409_600 }));
    assert_eq!(query(None), None);
}

#[test]
fn md5_is_stable() {
    assert_eq!(md5_hex("file:///abc"), md5_hex("file:///abc"));
    assert_ne!(md5_hex("file:///a"), md5_hex("file:///b"));
}

#[test]
fn md5_of_known_texts() {
    assert_eq!(md5_hex(""), "d41d8cd98f00b204e9800998ecf8427e");
    assert_eq!(md5_hex("abc"), "900150983cd24fb0d6963f7d28e17f72");
}

#[test]
fn cache_path_layout() {
    let p = cache_path_for("file:///x", ThumbSize::Normal).unwrap();
    assert_eq!(p.parent().unwrap().file_name().unwrap(), b"normal");
    assert!(String::from_utf8(p.file_name().unwrap()).unwrap().ends_with(".png"));
}

#[test]
fn cache_paths_in_a_root() {
    let root = path("/c/thumbnails");
    let sum = md5_hex("file:///x");
    assert_eq!(
        cache_path_in(&root, "file:///x", ThumbSize::XxLarge).display(),
        format!("/c/thumbnails/xx-large/{sum}.png")
    );
    assert_eq!(
        fail_path_in(&root, "file:///x", "mykrut").display(),
        format!("/c/thumbnails/fail/mykrut/{sum}.png")
    );
    assert!(too_small_path_in(&root, "file:///x", ThumbSize::Large)
        .display()
        .starts_with("/c/thumbnails/"));
    assert_eq!(ThumbSize::Normal.pixels(), 128);
    assert_eq!(ThumbSize::Large.pixels(), 256);
    assert_eq!(ThumbSize::XLarge.pixels(), 512);
    assert_eq!(ThumbSize::XxLarge.pixels(), 1024);
    assert_eq!(file_uri(&path("/a b")), "file:///a b");
}

#[test]
fn cache_files_are_detected() {
    if let Some(root) = cache_root() {
        let inside = root.join("x-large").join("deadbeef.png");
        assert!(is_in_thumbnail_cache(&inside, |_: &UnixPath| None));
    }
    assert!(!is_in_thumbnail_cache(&path("/tmp/some/photo.jpg"), |_: &UnixPath| None));
}

#[test]
fn resolved_paths_count_as_cached() {
    let root = path("/c/thumbnails");
    assert!(is_below_root(&path("/link/x.png"), &root, |p: &UnixPath| {
        if *p == UnixPath::new("/link/x.png") {
            Some(UnixPath::new("/c/thumbnails/normal/x.png"))
        } else {
            None
        }
    }));
    assert!(!is_below_root(&path("/link/x.png"), &root, |_: &UnixPath| None));
}

#[test]
fn generate_skips_files_already_in_cache() {
    let src = path("/c/thumbnails/x-large/fm-test-incache.png");
    match generate_or_fail(&src, true, None) {
        ThumbResult::Show(p) => assert_eq!(p, src),
        other => panic!("{other:?}"),
    }
}

#[test]
fn failed_thumbnails_are_marked() {
    assert!(matches!(generate_or_fail(&path("/a.png"), false, None), ThumbResult::MarkFailed));
    assert!(matches!(generate_or_fail(&path("/a.txt"), false, None), ThumbResult::Nothing));
    match generate_or_fail(&path("/a.png"), false, Some(path("/t.png"))) {
        ThumbResult::Show(p) => assert_eq!(p, path("/t.png")),
        other => panic!("{other:?}"),
    }
    assert_eq!(thumb_job(&path("/a.pdf"), false), ThumbJob::Generate(Kind::Pdf));
    assert_eq!(thumb_job(&path("/a.rmvb"), false), ThumbJob::Generate(Kind::Video));
    assert_eq!(thumb_job(&path("/a.flac"), false), ThumbJob::Generate(Kind::Audio));
    assert_eq!(thumb_job(&path("/a.zip"), false), ThumbJob::Nothing);
    assert_eq!(thumb_job(&path("/a.zip"), true), ThumbJob::ShowItself);
    assert_eq!(classify_as(&path("/a.WV"), &None), Kind::Audio);
}

#[test]
fn covers_of_sounds() {
    assert_eq!(cover_picture(&vec![None, Some(vec![7, 8]), Some(vec![9])]).unwrap(), [7, 8]);
    assert_eq!(cover_picture(&vec![None, None]).unwrap_err(), CoverError::NoPicture);
    assert_eq!(cover_picture(&vec![Some(vec![])]).unwrap_err(), CoverError::EmptyPicture);
    assert_eq!(CoverError::NoPicture.message(), "no embedded picture in audio file");
    assert_eq!(CoverError::EmptyPicture.message(), "embedded picture is empty");
}

#[test]
fn markers_are_fresh_from_the_time_of_the_source() {
    assert!(is_cache_fresh(Some(at(5)), at(5)));
    assert!(!is_cache_fresh(Some(at(4)), at(5)));
    assert!(!is_cache_fresh(None, at(5)));
    assert!(is_marked_failed(Some(at(6)), Some(at(5))));
    assert!(!is_marked_failed(Some(at(6)), None));
    assert!(!is_marked_failed(None, Some(at(5))));
}

#[test]
fn small_image_uses_original_and_marks_it() {
    assert!(is_too_small(20, 20, ThumbSize::Large), "too-small image should resolve to the original path");
    assert_eq!(
        image_cache_state(Some(at(9)), None, at(9)),
        CacheState::Original,
        "a marker should be recorded so the next call short-circuits"
    );
}

#[test]
fn generate_image_creates_thumbnail() {
    assert!(!is_too_small(300, 200, ThumbSize::Normal));
    assert_eq!(image_cache_state(None, None, at(9)), CacheState::Stale);
    assert_eq!(image_cache_state(None, Some(at(9)), at(9)), CacheState::Cached);
    assert_eq!(image_cache_state(Some(at(8)), Some(at(8)), at(9)), CacheState::Stale);
    let img = image::RgbaImage::from_pixel(300, 200, image::Rgba([200, 50, 50, 255]));
    let thumb = image_thumbnail(&image::DynamicImage::ImageRgba8(img), ThumbSize::Normal);
    assert!(thumb.width <= 128 && thumb.height <= 128);
    assert_eq!((thumb.width, thumb.height, thumb.rgba.len()), (128, 85, 4 * 128 * 85));
    assert!(thumb.rgba.chunks(4).all(|p| p == [200, 50, 50, 255]));
}

#[test]
fn thumbnails_keep_the_proportion() {
    let shrunk = |w: u32, h: u32, size: ThumbSize| {
        let img = image::DynamicImage::ImageLuma8(image::GrayImage::new(w, h));
        let p = checked_thumbnail(&img, size).unwrap();
        assert_eq!(p.rgba.len() as u32, 4 * p.width * p.height);
        (p.width, p.height)
    };
    assert_eq!(shrunk(200, 300, ThumbSize::Normal), (85, 128));
    assert_eq!(shrunk(5000, 3, ThumbSize::Large), (256, 1));
    assert_eq!(shrunk(20, 10, ThumbSize::XLarge), (512, 256));
    assert_eq!(shrunk(0, 0, ThumbSize::Normal), (1, 1));
    assert_eq!(shrunk(0, 7, ThumbSize::Normal), (1, 128));
}

#[test]
fn pictures_with_too_long_sums_are_not_shrunk() {
    let deep = image::DynamicImage::ImageLuma16(image::ImageBuffer::new(40_000, 300));
    assert!(!fits_shrinking(&deep, ThumbSize::Normal));
    assert!(checked_thumbnail(&deep, ThumbSize::Normal).is_none());
    assert_eq!(cover_thumbnail(Some(deep), ThumbSize::Normal).unwrap_err(), CoverError::TooLarge);
    let flat = image::DynamicImage::ImageLuma8(image::GrayImage::new(40_000, 300));
    assert!(fits_shrinking(&flat, ThumbSize::Normal));
}

#[test]
fn sounds_show_their_picture() {
    let mut png = std::io::Cursor::new(Vec::new());
    image::RgbImage::from_pixel(256, 64, image::Rgb([1, 2, 3]))
        .write_to(&mut png, image::ImageFormat::Png)
        .unwrap();
    let tags = vec![None, Some(png.into_inner())];
    let thumb = audio_thumbnail(&tags, ThumbSize::Normal).unwrap();
    assert_eq!((thumb.width, thumb.height), (128, 32));
    assert_eq!(&thumb.rgba[..4], [1, 2, 3, 255]);
    let fails = |tags: Vec<Option<Vec<u8>>>| audio_thumbnail(&tags, ThumbSize::Normal).unwrap_err();
    assert_eq!(fails(vec![None]), CoverError::NoPicture);
    assert_eq!(fails(vec![Some(vec![])]), CoverError::EmptyPicture);
    assert_eq!(fails(vec![Some(vec![1, 2, 3])]), CoverError::Undecodable);
    assert_eq!(cover_thumbnail(None, ThumbSize::Large).unwrap_err(), CoverError::Undecodable);
    assert_eq!(CoverError::Undecodable.message(), "embedded picture cannot be decoded");
    assert_eq!(CoverError::TooLarge.message(), "embedded picture is too large");
}

#[test]
fn pdf_pages_are_scaled() {
    let quarters: Vec<u32> =
        [ThumbSize::Normal, ThumbSize::Large, ThumbSize::XLarge, ThumbSize::XxLarge]
            .into_iter()
            .map(pdf_scale_quarters)
            .collect();
    assert_eq!(quarters, [1, 2, 4, 8]);
}

#[test]
fn frames_are_taken_at_the_right_size() {
    let args = frame_grabber_args(&path("/v.mp4"), &path("/t.png"), ThumbSize::Large);
    let shown: Vec<String> = args.iter().map(|a| a.display()).collect();
    assert_eq!(&shown[..6], ["-i", "/v.mp4", "-o", "/t.png", "-s", "256"]);
}

#[test]
fn film_strip_has_bars_and_holes() {
    let (w, h) = (110u32, 140u32);
    let mut px = vec![100u8; (w * h * 4) as usize];
    apply_film_strip(&mut px, w, h, 10);
    let at = |x: u32, y: u32| {
        let i = ((y * w + x) * 4) as usize;
        [px[i], px[i + 1], px[i + 2], px[i + 3]]
    };
    // The bars are a tenth of the width; holes are 6 wide and 10 high, 2 in.
    assert_eq!(at(0, 0), [0, 0, 0, 255]);
    assert_eq!(at(9, 0), [0, 0, 0, 255]);
    assert_eq!(at(10, 0), [100, 100, 100, 100]);
    assert_eq!(at(109, 0), [0, 0, 0, 255]);
    assert_eq!(at(2, 7), [230, 230, 230, 255]);
    assert_eq!(at(107, 7), [230, 230, 230, 255]);
    assert_eq!(at(1, 7), [0, 0, 0, 255]);
    let mut tiny = vec![9u8; 4 * 4 * 4];
    apply_film_strip(&mut tiny, 4, 4, 10);
    assert_eq!(tiny, vec![9u8; 64]);
}

#[test]
fn url_decode_basic() {
    assert_eq!(url_decode("hello%20world"), "hello world");
    assert_eq!(url_decode("plain"), "plain");
    assert_eq!(url_decode("/home/user/Documents%2Ffile.txt"), "/home/user/Documents/file.txt");
}

#[test]
fn url_decode_unknown_escape_left_intact() {
    assert_eq!(url_decode("a%XYb"), "a%XYb");
}

#[test]
fn url_decode_edges() {
    assert_eq!(url_decode("%41"), "A");
    assert_eq!(url_decode("%4"), "%4");
    assert_eq!(url_decode("%"), "%");
    assert_eq!(url_decode("%ff"), "\u{fffd}");
    assert_eq!(url_decode("%c3%A9"), "é");
    for s in ["", "a b", "100%", "é/ü"] {
        let escaped: String = s.bytes().map(|b| format!("%{b:02x}")).collect();
        assert_eq!(url_decode(&escaped), s);
    }
    // Whichever characters are escaped, in either case.
    let s = "50% of é, %41 + a b";
    for pick in ["%", "% ", "%,+41", "%é"] {
        let upper: String = s
            .chars()
            .map(|c| {
                if pick.contains(c) {
                    c.to_string().bytes().map(|b| format!("%{b:02X}")).collect()
                } else {
                    c.to_string()
                }
            })
            .collect();
        assert_eq!(url_decode(&upper), s);
    }
}

#[test]
fn places_below_the_user_directories() {
    let data = Some(path("/home/u/.local/share"));
    let shown = |p: Option<UnixPath>| p.map(|p| p.display());
    assert_eq!(shown(trash_root_in(&data)).as_deref(), Some("/home/u/.local/share/Trash"));
    assert_eq!(shown(trash_files_in(&data)).as_deref(), Some("/home/u/.local/share/Trash/files"));
    assert_eq!(shown(trash_info_in(&data)).as_deref(), Some("/home/u/.local/share/Trash/info"));
    assert_eq!(trash_root_in(&None), None);
    assert_eq!(trash_files_in(&None), None);
    assert_eq!(trash_info_in(&None), None);
    let cache = Some(path("/home/u/.cache"));
    assert_eq!(shown(cache_root_in(&cache)).as_deref(), Some("/home/u/.cache/thumbnails"));
    assert_eq!(cache_root_in(&None), None);
}

#[test]
fn trash_places() {
    let files = Some(path("/t/files"));
    assert!(is_below_trash(&path("/t/files/a/b"), &files));
    assert!(!is_below_trash(&path("/t/filesx"), &files));
    assert!(!is_below_trash(&path("/t/files/a"), &None));
    if let Some(dir) = trash_files_dir() {
        assert!(is_in_trash(&dir.join("x")));
    }
    assert!(!is_in_trash(&path("/nowhere")));
    assert_eq!(
        sidecar_path(&path("/t/info"), &path("/t/files/a.txt")).unwrap().display(),
        "/t/info/a.txt.trashinfo"
    );
    assert!(sidecar_path(&path("/t/info"), &path("/")).is_none());
}

#[test]
fn trashed_files_know_where_they_came_from() {
    let info = "[Trash Info]\nPath=/home/u/a%20b.txt\nDeletionDate=2024-01-01T00:00:00\n";
    assert_eq!(original_path_for(info).unwrap().display(), "/home/u/a b.txt");
    assert!(original_path_for("[Trash Info]\nPat=/x\n").is_none());
    let orig = path("/home/u/a.txt");
    assert!(restore(&orig, true, false).is_ok());
    match restore(&orig, false, true) {
        Err(e @ RestoreError::ParentGone(_)) => {
            assert_eq!(e.message(), "original parent gone: /home/u")
        }
        other => panic!("{other:?}"),
    }
    match restore(&orig, true, true) {
        Err(e @ RestoreError::DestinationExists(_)) => {
            assert_eq!(e.message(), "destination exists: /home/u/a.txt")
        }
        other => panic!("{other:?}"),
    }
}

#[test]
fn newest_trashed_file_is_restored() {
    let item = |p: &str, t: i64| TrashItem { original: path(p), time_deleted: t };
    let items = vec![item("/a", 5), item("/b", 9), item("/a", 8), item("/a", 8), item("/a", 2)];
    assert_eq!(restore_by_original(&items, &path("/a")), Some(3));
    assert_eq!(restore_by_original(&items, &path("/c")), None);
    assert_eq!(empty_trash(&vec![true, false, true]), 2);
}

#[test]
fn parses_passwd_format() {
    let text = "root:x:0:0:root:/root:/bin/bash\n\
                daemon:x:1:1:daemon:/usr/sbin:/usr/sbin/nologin\n\
                bogus_line_with_no_colons\n\
                user:x:1000:1000:Real Name,,,:/home/user:/bin/bash\n";
    let m = parse_passwd_like(text);
    assert_eq!(m.get(&0).map(String::as_str), Some("root"));
    assert_eq!(m.get(&1).map(String::as_str), Some("daemon"));
    assert_eq!(m.get(&1000).map(String::as_str), Some("user"));
    assert_eq!(m.len(), 3);
}

#[test]
fn format_user_falls_back_to_uid() {
    let m = parse_passwd_like("root:x:0:0:root:/root:/bin/bash\n");
    let s = format_user(&m, 999_999);
    assert_eq!(s, "999999");
}

#[test]
fn known_users_are_named() {
    let m = parse_passwd_like("root:x:0:0::/root:/bin/sh\nwheel:x:0:\nbad:x:zz\n");
    assert_eq!(format_user(&m, 0), "wheel (0)");
    assert_eq!(format_group(&m, 7), "7");
    assert_eq!(user_name(&m, 0).as_deref(), Some("wheel"));
    assert_eq!(group_name(&m, 1), None);
}

#[test]
fn properties_of_one_entry() {
    let mut e = entry("a.txt", FileType::Regular, Some("text/plain"));
    e.size = 2048;
    let stat =
        ExtStat { atime: at(0), ctime: at(60), owner: "u (1)".into(), group: "g".into(), mode: 0o100754 };
    let mut p = snapshot_for(&e, stat, "...");
    assert_eq!(p.size_text, "2.00 KB (2048 bytes)");
    assert_eq!((p.kind.as_str(), p.file_count_text.as_str()), ("text/plain", ""));
    assert_eq!((p.accessed.as_str(), p.created.as_str()), ("1970-01-01 00:00", "1970-01-01 00:01"));
    assert_eq!(p.mode_octal, "0754");
    assert!(p.perms.ox && p.perms.gr && !p.perms.gw && p.perms.gx && p.perms.tr && !p.perms.tx);
    assert!(p.can_edit_perms && !p.deep_scan_active);
    p.refresh_perms(0o104001);
    assert_eq!(p.mode_octal, "4001");
    assert!(p.perms.tx && !p.perms.or);
    let d = snapshot_for(&entry("d", FileType::Directory, None), unreadable_stat(), "...");
    assert_eq!((d.kind.as_str(), d.size_text.as_str(), d.file_count_text.as_str()), ("Folder", "...", "..."));
    assert!(d.deep_scan_active && d.mode_octal == "0000");
    let f = snapshot_for(&entry("f", FileType::Regular, None), unreadable_stat(), "...");
    assert_eq!(f.kind, "File");
}

#[test]
fn properties_of_several_entries() {
    let es = vec![
        entry("a", FileType::Regular, None),
        entry("d", FileType::Directory, None),
        entry("b", FileType::Regular, None),
    ];
    let mut p = snapshot_for_many(&es, "...");
    assert_eq!((p.name.as_str(), p.path.as_str()), ("3 items", "/d"));
    assert_eq!(p.kind, "1 folders, 2 files");
    assert_eq!((p.modified.as_str(), p.owner.as_str()), ("—", "—"));
    assert!(!p.can_edit_perms && p.deep_scan_active);
    let found = vec![
        TopLevel::Other(10),
        TopLevel::Directory(DeepCountStats { files: 4, folders: 2, bytes: 90 }),
        TopLevel::Unreadable,
    ];
    let total = aggregate_count(&found, &vec![false, false, false]);
    assert_eq!((total.files, total.folders, total.bytes), (5, 3, 100));
    let part = aggregate_count(&found, &vec![false, true, false]);
    assert_eq!((part.files, part.folders, part.bytes), (1, 0, 10));
    assert_eq!(aggregate_count(&found, &vec![true, true, true]), DeepCountStats::default());
    p.counted(total, true, false);
    assert!(p.deep_scan_active && p.size_text == "...");
    p.counted(total, false, true);
    assert!(p.deep_scan_active);
    p.counted(total, true, true);
    assert_eq!(p.size_text, "100 B (100 bytes)");
    assert_eq!(p.file_count_text, "5 files in 3 folders");
    assert!(!p.deep_scan_active);
    assert_eq!(format_size_text(1024), "1.00 KB (1024 bytes)");
    assert_eq!(format_count_text(1, 0), "1 files in 0 folders");
}

#[test]
fn permissions_are_applied_to_one_entry_alone() {
    assert_eq!(permissions_to_apply(&Some(path("/a")), 0o644), Some(0o644));
    assert_eq!(permissions_to_apply(&Some(path("/a")), -1), None);
    assert_eq!(permissions_to_apply(&None, 0o644), None);
    assert_eq!(permissions_error(&path("/a"), "denied"), "/a\n\ndenied");
    for m in [0u32, 0o777, 0o1234, 0o4755, 0o100644] {
        assert_eq!(mode_octal(m), format!("{:04o}", m & 0o7777));
        let p = perm_bits(m);
        let bits = [p.or, p.ow, p.ox, p.gr, p.gw, p.gx, p.tr, p.tw, p.tx];
        for (i, b) in bits.iter().enumerate() {
            assert_eq!(*b, m & (0o400 >> i) != 0, "{m:o} {i}");
        }
    }
}

#[test]
fn text_agrees_with_std() {
    for u in 0..0x3100u32 {
        if let Some(c) = char::from_u32(u) {
            assert_eq!(is_white(c), c.is_whitespace(), "{u:x}");
        }
    }
    for s in ["", "  a b ", "\u{3000}x\u{a0}", "\r\n", "one\ntwo\r\nthree\r", "a\n\nb\n", "ÄbC xyZ"] {
        let cs: Vec<char> = s.chars().collect();
        assert_eq!(trim_text(s), s.trim());
        assert_eq!(to_ascii_lowercase(s), s.to_ascii_lowercase());
        let got: Vec<String> = words(&cs).iter().map(|w| w.iter().collect()).collect();
        assert_eq!(got, s.split_whitespace().map(str::to_string).collect::<Vec<_>>());
        let got: Vec<String> = lines(&cs).iter().map(|w| w.iter().collect()).collect();
        assert_eq!(got, s.lines().map(str::to_string).collect::<Vec<_>>());
    }
}
