//! What is read from the system: files and their icons, users, the trash, the
//! settings and how the program is started.
use crate::bookmarks::config_below;
use crate::calendar::FileTime;
use crate::copy_progress::{MIN_GAP, ONE_SECOND};
use crate::file_actions::{chosen, BULK_OPEN_CONFIRM_AT};
use crate::file_ops::{valid_name, REPORT_EVERY_MS};
use crate::icon_map::{entry_icon, is_dir_path, mime_icon, user_dir_icon};
use crate::listing::MAX_SHOWN;
use crate::local_fs::{entry_mime, found_at, is_link, listed, Stat};
use crate::mime::{path_mime, sniffed_mime};
use crate::names::valid_name_is_plain;
use crate::num_text::{decimal, decimal_reads_back, is_decimal, lemma_decimal_digits};
use crate::picking::{exactly_those, lemma_picked, lemma_picked_none};
use crate::search::{BATCH, MAX_RESULTS};
use crate::settings::{
    applied, clamped, defaults, icon_style_code, settings_below, sort_key_code, sort_order_code,
    view_mode_code, IconStyle, PersistedSettings, Settings, ViewMode,
};
use crate::sort_select::{SortKey, SortOrder};
use crate::spawn::{known_terminals, starts_as_program, target};
use crate::startup::{explicit, log_parts, own_level, parts_upto};
use crate::state::AppState;
use crate::text::{lemma_first_of_unique, lines_of, split_at_char, trimmed};
use crate::text_laws::{split_parts_make_the_text, with_between};
use crate::thumb_queue::{MAX_APPLY_PER_TICK, TICK_BUDGET};
use crate::trash_io::{
    came_from, escapes_read_back, hex_digit, hex_value, in_trash, original_path, path_line,
    sidecar, successes, trash_below, trash_files_below, trash_info_below, writes_out, TrashItem,
};
use crate::types::{EntryView, FileType, Place};
use crate::ui_watchdog::{gap, STALL_THRESHOLD_MS};
use crate::uid_map::{labelled, name_of, names_in, passwd_entry};
use crate::unix_path::{components, extension, file_name, joined, joined_entry, lossy, UnixPath};
use crate::user_dirs::UserDirs;
use vstd::prelude::*;
use vstd::utf8::*;

verus! {

// ---------------------------------------------------------------------------
// Files
// ---------------------------------------------------------------------------

/// An entry of a folder is what was found of it: its name, its size, its time and
/// whether it is a link. It is hidden exactly where its name begins with a dot.
pub proof fn entries_are_what_was_found(
    path: Seq<u8>,
    name: Seq<u8>,
    found: Stat,
    link: bool,
    header: Option<Seq<u8>>,
)
    ensures
        ({
            let e = listed(path, name, found, link, header);
            &&& e.path == path
            &&& e.display_name == lossy(name)
            &&& e.size == found.len
            &&& e.is_symlink == link
            &&& e.permissions.mode == found.mode
            &&& found.modified matches Some(t) ==> e.mtime == t
            &&& found.modified is None ==> e.mtime == (FileTime { secs: 0, nanos: 0 })
            &&& e.is_hidden <==> lossy(name).len() > 0 && lossy(name)[0] == '.'
            &&& e.file_type is Directory <==> found.is_dir
            &&& e.file_type is Regular <==> found.is_file && !found.is_dir
            &&& e.file_type is Symlink <==> link && !found.is_file && !found.is_dir
        }),
{
}

/// Of a link what it leads to is shown, and the link itself where it leads to
/// nothing.
pub proof fn links_are_followed(followed: Option<Stat>, own: Option<Stat>)
    ensures
        followed is Some ==> found_at(followed, own) == followed,
        followed is None ==> found_at(followed, own) == own,
        is_link(own) <==> own is Some && own->0.is_symlink,
{
}

/// The type of a file goes by its name, and of a regular file without one by what
/// it begins with; a folder is a folder.
pub proof fn types_go_by_name_then_contents(p: Seq<u8>, header: Option<Seq<u8>>, b: Seq<u8>)
    ensures
        path_mime(p) is Some ==> entry_mime(p, FileType::Regular, header) == path_mime(p)
            && entry_mime(p, FileType::Symlink, header) == path_mime(p) && entry_mime(
            p,
            FileType::Special,
            header,
        ) == path_mime(p),
        path_mime(p) is None ==> entry_mime(p, FileType::Regular, Some(b)) == sniffed_mime(b)
            && entry_mime(p, FileType::Regular, None) is None && entry_mime(
            p,
            FileType::Symlink,
            header,
        ) is None && entry_mime(p, FileType::Special, header) is None,
        entry_mime(p, FileType::Directory, header) is Some,
        entry_mime(p, FileType::Directory, header) == entry_mime(
            p,
            FileType::Directory,
            None,
        ),
{
}

/// The type by the name of a file depends on its extension alone.
pub proof fn types_by_name_go_by_the_extension(p: Seq<u8>, q: Seq<u8>)
    requires
        extension(p) == extension(q),
    ensures
        path_mime(p) == path_mime(q),
        extension(p) is None ==> path_mime(p) is None,
{
}

/// The icon of a folder does not depend on its type, and that of a file on no
/// folder; a folder of the user has its own.
pub proof fn icons_go_by_kind(e: EntryView, other: Option<Seq<char>>, dirs: UserDirs, more: UserDirs)
    ensures
        e.file_type is Directory ==> entry_icon(e, dirs) == entry_icon(
            EntryView { mime: other, ..e },
            dirs,
        ),
        !(e.file_type is Directory) ==> entry_icon(e, dirs) == entry_icon(e, more),
        !(e.file_type is Directory) && e.mime is Some ==> entry_icon(e, dirs) == mime_icon(
            e.mime->0,
        ),
        e.file_type is Directory && user_dir_icon(e.path, dirs) is Some ==> entry_icon(e, dirs)
            == user_dir_icon(e.path, dirs)->0,
{
}

/// Everything of a medium has the icon of that medium.
pub proof fn media_have_their_icon(rest: Seq<char>)
    ensures
        mime_icon("image/"@ + rest) == "image"@,
        mime_icon("video/"@ + rest) == "video"@,
        mime_icon("audio/"@ + rest) == "audio"@,
        mime_icon("text/"@ + rest) == "text"@,
{
    reveal_strlit("image/");
    reveal_strlit("video/");
    reveal_strlit("audio/");
    reveal_strlit("text/");
    reveal_strlit("application/pdf");
    let i = "image/"@ + rest;
    let v = "video/"@ + rest;
    let a = "audio/"@ + rest;
    let t = "text/"@ + rest;
    assert("image/"@ =~= i.subrange(0, 6));
    assert("video/"@ =~= v.subrange(0, 6));
    assert("audio/"@ =~= a.subrange(0, 6));
    assert("text/"@ =~= t.subrange(0, 5));
    lemma_not_prefix("image/"@, v);
    lemma_not_prefix("image/"@, a);
    lemma_not_prefix("video/"@, a);
    lemma_not_prefix("image/"@, t);
    lemma_not_prefix("video/"@, t);
    lemma_not_prefix("audio/"@, t);
    assert("application/pdf"@[0] == 'a');
    assert(t[0] == 't');
}

proof fn lemma_not_prefix(p: Seq<char>, s: Seq<char>)
    requires
        p.len() > 0,
        s.len() > 0,
        p[0] != s[0],
    ensures
        !p.is_prefix_of(s),
{
    if p.is_prefix_of(s) {
        assert(p =~= s.subrange(0, p.len() as int));
        assert(p[0] == s.subrange(0, p.len() as int)[0]);
    }
}

/// Only a folder of the user has an icon of its own, and by its path alone.
pub proof fn only_folders_of_the_user_have_their_icon(p: Seq<u8>, q: Seq<u8>, dirs: UserDirs)
    requires
        components(p) == components(q),
    ensures
        user_dir_icon(p, dirs) == user_dir_icon(q, dirs),
        dirs.home is None ==> user_dir_icon(p, dirs) is None,
        dirs.home matches Some(h) && components(h@) == components(p) ==> user_dir_icon(p, dirs)
            is Some,
        user_dir_icon(p, dirs) is Some ==> ({
            let at = |d: Option<UnixPath>| d is Some && components(d->0@) == components(p);
            at(dirs.home) || at(dirs.desktop) || at(dirs.documents) || at(dirs.downloads) || at(
                dirs.pictures,
            ) || at(dirs.music) || at(dirs.videos) || at(dirs.templates) || at(dirs.public)
        }),
{
}

// ---------------------------------------------------------------------------
// Users
// ---------------------------------------------------------------------------

proof fn lemma_first_part(a: Seq<char>, rest: Seq<char>, c: char)
    requires
        !a.contains(c),
    ensures
        split_at_char(a + seq![c] + rest, c) == seq![a] + split_at_char(rest, c),
        split_at_char(a, c) == seq![a],
{
    let s = a + seq![c] + rest;
    let n = a.len() as int;
    assert(s[n] == c);
    assert forall|k: int| 0 <= k < n implies s[k] != c by {
        assert(s[k] == a[k]);
    }
    lemma_first_of_unique(s, c, n);
    assert(s.take(n) =~= a);
    assert(s.skip(n + 1) =~= rest);
    assert forall|k: int| 0 <= k < n implies a[k] != c by {}
    lemma_first_of_unique(a, c, n);
}

/// A line of the list of users is a name, something, the number and the rest, with
/// colons between.
pub proof fn users_are_listed_by_name_and_number(
    name: Seq<char>,
    word: Seq<char>,
    id: u32,
    rest: Seq<char>,
)
    requires
        !name.contains(':'),
        !word.contains(':'),
    ensures
        passwd_entry(
            name + seq![':'] + (word + seq![':'] + (decimal(id as nat) + seq![':'] + rest)),
        ) == Some((id, name)),
        passwd_entry(name + seq![':'] + (word + seq![':'] + decimal(id as nat))) == Some(
            (id, name),
        ),
        passwd_entry(name) is None,
        passwd_entry(name + seq![':'] + word) is None,
{
    let num = decimal(id as nat);
    lemma_decimal_digits(id as nat);
    assert(!num.contains(':')) by {
        assert forall|k: int| 0 <= k < num.len() implies num[k] != ':' by {
            assert(is_decimal(num[k]));
        }
    }
    decimal_reads_back(id as nat, u32::MAX as nat);
    let a = num + seq![':'] + rest;
    let b = word + seq![':'] + a;
    let c = word + seq![':'] + num;
    lemma_first_part(num, rest, ':');
    lemma_first_part(word, a, ':');
    lemma_first_part(name, b, ':');
    lemma_first_part(word, num, ':');
    lemma_first_part(name, c, ':');
    lemma_first_part(name, word, ':');
    let x = split_at_char(name + seq![':'] + b, ':');
    assert(x[0] == name);
    assert(x[2] == num);
    let y = split_at_char(name + seq![':'] + c, ':');
    assert(y[0] == name);
    assert(y[2] == num);
}

/// Each line names its number, the last one of a number counts, and lines that
/// name none change nothing.
pub proof fn the_last_name_of_a_number_counts(lines: Seq<Seq<char>>, line: Seq<char>, other: u32)
    ensures
        passwd_entry(line) matches Some((id, name)) ==> names_in(lines.push(line)).contains_key(id)
            && names_in(lines.push(line))[id] == name && (other != id ==> (names_in(
            lines.push(line),
        ).contains_key(other) <==> names_in(lines).contains_key(other)) && (names_in(
            lines,
        ).contains_key(other) ==> names_in(lines.push(line))[other] == names_in(lines)[other])),
        passwd_entry(line) is None ==> names_in(lines.push(line)) == names_in(lines),
        !names_in(Seq::empty()).contains_key(other),
{
    assert(lines.push(line).drop_last() =~= lines);
}

/// A user is shown with the name and the number, without a name by the number.
pub proof fn users_are_shown_with_their_number(name: Seq<char>, id: u32)
    ensures
        labelled(None, id) == decimal(id as nat),
        labelled(Some(name), id) == name + seq![' ', '('] + decimal(id as nat) + seq![')'],
{
    reveal_strlit(" (");
    reveal_strlit(")");
    assert(" ("@ =~= seq![' ', '(']);
    assert(")"@ =~= seq![')']);
}

// ---------------------------------------------------------------------------
// The trash
// ---------------------------------------------------------------------------

/// Digits in base sixteen are read back, large or small.
pub proof fn digits_are_read_back(v: int)
    requires
        0 <= v < 16,
    ensures
        hex_value(hex_digit(v)) == Some(v as u8),
        v >= 10 ==> hex_value((hex_digit(v) + 32) as u8) == Some(v as u8),
{
}

/// Where something was before it came into the trash stands in the first line that
/// begins so.
pub proof fn the_first_line_with_the_path_counts(lines: Seq<Seq<char>>, i: int, rest: Seq<char>)
    requires
        0 <= i < lines.len(),
        lines[i] == seq!['P', 'a', 't', 'h', '='] + rest,
        forall|k: int|
            0 <= k < i ==> !seq!['P', 'a', 't', 'h', '='].is_prefix_of(#[trigger] lines[k]),
    ensures
        path_line(lines) == Some(rest),
    decreases lines.len(),
{
    reveal_strlit("Path=");
    let p = "Path="@;
    assert(p =~= seq!['P', 'a', 't', 'h', '=']);
    if i == 0 {
        assert(p =~= lines[0].subrange(0, 5));
        assert(lines[0].skip(5) =~= rest);
    } else {
        let t = lines.skip(1);
        assert(t[i - 1] == lines[i]);
        assert forall|k: int| 0 <= k < i - 1 implies !seq!['P', 'a', 't', 'h', '='].is_prefix_of(
            #[trigger] t[k],
        ) by {
            assert(t[k] == lines[k + 1]);
        }
        assert(!p.is_prefix_of(lines[0]));
        the_first_line_with_the_path_counts(t, i - 1, rest);
    }
}

/// Without such a line it is not known.
pub proof fn without_the_path_it_is_not_known(lines: Seq<Seq<char>>)
    requires
        forall|k: int|
            0 <= k < lines.len() ==> !seq!['P', 'a', 't', 'h', '='].is_prefix_of(
                #[trigger] lines[k],
            ),
    ensures
        path_line(lines) is None,
    decreases lines.len(),
{
    reveal_strlit("Path=");
    assert("Path="@ =~= seq!['P', 'a', 't', 'h', '=']);
    if lines.len() > 0 {
        let t = lines.skip(1);
        assert forall|k: int| 0 <= k < t.len() implies !seq!['P', 'a', 't', 'h', '='].is_prefix_of(
            #[trigger] t[k],
        ) by {
            assert(t[k] == lines[k + 1]);
        }
        assert(!"Path="@.is_prefix_of(lines[0]));
        without_the_path_it_is_not_known(t);
    }
}

/// What lies in the trash is what is below the folder of its files, and that
/// folder.
pub proof fn what_is_below_the_files_is_in_the_trash(p: Seq<u8>, f: Seq<u8>, name: Seq<char>)
    requires
        valid_name(name),
    ensures
        in_trash(f, Some(f)),
        in_trash(p, Some(f)) ==> in_trash(joined(p, encode_utf8(name)), Some(f)),
        in_trash(p, Some(f)) ==> components(f).len() <= components(p).len() && components(p).take(
            components(f).len() as int,
        ) == components(f),
        !in_trash(p, None),
{
    valid_name_is_plain(name);
    joined_entry(p, encode_utf8(name));
    let c = components(f);
    let d = components(p);
    assert(c =~= c.subrange(0, c.len() as int));
    if in_trash(p, Some(f)) {
        let e = d.push(encode_utf8(name));
        assert(c =~= d.subrange(0, c.len() as int));
        assert(c =~= e.subrange(0, c.len() as int));
        assert(d.take(c.len() as int) =~= c);
    }
}

/// The files of the trash and what is known of them lie beside each other, in two
/// folders.
pub proof fn files_and_notes_lie_beside_each_other(data: Seq<u8>)
    ensures
        components(trash_files_below(data)).len() == components(data).len() + 2,
        components(trash_info_below(data)).len() == components(data).len() + 2,
        components(trash_files_below(data)).drop_last() == components(
            trash_info_below(data),
        ).drop_last(),
        components(trash_files_below(data)).last() == encode_utf8("files"@),
        components(trash_info_below(data)).last() == encode_utf8("info"@),
{
    assert(valid_name("Trash"@)) by {
        reveal_strlit("Trash");
        reveal_strlit(".");
        reveal_strlit("..");
    }
    assert(valid_name("files"@)) by {
        reveal_strlit("files");
        reveal_strlit(".");
        reveal_strlit("..");
        assert("files"@.len() == 5);
    }
    assert(valid_name("info"@)) by {
        reveal_strlit("info");
        reveal_strlit(".");
        reveal_strlit("..");
        assert("info"@.len() == 4);
    }
    valid_name_is_plain("Trash"@);
    valid_name_is_plain("files"@);
    valid_name_is_plain("info"@);
    joined_entry(data, encode_utf8("Trash"@));
    let t = joined(data, encode_utf8("Trash"@));
    joined_entry(t, encode_utf8("files"@));
    joined_entry(t, encode_utf8("info"@));
    assert(components(t).push(encode_utf8("files"@)).drop_last() =~= components(t));
    assert(components(t).push(encode_utf8("info"@)).drop_last() =~= components(t));
}

/// Each success counts once.
pub proof fn removals_from_the_trash_count_once(results: Seq<bool>, b: bool)
    ensures
        successes(results.push(b)) == successes(results) + if b {
            1int
        } else {
            0int
        },
        successes(Seq::empty()) == 0,
{
    assert(results.push(b).drop_last() =~= results);
}

// ---------------------------------------------------------------------------
// Starting
// ---------------------------------------------------------------------------

/// The parts of the wish for messages are those that are not blank, trimmed and in
/// order.
pub proof fn blank_parts_are_left_out(pieces: Seq<Seq<char>>, n: int)
    requires
        0 <= n <= pieces.len(),
    ensures
        exactly_those(
            parts_upto(pieces, n),
            n,
            |i: int| trimmed(pieces[i]).len() > 0,
            |i: int| trimmed(pieces[i]),
        ),
    decreases n,
{
    let keep = |i: int| trimmed(pieces[i]).len() > 0;
    let item = |i: int| trimmed(pieces[i]);
    if n > 0 {
        blank_parts_are_left_out(pieces, n - 1);
        lemma_picked(parts_upto(pieces, n - 1), n - 1, keep, item);
    } else {
        lemma_picked_none(keep, item);
    }
}

/// What is wished with a target is kept, in order.
pub proof fn wishes_with_a_target_are_kept(parts: Seq<Seq<char>>, n: int)
    requires
        0 <= n <= parts.len(),
    ensures
        exactly_those(
            explicit(parts, n),
            n,
            |i: int| parts[i].contains('='),
            |i: int| parts[i],
        ),
    decreases n,
{
    let keep = |i: int| parts[i].contains('=');
    let item = |i: int| parts[i];
    if n > 0 {
        wishes_with_a_target_are_kept(parts, n - 1);
        lemma_picked(explicit(parts, n - 1), n - 1, keep, item);
    } else {
        lemma_picked_none(keep, item);
    }
}

/// The level for the program itself is the last one without a target.
pub proof fn the_last_level_counts(parts: Seq<Seq<char>>, n: int, i: int)
    requires
        0 <= i < n <= parts.len(),
        !parts[i].contains('='),
        forall|k: int| i < k < n ==> (#[trigger] parts[k]).contains('='),
    ensures
        own_level(parts, n) == parts[i],
    decreases n,
{
    if i < n - 1 {
        assert(parts[n - 1].contains('='));
        the_last_level_counts(parts, n - 1, i);
    }
}

/// Without a level of its own the program says everything.
pub proof fn without_a_level_everything_is_said(parts: Seq<Seq<char>>, n: int)
    requires
        0 <= n <= parts.len(),
        forall|k: int| 0 <= k < n ==> (#[trigger] parts[k]).contains('='),
    ensures
        own_level(parts, n) == "debug"@,
    decreases n,
{
    if n > 0 {
        assert(parts[n - 1].contains('='));
        without_a_level_everything_is_said(parts, n - 1);
    }
}

/// A terminal is opened where it is asked for, else in the one folder that is
/// selected, else in the folder that is shown.
pub proof fn terminals_open_in_the_folder(s: AppState, arg: Seq<char>)
    ensures
        arg.len() > 0 ==> target(s, arg) == Some(encode_utf8(arg)),
        arg.len() == 0 && s.selected@.len() == 1 && chosen(s).len() == 1
            && chosen(s)[0].file_type is Directory ==> target(s, arg) == Some(chosen(s)[0].path),
        arg.len() == 0 && (s.selected@.len() != 1 || (chosen(s).len() == 1 && !(
        chosen(s)[0].file_type is Directory))) ==> target(s, arg) == match s@.active.live.current {
            Some(Place::Local(b)) => Some(b),
            _ => None,
        },
{
}

/// A program begins as one of the two kinds that can be run, whatever follows.
pub proof fn programs_are_known_by_their_start(rest: Seq<u8>)
    ensures
        starts_as_program(seq![0x7fu8, 0x45u8, 0x4cu8, 0x46u8] + rest),
        starts_as_program(seq![0x23u8, 0x21u8] + rest),
        !starts_as_program(Seq::empty()),
{
    let a = seq![0x7fu8, 0x45u8, 0x4cu8, 0x46u8];
    let b = seq![0x23u8, 0x21u8];
    assert(a =~= (a + rest).subrange(0, 4));
    assert(b =~= (b + rest).subrange(0, 2));
}

// ---------------------------------------------------------------------------
// Settings
// ---------------------------------------------------------------------------

/// The codes in which choices are stored count them from zero, in their order.
pub proof fn choices_are_stored_in_their_order()
    ensures
        sort_key_code(SortKey::Name) == 0,
        sort_key_code(SortKey::Size) == sort_key_code(SortKey::Name) + 1,
        sort_key_code(SortKey::Mtime) == sort_key_code(SortKey::Size) + 1,
        sort_key_code(SortKey::Kind) == sort_key_code(SortKey::Mtime) + 1,
        sort_order_code(SortOrder::Ascending) == 0,
        sort_order_code(SortOrder::Descending) == 1,
        view_mode_code(ViewMode::List) == 0,
        view_mode_code(ViewMode::Gallery) == 1,
        icon_style_code(IconStyle::Mono) == 0,
        icon_style_code(IconStyle::Color) == 1,
{
}

/// What was stored is applied field by field: a change of one choice changes that
/// choice alone.
pub proof fn each_choice_is_its_own(p: PersistedSettings, dark: bool, hidden: bool, width: u32)
    ensures
        applied(PersistedSettings { dark_theme: dark, ..p }) == (Settings {
            dark_theme: dark,
            ..applied(p)
        }),
        applied(PersistedSettings { show_hidden: hidden, ..p }) == (Settings {
            show_hidden: hidden,
            ..applied(p)
        }),
        applied(PersistedSettings { auto_refresh: hidden, ..p }) == (Settings {
            auto_refresh: hidden,
            ..applied(p)
        }),
        applied(PersistedSettings { sidebar_width: width, ..p }) == (Settings {
            sidebar_width: width,
            ..applied(p)
        }),
        applied(PersistedSettings { col_size_visible: hidden, ..p }) == (Settings {
            col_size_visible: hidden,
            ..applied(p)
        }),
        applied(PersistedSettings { col_modified_visible: hidden, ..p })
            == (Settings { col_modified_visible: hidden, ..applied(p) }),
        applied(PersistedSettings { col_kind_visible: hidden, ..p }) == (Settings {
            col_kind_visible: hidden,
            ..applied(p)
        }),
{
}

/// A size is kept within its bounds, and unchanged where it is.
pub proof fn sizes_are_kept_within_bounds(v: int, low: int, high: int)
    requires
        low <= high,
    ensures
        low <= clamped(v, low, high) <= high,
        low <= v <= high ==> clamped(v, low, high) == v,
        v < low ==> clamped(v, low, high) == low,
        v > high ==> clamped(v, low, high) == high,
{
}

/// At first the list is shown, by name, without what is hidden.
pub proof fn the_first_start_shows_a_list()
    ensures
        applied(defaults()).view_mode is List,
        applied(defaults()).sort_key is Name,
        applied(defaults()).sort_order is Ascending,
        !applied(defaults()).show_hidden,
        applied(defaults()).col_size_visible,
        applied(defaults()).col_modified_visible,
        applied(defaults()).col_kind_visible,
        applied(defaults()).dark_theme,
        !applied(defaults()).auto_refresh,
        applied(defaults()).icon_style is Mono,
        applied(defaults()).item_size == 3,
        applied(defaults()).sidebar_width == 220,
        applied(defaults()).thumb_size == 2,
        applied(defaults()).thumb_mem_budget_mb == 2048,
        defaults().window_size == (1100u32, 700u32),
{
}

/// Where something was is read with its escapes resolved.
pub proof fn where_something_was_is_unescaped(text: Seq<char>, rest: Seq<char>, s: Seq<u8>)
    requires
        path_line(lines_of(text)) == Some(rest),
        writes_out(encode_utf8(rest), s),
    ensures
        original_path(text) == Some(encode_utf8(lossy(s))),
{
    escapes_read_back(encode_utf8(rest), s);
}

/// What is known of a thing in the trash stands in a file of its name with an
/// ending of its own.
pub proof fn notes_are_called_by_their_file(dir: Seq<u8>, name: Seq<u8>)
    requires
        !lossy(name).contains('/'),
    ensures
        file_name(sidecar(dir, name)) == Some(encode_utf8(lossy(name) + ".trashinfo"@)),
        components(sidecar(dir, name)) == components(dir).push(
            encode_utf8(lossy(name) + ".trashinfo"@),
        ),
{
    reveal_strlit(".trashinfo");
    reveal_strlit(".");
    reveal_strlit("..");
    let n = lossy(name) + ".trashinfo"@;
    assert(!n.contains('/')) by {
        assert forall|i: int| 0 <= i < n.len() implies n[i] != '/' by {
            if i < lossy(name).len() {
                assert(n[i] == lossy(name)[i]);
            } else {
                assert(n[i] == ".trashinfo"@[i - lossy(name).len()]);
            }
        }
    }
    assert(valid_name(n));
    valid_name_is_plain(n);
    joined_entry(dir, encode_utf8(n));
}

/// A user is known by the name in the list.
pub proof fn users_are_known_by_the_list(names: Map<u32, String>, id: u32)
    ensures
        names.contains_key(id) ==> name_of(names, id) == Some(names[id]@),
        !names.contains_key(id) ==> name_of(names, id) is None,
{
}

/// A thing in the trash came from a path where that is the same.
pub proof fn things_came_from_their_path(items: Seq<TrashItem>, i: int, orig: Seq<u8>)
    requires
        0 <= i < items.len(),
    ensures
        came_from(items, i, orig) <==> components(items[i].original@) == components(orig),
{
}

/// The gap since the last sign of life is what has passed since.
pub proof fn the_gap_is_what_has_passed(now: u64, beat: u64)
    ensures
        now >= beat ==> gap(now, beat) == now - beat,
        now < beat ==> gap(now, beat) == 0,
{
}

/// The settings are a file of the folder in which the program keeps what it
/// remembers, and the trash is one folder of the user's data.
pub proof fn what_is_remembered_has_its_place(base: Seq<u8>)
    ensures
        components(config_below(base)) == components(base).push(encode_utf8("mykrut"@)).push(
            encode_utf8("data"@),
        ),
        components(settings_below(base)) == components(config_below(base)).push(
            encode_utf8("settings.toml"@),
        ),
        components(trash_below(base)) == components(base).push(encode_utf8("Trash"@)),
{
    reveal_strlit(".");
    reveal_strlit("..");
    reveal_strlit("mykrut");
    reveal_strlit("data");
    reveal_strlit("settings.toml");
    reveal_strlit("Trash");
    assert("mykrut"@.len() == 6);
    assert("data"@.len() == 4 && "data"@[0] == 'd');
    assert(!"data"@.contains('/'));
    valid_name_is_plain("mykrut"@);
    valid_name_is_plain("data"@);
    valid_name_is_plain("settings.toml"@);
    valid_name_is_plain("Trash"@);
    joined_entry(base, encode_utf8("Trash"@));
    joined_entry(base, encode_utf8("mykrut"@));
    joined_entry(joined(base, encode_utf8("mykrut"@)), encode_utf8("data"@));
    joined_entry(config_below(base), encode_utf8("settings.toml"@));
}

/// Archives, programs and other known types have their icon, and what is not known
/// has the plain one.
pub proof fn known_types_have_their_icon(m: Seq<char>)
    ensures
        m == "application/pdf"@ ==> mime_icon(m) == "pdf"@,
        m == "application/zip"@ || m == "application/x-tar"@ || m == "application/gzip"@ || m
            == "application/x-bzip2"@ || m == "application/x-xz"@ || m
            == "application/x-7z-compressed"@ || m == "application/vnd.rar"@ || m
            == "application/x-rar"@ ==> mime_icon(m) == "archive"@,
        m == "application/x-executable"@ || m == "application/x-sharedlib"@ ==> mime_icon(m)
            == "executable"@,
        m == "inode/directory"@ ==> mime_icon(m) == "folder"@,
        m.len() < 5 ==> mime_icon(m) == "file-generic"@,
{
    reveal_strlit("image/");
    reveal_strlit("video/");
    reveal_strlit("audio/");
    reveal_strlit("text/");
    reveal_strlit("application/pdf");
    reveal_strlit("application/zip");
    reveal_strlit("application/x-tar");
    reveal_strlit("application/gzip");
    reveal_strlit("application/x-bzip2");
    reveal_strlit("application/x-xz");
    reveal_strlit("application/x-7z-compressed");
    reveal_strlit("application/vnd.rar");
    reveal_strlit("application/x-rar");
    reveal_strlit("application/x-executable");
    reveal_strlit("application/x-sharedlib");
    reveal_strlit("inode/directory");
    assert("image/"@.is_prefix_of(m) ==> m.len() >= 6 && m[0] == 'i' && m[1] == 'm') by {
        if "image/"@.is_prefix_of(m) {
            assert(m[0] == "image/"@[0] && m[1] == "image/"@[1]);
        }
    }
    assert("video/"@.is_prefix_of(m) ==> m.len() >= 6 && m[0] == 'v') by {
        if "video/"@.is_prefix_of(m) {
            assert(m[0] == "video/"@[0]);
        }
    }
    assert("audio/"@.is_prefix_of(m) ==> m.len() >= 6 && m[1] == 'u') by {
        if "audio/"@.is_prefix_of(m) {
            assert(m[1] == "audio/"@[1]);
        }
    }
    assert("text/"@.is_prefix_of(m) ==> m.len() >= 5 && m[0] == 't') by {
        if "text/"@.is_prefix_of(m) {
            assert(m[0] == "text/"@[0]);
        }
    }
    let n = m.len();
    if m == "application/zip"@ {
        assert(m[12] == 'z' && "application/pdf"@[12] == 'p');
    }
    if m == "inode/directory"@ {
        assert(m[0] == 'i' && m[1] == 'n' && "application/pdf"@[0] == 'a');
        assert("application/zip"@[0] == 'a');
    }
}

/// The known terminals are tried in a fixed order, from the one that the system
/// chose to the plainest, and none of them twice.
pub proof fn terminals_are_tried_in_order(i: int, j: int)
    requires
        0 <= i < j < known_terminals().len(),
    ensures
        known_terminals()[i] != known_terminals()[j],
        known_terminals().len() == 12,
        known_terminals()[0] == "x-terminal-emulator"@,
        known_terminals()[1] == "gnome-terminal"@,
        known_terminals()[2] == "konsole"@,
        known_terminals()[3] == "alacritty"@,
        known_terminals()[4] == "kitty"@,
        known_terminals()[5] == "wezterm"@,
        known_terminals()[6] == "tilix"@,
        known_terminals()[7] == "xfce4-terminal"@,
        known_terminals()[8] == "lxterminal"@,
        known_terminals()[9] == "terminator"@,
        known_terminals()[10] == "foot"@,
        known_terminals()[11] == "xterm"@,
{
    reveal_strlit("x-terminal-emulator");
    reveal_strlit("gnome-terminal");
    reveal_strlit("konsole");
    reveal_strlit("alacritty");
    reveal_strlit("kitty");
    reveal_strlit("wezterm");
    reveal_strlit("tilix");
    reveal_strlit("xfce4-terminal");
    reveal_strlit("lxterminal");
    reveal_strlit("terminator");
    reveal_strlit("foot");
    reveal_strlit("xterm");
    assert(known_terminals()[i].len() != known_terminals()[j].len() || known_terminals()[i][0]
        != known_terminals()[j][0]);
}

/// The icon of a folder of the user says which of them it is, and what has no known
/// type has the plain icon.
pub proof fn icons_of_the_user_say_which_folder(p: Seq<u8>, dirs: UserDirs, e: EntryView)
    ensures
        user_dir_icon(p, dirs) == Some("folder-home"@) ==> is_dir_path(p, dirs.home),
        user_dir_icon(p, dirs) == Some("folder-desktop"@) ==> is_dir_path(p, dirs.desktop),
        user_dir_icon(p, dirs) == Some("folder-documents"@) ==> is_dir_path(p, dirs.documents),
        user_dir_icon(p, dirs) == Some("folder-downloads"@) ==> is_dir_path(p, dirs.downloads),
        user_dir_icon(p, dirs) == Some("folder-pictures"@) ==> is_dir_path(p, dirs.pictures),
        user_dir_icon(p, dirs) == Some("folder-music"@) ==> is_dir_path(p, dirs.music),
        user_dir_icon(p, dirs) == Some("folder-videos"@) ==> is_dir_path(p, dirs.videos),
        user_dir_icon(p, dirs) == Some("folder-templates"@) ==> is_dir_path(p, dirs.templates),
        user_dir_icon(p, dirs) == Some("folder-public"@) ==> is_dir_path(p, dirs.public),
        user_dir_icon(p, dirs) is Some ==> is_one_of_the_folders(p, dirs),
        dirs.home is Some && is_one_of_the_folders(p, dirs) ==> user_dir_icon(p, dirs) is Some,
        e.file_type != FileType::Directory && e.mime is None ==> entry_icon(e, dirs)
            == "file-generic"@,
        e.file_type == FileType::Directory && user_dir_icon(e.path, dirs) is None ==> entry_icon(
            e,
            dirs,
        ) == "folder"@,
{
    reveal_strlit("folder-home");
    reveal_strlit("folder-desktop");
    reveal_strlit("folder-documents");
    reveal_strlit("folder-downloads");
    reveal_strlit("folder-pictures");
    reveal_strlit("folder-music");
    reveal_strlit("folder-videos");
    reveal_strlit("folder-templates");
    reveal_strlit("folder-public");
    assert("folder-home"@.len() == 11 && "folder-home"@[7] == 'h' && "folder-home"@[8] == 'o' && "folder-home"@[9] == 'm');
    assert("folder-desktop"@.len() == 14 && "folder-desktop"@[7] == 'd' && "folder-desktop"@[8] == 'e' && "folder-desktop"@[9] == 's');
    assert("folder-documents"@.len() == 16 && "folder-documents"@[7] == 'd' && "folder-documents"@[8] == 'o' && "folder-documents"@[9] == 'c');
    assert("folder-downloads"@.len() == 16 && "folder-downloads"@[7] == 'd' && "folder-downloads"@[8] == 'o' && "folder-downloads"@[9] == 'w');
    assert("folder-pictures"@.len() == 15 && "folder-pictures"@[7] == 'p' && "folder-pictures"@[8] == 'i' && "folder-pictures"@[9] == 'c');
    assert("folder-music"@.len() == 12 && "folder-music"@[7] == 'm' && "folder-music"@[8] == 'u' && "folder-music"@[9] == 's');
    assert("folder-videos"@.len() == 13 && "folder-videos"@[7] == 'v' && "folder-videos"@[8] == 'i' && "folder-videos"@[9] == 'd');
    assert("folder-templates"@.len() == 16 && "folder-templates"@[7] == 't' && "folder-templates"@[8] == 'e' && "folder-templates"@[9] == 'm');
    assert("folder-public"@.len() == 13 && "folder-public"@[7] == 'p' && "folder-public"@[8] == 'u' && "folder-public"@[9] == 'b');
}

/// Whether a path is that of a folder of the user.
pub open spec fn is_one_of_the_folders(p: Seq<u8>, dirs: UserDirs) -> bool {
    ||| is_dir_path(p, dirs.home)
    ||| is_dir_path(p, dirs.desktop)
    ||| is_dir_path(p, dirs.documents)
    ||| is_dir_path(p, dirs.downloads)
    ||| is_dir_path(p, dirs.pictures)
    ||| is_dir_path(p, dirs.music)
    ||| is_dir_path(p, dirs.videos)
    ||| is_dir_path(p, dirs.templates)
    ||| is_dir_path(p, dirs.public)
}

/// The type of a folder is that of folders, whatever it is called.
pub proof fn folders_have_the_type_of_folders(p: Seq<u8>, header: Option<Seq<u8>>)
    ensures
        entry_mime(p, FileType::Directory, header) == Some("inode/directory"@),
{
}

/// How often is reported and how much is taken at a time: progress at most thirty
/// times a second, search results in batches, thumbnails within a part of a frame,
/// and changes of a folder or of a search text once things have come to rest.
pub proof fn the_limits_are_fixed()
    ensures
        30 * MIN_GAP <= ONE_SECOND < 31 * MIN_GAP,
        MIN_GAP == 33_000_000,
        ONE_SECOND == 1_000_000_000,
        REPORT_EVERY_MS == 120,
        BATCH == 64,
        MAX_RESULTS == 5_000,
        MAX_APPLY_PER_TICK == 64,
        TICK_BUDGET == 12,
        MAX_SHOWN == 12,
        BULK_OPEN_CONFIRM_AT == 5,
        STALL_THRESHOLD_MS == 400,
        crate::search::DEBOUNCE_MS == 250,
        crate::watcher::DEBOUNCE_MS == 300,
{
}

/// What is wished of the log is separated by commas: the parts between them, without
/// blanks around them, are the wishes, in order.
pub proof fn wishes_are_separated_by_commas(s: Seq<char>) -> (parts: Seq<Seq<char>>)
    ensures
        with_between(parts, ',') == s,
        forall|i: int| 0 <= i < parts.len() ==> !(#[trigger] parts[i]).contains(','),
        exactly_those(
            log_parts(s),
            parts.len() as int,
            |i: int| trimmed(parts[i]).len() > 0,
            |i: int| trimmed(parts[i]),
        ),
{
    let parts = split_at_char(s, ',');
    split_parts_make_the_text(s, ',');
    blank_parts_are_left_out(parts, parts.len() as int);
    parts
}

} // verus!
