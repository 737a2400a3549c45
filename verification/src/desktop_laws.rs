//! Which programs are offered for a file, and how they are started.
use crate::desktop::{
    app_dirs, app_of, apps_upto, args_upto, argv_of, by_recommendation, default_lists, desktop_id,
    dirs_upto, file_candidates, first_default, ids_upto, lang_prefix, list_items, localized_key,
    names_upto, non_empty, read_entry, read_lines, search_path, slashed, with_line, word_args,
    AppView, DesktopFile, EntryState,
};
use crate::listing::chosen_upto;
use crate::listing_laws::the_selected_entries_are_chosen;
use crate::mimeapps::default_in;
use crate::open_with::{
    app_at, cached, custom_app, files_among, normalized, remembered, single_file, with_custom,
    CustomApp,
};
use crate::ordering::{orders, ranked, ranked_is_ordered};
use crate::picking::{exactly_those, lemma_picked, lemma_picked_none, picked_items_are_those_kept};
use crate::sort_select::{lemma_text_order, text_before};
use crate::text::{
    ascii_lower, lemma_first_of, lines_of, lowercase, opt_view, split_at_char, split_once_at,
    trimmed, trimmed_end, white, words_of,
};
use crate::text_laws::{cutting_at_the_first_of_a_character, split_parts_make_the_text};
use crate::types::EntryView;
use crate::unix_path::{extension, file_name, joined, lossy};
use vstd::prelude::*;
use vstd::utf8::*;

verus! {

// ---------------------------------------------------------------------------
// Reading desktop files
// ---------------------------------------------------------------------------

proof fn lemma_key_line(key: Seq<char>, value: Seq<char>)
    requires
        key.len() > 0,
        !key.contains('='),
        value.len() > 0 ==> !white(value.last()),
    ensures
        ({
            let line = key + seq!['='] + value;
            &&& trimmed_end(line) == line
            &&& split_once_at(line, '=') == Some((key, value))
            &&& line[0] == key[0]
            &&& line.len() > 0
            &&& line.last() == if value.len() > 0 {
                value.last()
            } else {
                '='
            }
        }),
{
    let line = key + seq!['='] + value;
    cutting_at_the_first_of_a_character(line, '=', key, value);
    assert(line.last() == if value.len() > 0 {
        value.last()
    } else {
        '='
    });
}

/// Within its group a line of a desktop file sets what its key says, and nothing
/// else; the last line with a key counts.
pub proof fn a_line_sets_its_key(s: EntryState, value: Seq<char>, lang: Option<Seq<char>>)
    requires
        s.inside,
        !s.done,
        value.len() > 0 ==> !white(value.last()),
    ensures
        with_line(s, "Name"@ + seq!['='] + value, lang) == (EntryState { name: Some(value), ..s }),
        with_line(s, "Exec"@ + seq!['='] + value, lang) == (EntryState {
            exec_line: Some(value),
            ..s
        }),
        with_line(s, "Type"@ + seq!['='] + value, lang) == (EntryState {
            is_app: value == "Application"@,
            ..s
        }),
        with_line(s, "MimeType"@ + seq!['='] + value, lang) == (EntryState {
            mime_types: list_items(value),
            ..s
        }),
{
    reveal_strlit("Name");
    reveal_strlit("Exec");
    reveal_strlit("Type");
    reveal_strlit("MimeType");
    reveal_strlit("NoDisplay");
    reveal_strlit("Hidden");
    lemma_key_line("Name"@, value);
    lemma_key_line("Exec"@, value);
    lemma_key_line("Type"@, value);
    lemma_key_line("MimeType"@, value);
    assert("Name"@[0] == 'N');
    assert("Exec"@[0] == 'E');
    assert("Type"@[0] == 'T');
    assert("MimeType"@[0] == 'M');
    assert("NoDisplay"@[0] == 'N');
    assert("NoDisplay"@.len() == 9);
    assert("Hidden"@[0] == 'H');
}

/// A line can hide the entry, in either of two ways.
pub proof fn a_line_can_hide_the_entry(s: EntryState, value: Seq<char>, lang: Option<Seq<char>>)
    requires
        s.inside,
        !s.done,
        value.len() > 0 ==> !white(value.last()),
    ensures
        with_line(s, "NoDisplay"@ + seq!['='] + value, lang) == (EntryState {
            hidden: s.hidden || ascii_lower(value) == "true"@,
            ..s
        }),
        with_line(s, "Hidden"@ + seq!['='] + value, lang) == (EntryState {
            hidden: s.hidden || ascii_lower(value) == "true"@,
            ..s
        }),
{
    reveal_strlit("Name");
    reveal_strlit("Exec");
    reveal_strlit("Type");
    reveal_strlit("NoDisplay");
    reveal_strlit("Hidden");
    lemma_key_line("NoDisplay"@, value);
    lemma_key_line("Hidden"@, value);
    assert("NoDisplay"@.len() == 9);
    assert("Name"@.len() == 4);
    assert("Exec"@.len() == 4);
    assert("Type"@.len() == 4);
    assert("NoDisplay"@[0] == 'N');
    assert("Hidden"@[0] == 'H');
    assert("Hidden"@.len() == 6);
}

/// An entry that says once that it is hidden stays hidden.
pub proof fn a_hidden_entry_stays_hidden(s: EntryState, line: Seq<char>, lang: Option<Seq<char>>)
    requires
        s.hidden,
    ensures
        with_line(s, line, lang).hidden,
{
}

/// What stands outside the group of the entry says nothing of it, and neither do
/// comments.
pub proof fn other_lines_say_nothing(s: EntryState, line: Seq<char>, lang: Option<Seq<char>>)
    ensures
        s.done ==> with_line(s, line, lang) == s,
        ({
            let t = with_line(s, line, lang);
            let cleaned = trimmed_end(line);
            !s.inside || cleaned.len() == 0 || cleaned[0] == '#' || cleaned[0] == '[' && cleaned.last()
                == ']' ==> t.name == s.name && t.exec_line == s.exec_line && t.is_app == s.is_app
                && t.hidden == s.hidden && t.mime_types == s.mime_types && t.localized
                == s.localized
        }),
{
}

/// A name in the language of the user is taken for it, also where it says the
/// country.
pub proof fn names_in_the_own_language(pref: Seq<char>, country: Seq<char>)
    ensures
        localized_key("Name["@ + pref + "]"@, Some(pref)),
        localized_key("Name["@ + (pref + "_"@ + country) + "]"@, Some(pref)),
        forall|key: Seq<char>| !#[trigger] localized_key(key, None),
{
    lemma_localized(pref, pref);
    let long = pref + "_"@ + country;
    assert((pref + "_"@) =~= long.subrange(0, (pref + "_"@).len() as int));
    lemma_localized(long, pref);
}

proof fn lemma_localized(locale: Seq<char>, pref: Seq<char>)
    requires
        locale == pref || (pref + "_"@).is_prefix_of(locale),
    ensures
        localized_key("Name["@ + locale + "]"@, Some(pref)),
{
    let key = "Name["@ + locale + "]"@;
    let n = "Name["@.len() as int;
    assert("Name["@ =~= key.subrange(0, n));
    let rest = key.skip(n);
    assert(rest =~= locale + "]"@);
    assert("]"@ =~= rest.subrange(rest.len() - "]"@.len(), rest.len() as int));
    assert(rest.take(rest.len() - "]"@.len()) =~= locale);
}

/// The language is what stands before the country and the encoding.
pub proof fn the_language_stands_first(lang: Seq<char>)
    ensures
        match lang_prefix(lang) {
            Some(p) => p.len() > 0 && p.is_prefix_of(lang) && !p.contains('_') && !p.contains('.')
                && (p.len() < lang.len() ==> lang[p.len() as int] == '_' || lang[p.len() as int]
                == '.'),
            None => lang.len() == 0 || lang[0] == '_' || lang[0] == '.',
        },
{
    lemma_first_of(lang, '.');
    lemma_first_of(lang, '_');
    if lang_prefix(lang) is Some {
        let p = lang_prefix(lang)->0;
        assert(p =~= lang.subrange(0, p.len() as int));
        assert forall|i: int| 0 <= i < p.len() implies p[i] != '_' && p[i] != '.' by {
            assert(p[i] == lang[i]);
        }
    }
}

/// The items of a list are its parts that are not empty, in order.
pub proof fn items_of_a_list(parts: Seq<Seq<char>>, n: int)
    requires
        0 <= n <= parts.len(),
    ensures
        exactly_those(
            non_empty(parts, n),
            n,
            |i: int| parts[i].len() > 0,
            |i: int| parts[i],
        ),
    decreases n,
{
    let keep = |i: int| parts[i].len() > 0;
    let item = |i: int| parts[i];
    if n > 0 {
        items_of_a_list(parts, n - 1);
        lemma_picked(non_empty(parts, n - 1), n - 1, keep, item);
    } else {
        lemma_picked_none(keep, item);
    }
}

/// The items of a list hold no separator, and a list of one item is that item.
pub proof fn a_list_is_cut_at_its_separators(value: Seq<char>)
    ensures
        list_items(value) == non_empty(
            split_at_char(value, ';'),
            split_at_char(value, ';').len() as int,
        ),
        forall|i: int|
            0 <= i < list_items(value).len() ==> (#[trigger] list_items(value)[i]).len() > 0
                && !list_items(value)[i].contains(';'),
{
    let parts = split_at_char(value, ';');
    let n = parts.len() as int;
    let keep = |i: int| parts[i].len() > 0;
    let item = |i: int| parts[i];
    items_of_a_list(parts, n);
    split_parts_make_the_text(value, ';');
    assert forall|i: int| 0 <= i < list_items(value).len() implies (#[trigger] list_items(
        value,
    )[i]).len() > 0 && !list_items(value)[i].contains(';') by {
        let x = list_items(value)[i];
        assert(list_items(value).contains(x));
        picked_items_are_those_kept(list_items(value), n, keep, item, x);
        let k = choose|k: int| 0 <= k < n && #[trigger] keep(k) && item(k) == x;
        assert(parts[k] == x);
    }
}

// ---------------------------------------------------------------------------
// The programs
// ---------------------------------------------------------------------------

proof fn lemma_ids(fs: Seq<DesktopFile>, n: int, id: Seq<char>)
    requires
        0 <= n <= fs.len(),
    ensures
        ids_upto(fs, n).contains(id) <==> exists|i: int|
            0 <= i < n && desktop_id((#[trigger] fs[i]).path@) == Some(id),
    decreases n,
{
    if n > 0 {
        lemma_ids(fs, n - 1, id);
        if desktop_id(fs[n - 1].path@) == Some(id) {
            assert(desktop_id(fs[n - 1].path@) == Some(id));
        }
        if ids_upto(fs, n - 1).contains(id) {
            let i = choose|i: int|
                0 <= i < n - 1 && desktop_id((#[trigger] fs[i]).path@) == Some(id);
            assert(desktop_id(fs[i].path@) == Some(id));
        }
    }
}

/// Whether a desktop file is the first one of its name.
pub open spec fn first_of_its_name(fs: Seq<DesktopFile>, i: int) -> bool {
    &&& desktop_id(fs[i].path@) is Some
    &&& forall|k: int|
        0 <= k < i ==> desktop_id((#[trigger] fs[k]).path@) != desktop_id(fs[i].path@)
}

/// Of the desktop files with one name the first decides; those that are programs
/// to be shown are offered, in their order.
pub proof fn the_first_desktop_file_decides(
    fs: Seq<DesktopFile>,
    n: int,
    mime: Option<Seq<char>>,
    lang: Option<Seq<char>>,
)
    requires
        0 <= n <= fs.len(),
    ensures
        exactly_those(
            apps_upto(fs, n, mime, lang),
            n,
            |i: int|
                first_of_its_name(fs, i) && app_of(
                    fs[i],
                    desktop_id(fs[i].path@)->0,
                    mime,
                    lang,
                ) is Some,
            |i: int| app_of(fs[i], desktop_id(fs[i].path@)->0, mime, lang)->0,
        ),
    decreases n,
{
    let keep = |i: int|
        first_of_its_name(fs, i) && app_of(fs[i], desktop_id(fs[i].path@)->0, mime, lang) is Some;
    let item = |i: int| app_of(fs[i], desktop_id(fs[i].path@)->0, mime, lang)->0;
    if n > 0 {
        the_first_desktop_file_decides(fs, n - 1, mime, lang);
        lemma_picked(apps_upto(fs, n - 1, mime, lang), n - 1, keep, item);
        if desktop_id(fs[n - 1].path@) is Some {
            let id = desktop_id(fs[n - 1].path@)->0;
            lemma_ids(fs, n - 1, id);
            assert(first_of_its_name(fs, n - 1) <==> !ids_upto(fs, n - 1).contains(id));
        }
    } else {
        lemma_picked_none(keep, item);
    }
}

/// A program that is offered has a command, is recommended exactly where it says
/// that it opens the type, and goes by the name of its file.
pub proof fn programs_are_what_their_files_say(
    f: DesktopFile,
    id: Seq<char>,
    mime: Option<Seq<char>>,
    lang: Option<Seq<char>>,
)
    ensures
        app_of(f, id, mime, lang) is Some ==> f.text is Some && {
            let s = read_entry(f.text->0@, lang);
            let a = app_of(f, id, mime, lang)->0;
            &&& s.is_app
            &&& !s.hidden
            &&& s.exec_line == Some(a.exec_line)
            &&& a.id == id
            &&& a.recommended <==> mime is Some && s.mime_types.contains(mime->0)
            &&& s.localized is Some ==> a.name == s.localized->0
            &&& s.localized is None && s.name is Some ==> a.name == s.name->0
            &&& s.localized is None && s.name is None ==> a.name == "(unnamed)"@
        },
        f.text is Some && {
            let s = read_entry(f.text->0@, lang);
            s.is_app && !s.hidden && s.exec_line is Some && trimmed(s.exec_line->0).len() > 0
        } ==> app_of(f, id, mime, lang) is Some,
{
}

proof fn lemma_by_recommendation()
    ensures
        orders(by_recommendation()),
{
    let before = by_recommendation();
    assert forall|a: AppView, b: AppView| #[trigger] before(a, b) implies !before(b, a) by {
        lemma_text_order(lowercase(a.name), lowercase(b.name), lowercase(b.name));
    }
    assert forall|a: AppView, b: AppView, c: AppView| #[trigger]
        before(a, b) && #[trigger] before(b, c) implies before(a, c) by {
        lemma_text_order(lowercase(a.name), lowercase(b.name), lowercase(c.name));
    }
    assert forall|a: AppView, b: AppView, c: AppView|
        !#[trigger] before(a, b) && !#[trigger] before(b, c) implies !before(a, c) by {
        let x = lowercase(a.name);
        let y = lowercase(b.name);
        let z = lowercase(c.name);
        lemma_text_order(x, y, z);
        lemma_text_order(y, z, x);
        lemma_text_order(z, y, x);
        lemma_text_order(x, z, y);
    }
}

/// Programs that are recommended come before the others, and each kind is in the
/// order of the names; none is lost.
pub proof fn recommended_programs_come_first(apps: Seq<AppView>, i: int, j: int, a: AppView)
    requires
        0 <= i < j < apps.len(),
    ensures
        ({
            let r = ranked(apps, by_recommendation());
            &&& r.len() == apps.len()
            &&& r.contains(a) <==> apps.contains(a)
            &&& r[j].recommended ==> r[i].recommended
            &&& r[i].recommended == r[j].recommended ==> !text_before(
                lowercase(r[j].name),
                lowercase(r[i].name),
            )
        }),
{
    lemma_by_recommendation();
    ranked_is_ordered(apps, by_recommendation());
    let r = ranked(apps, by_recommendation());
    assert(!by_recommendation()(r[j], r[i]));
}

/// The own folder of programs is searched first, then those of the search path in
/// order, then the two of the system.
pub proof fn folders_of_programs_are_searched_in_order(
    data: Option<Seq<u8>>,
    search: Seq<char>,
)
    ensures
        ({
            let ds = app_dirs(data, search);
            let n = ds.len() as int;
            &&& n >= 2
            &&& ds[n - 1] == encode_utf8("/usr/share/applications"@)
            &&& ds[n - 2] == encode_utf8("/usr/local/share/applications"@)
            &&& data matches Some(d) ==> ds[0] == joined(d, encode_utf8("applications"@))
            &&& ({
                let parts = split_at_char(search, ':');
                let from: int = if data is Some {
                    1
                } else {
                    0
                };
                ds.subrange(from, n - 2) == dirs_upto(parts, parts.len() as int)
            })
        }),
{
    let ds = app_dirs(data, search);
    let parts = split_at_char(search, ':');
    let from: int = if data is Some {
        1
    } else {
        0
    };
    assert(ds.subrange(from, ds.len() - 2) =~= dirs_upto(parts, parts.len() as int));
}

/// Each part of the search path that is not empty is a folder to look below.
pub proof fn the_search_path_names_folders(parts: Seq<Seq<char>>, n: int)
    requires
        0 <= n <= parts.len(),
    ensures
        exactly_those(
            dirs_upto(parts, n),
            n,
            |i: int| parts[i].len() > 0,
            |i: int| joined(encode_utf8(parts[i]), encode_utf8("applications"@)),
        ),
    decreases n,
{
    let keep = |i: int| parts[i].len() > 0;
    let item = |i: int| joined(encode_utf8(parts[i]), encode_utf8("applications"@));
    if n > 0 {
        the_search_path_names_folders(parts, n - 1);
        lemma_picked(dirs_upto(parts, n - 1), n - 1, keep, item);
    } else {
        lemma_picked_none(keep, item);
    }
}

/// The own list of defaults is looked at first, the lists of the system last.
pub proof fn own_defaults_come_first(config: Option<Seq<u8>>, data: Option<Seq<u8>>)
    ensures
        ({
            let ls = default_lists(config, data);
            let n = ls.len() as int;
            &&& config matches Some(c) ==> ls[0] == joined(c, encode_utf8("mimeapps.list"@))
            &&& n == 2 + (if config is Some {
                1int
            } else {
                0
            }) + (if data is Some {
                1int
            } else {
                0
            })
            &&& data matches Some(d) ==> ls[n - 3] == joined(
                joined(d, encode_utf8("applications"@)),
                encode_utf8("mimeapps.list"@),
            )
            &&& ls[n - 2] == encode_utf8("/usr/local/share/applications/mimeapps.list"@)
            &&& ls[n - 1] == encode_utf8("/usr/share/applications/mimeapps.list"@)
        }),
{
}

/// Of several lists the first one that has a default for a type decides.
pub proof fn the_first_list_with_a_default_decides(
    texts: Seq<Option<String>>,
    mime: Seq<char>,
    i: int,
)
    requires
        0 <= i < texts.len(),
        texts[i] is Some,
        default_in(lines_of(texts[i]->0@), mime, false) is Some,
        forall|k: int|
            0 <= k < i && (#[trigger] texts[k]) is Some ==> default_in(
                lines_of(texts[k]->0@),
                mime,
                false,
            ) is None,
    ensures
        first_default(texts, mime) == default_in(lines_of(texts[i]->0@), mime, false),
    decreases texts.len(),
{
    if i > 0 {
        let rest = texts.skip(1);
        assert(rest[i - 1] == texts[i]);
        assert forall|k: int| 0 <= k < i - 1 && (#[trigger] rest[k]) is Some implies default_in(
            lines_of(rest[k]->0@),
            mime,
            false,
        ) is None by {
            assert(rest[k] == texts[k + 1]);
        }
        if texts[0] is Some {
            assert(default_in(lines_of(texts[0]->0@), mime, false) is None);
        }
        the_first_list_with_a_default_decides(rest, mime, i - 1);
    }
}

/// Without a default in any list there is none.
pub proof fn without_a_default_there_is_none(texts: Seq<Option<String>>, mime: Seq<char>)
    requires
        forall|k: int|
            0 <= k < texts.len() && (#[trigger] texts[k]) is Some ==> default_in(
                lines_of(texts[k]->0@),
                mime,
                false,
            ) is None,
    ensures
        first_default(texts, mime) is None,
    decreases texts.len(),
{
    if texts.len() > 0 {
        let rest = texts.skip(1);
        assert forall|k: int| 0 <= k < rest.len() && (#[trigger] rest[k]) is Some implies default_in(
            lines_of(rest[k]->0@),
            mime,
            false,
        ) is None by {
            assert(rest[k] == texts[k + 1]);
        }
        if texts[0] is Some {
            assert(default_in(lines_of(texts[0]->0@), mime, false) is None);
        }
        without_a_default_there_is_none(rest, mime);
    }
}

/// A desktop file is looked for in every folder in order: by its name, and then
/// with slashes for the hyphens.
pub proof fn desktop_files_are_looked_for_in_order(dirs: Seq<Seq<u8>>, id: Seq<char>, n: int, i: int)
    requires
        0 <= i < n <= dirs.len(),
    ensures
        !id.contains('-') ==> file_candidates(dirs, id, n).len() == n && file_candidates(
            dirs,
            id,
            n,
        )[i] == joined(dirs[i], encode_utf8(id)),
        id.contains('-') ==> file_candidates(dirs, id, n).len() == 2 * n && file_candidates(
            dirs,
            id,
            n,
        )[2 * i] == joined(dirs[i], encode_utf8(id)) && file_candidates(dirs, id, n)[2 * i + 1]
            == joined(dirs[i], encode_utf8(slashed(id))),
    decreases n,
{
    lemma_candidates(dirs, id, n - 1);
    if i < n - 1 {
        desktop_files_are_looked_for_in_order(dirs, id, n - 1, i);
    }
}

proof fn lemma_candidates(dirs: Seq<Seq<u8>>, id: Seq<char>, n: int)
    requires
        0 <= n <= dirs.len(),
    ensures
        file_candidates(dirs, id, n).len() == if id.contains('-') {
            2 * n
        } else {
            n
        },
    decreases n,
{
    if n > 0 {
        lemma_candidates(dirs, id, n - 1);
    }
}

/// Hyphens become slashes, and nothing else changes.
pub proof fn hyphens_become_slashes(id: Seq<char>, i: int)
    requires
        0 <= i < id.len(),
    ensures
        slashed(id).len() == id.len(),
        id[i] == '-' ==> slashed(id)[i] == '/',
        id[i] != '-' ==> slashed(id)[i] == id[i],
{
}

// ---------------------------------------------------------------------------
// Starting
// ---------------------------------------------------------------------------

/// A command without field codes is started as it is; the codes for all files are
/// replaced by all of them, those for one by the first, and others by nothing.
pub proof fn field_codes_are_replaced(ws: Seq<Seq<char>>, w: Seq<char>, paths: Seq<Seq<u8>>)
    ensures
        ({
            let n = ws.len() as int;
            let before = args_upto(ws, n, paths);
            let all = args_upto(ws.push(w), n + 1, paths);
            &&& before.is_prefix_of(all)
            &&& w.len() == 0 || w[0] != '%' ==> all == before.push(w)
            &&& w == seq!['%', 'F'] || w == seq!['%', 'U'] ==> all.len() == before.len()
                + paths.len() && forall|i: int|
                0 <= i < paths.len() ==> #[trigger] all[before.len() + i] == lossy(paths[i])
            &&& (w == seq!['%', 'f'] || w == seq!['%', 'u']) && paths.len() > 0 ==> all
                == before.push(lossy(paths[0]))
            &&& w.len() != 2 && w.len() > 0 && w[0] == '%' ==> all == before
        }),
{
    reveal_strlit("%f");
    reveal_strlit("%u");
    reveal_strlit("%F");
    reveal_strlit("%U");
    assert("%f"@ =~= seq!['%', 'f']);
    assert("%u"@ =~= seq!['%', 'u']);
    assert("%F"@ =~= seq!['%', 'F']);
    assert("%U"@ =~= seq!['%', 'U']);
    let n = ws.len() as int;
    lemma_args_of_more(ws, w, n, paths);
    let before = args_upto(ws, n, paths);
    let all = args_upto(ws.push(w), n + 1, paths);
    assert(all == before + word_args(w, paths));
    assert(before =~= all.subrange(0, before.len() as int));
    if w.len() == 0 || w[0] != '%' {
        assert(all =~= before.push(w));
    }
    if w == seq!['%', 'F'] || w == seq!['%', 'U'] {
        assert(w[1] != 'f' && w[1] != 'u');
        assert(seq!['%', 'f'][1] == 'f');
        assert(seq!['%', 'u'][1] == 'u');
    }
    if (w == seq!['%', 'f'] || w == seq!['%', 'u']) && paths.len() > 0 {
        assert(all =~= before.push(lossy(paths[0])));
    }
    if w.len() != 2 && w.len() > 0 && w[0] == '%' {
        assert(all =~= before);
    }
}

proof fn lemma_args_of_more(ws: Seq<Seq<char>>, w: Seq<char>, n: int, paths: Seq<Seq<u8>>)
    requires
        0 <= n <= ws.len(),
    ensures
        args_upto(ws.push(w), n, paths) == args_upto(ws, n, paths),
    decreases n,
{
    if n > 0 {
        lemma_args_of_more(ws, w, n - 1, paths);
    }
}

/// A command is cut into its words.
pub proof fn a_command_is_cut_into_words(line: Seq<char>, paths: Seq<Seq<u8>>)
    ensures
        argv_of(line, paths) == args_upto(words_of(line), words_of(line).len() as int, paths),
        words_of(line).len() == 0 ==> argv_of(line, paths).len() == 0,
{
}

/// What the user types as a command keeps its field codes; without any, all files
/// are handed over at its end.
pub proof fn typed_commands_get_the_files(cmd: Seq<char>)
    ensures
        trimmed(cmd).contains('%') ==> normalized(cmd) == trimmed(cmd),
        !trimmed(cmd).contains('%') ==> normalized(cmd).len() == trimmed(cmd).len() + 3
            && trimmed(cmd).is_prefix_of(normalized(cmd)) && normalized(cmd).last() == 'U',
        normalized(cmd).contains('%'),
{
    reveal_strlit(" %U");
    if !trimmed(cmd).contains('%') {
        let t = trimmed(cmd);
        let r = normalized(cmd);
        assert(t =~= r.subrange(0, t.len() as int));
        assert(r[t.len() as int + 1] == '%');
    }
}

/// A name that was looked up is remembered with the first answer.
pub proof fn the_first_answer_is_remembered(names: Seq<(String, Option<String>)>, mime: Seq<char>)
    ensures
        match cached(names, mime) {
            Some(n) => exists|i: int|
                0 <= i < names.len() && (#[trigger] names[i]).0@ == mime && opt_view(names[i].1)
                    == n && forall|k: int| 0 <= k < i ==> (#[trigger] names[k]).0@ != mime,
            None => forall|k: int| 0 <= k < names.len() ==> (#[trigger] names[k]).0@ != mime,
        },
    decreases names.len(),
{
    if names.len() > 0 && names[0].0@ != mime {
        let rest = names.skip(1);
        the_first_answer_is_remembered(rest, mime);
        match cached(names, mime) {
            Some(n) => {
                let i = choose|i: int|
                    0 <= i < rest.len() && (#[trigger] rest[i]).0@ == mime && opt_view(rest[i].1)
                        == n && forall|k: int| 0 <= k < i ==> (#[trigger] rest[k]).0@ != mime;
                assert(names[i + 1] == rest[i]);
                assert forall|k: int| 0 <= k < i + 1 implies (#[trigger] names[k]).0@ != mime by {
                    if k > 0 {
                        assert(names[k] == rest[k - 1]);
                    }
                }
            },
            None => {
                assert forall|k: int| 0 <= k < names.len() implies (#[trigger] names[k]).0@
                    != mime by {
                    if k > 0 {
                        assert(names[k] == rest[k - 1]);
                    }
                }
            },
        }
    }
}

/// The files that are opened are what is chosen without the folders.
pub proof fn folders_are_not_opened_with_programs(es: Seq<EntryView>, n: int)
    requires
        0 <= n <= es.len(),
    ensures
        exactly_those(
            files_among(es, n),
            n,
            |i: int| !(es[i].file_type is Directory),
            |i: int| es[i].path,
        ),
    decreases n,
{
    let keep = |i: int| !(es[i].file_type is Directory);
    let item = |i: int| es[i].path;
    if n > 0 {
        folders_are_not_opened_with_programs(es, n - 1);
        lemma_picked(files_among(es, n - 1), n - 1, keep, item);
    } else {
        lemma_picked_none(keep, item);
    }
}

/// The commands of the user come before the programs, the newest first, and are
/// recommended.
pub proof fn own_commands_come_first(apps: Seq<AppView>, custom: Seq<CustomApp>, i: int)
    requires
        0 <= i < custom.len(),
    ensures
        with_custom(apps, custom).len() == custom.len() + apps.len(),
        with_custom(apps, custom)[custom.len() - 1 - i].exec_line == custom[i].exec_line@,
        with_custom(apps, custom)[custom.len() - 1 - i].name == custom[i].name@,
        with_custom(apps, custom)[custom.len() - 1 - i].id == "custom:"@ + custom[i].exec_line@,
        with_custom(apps, custom)[custom.len() - 1 - i].recommended,
        with_custom(apps, custom).skip(custom.len() as int) == apps,
{
    assert(with_custom(apps, custom).skip(custom.len() as int) =~= apps);
    assert(with_custom(apps, custom)[custom.len() - 1 - i] == custom_app(custom[i]));
}

/// The program that is chosen is the first one of its name.
pub proof fn programs_are_found_by_their_name(apps: Seq<AppView>, id: Seq<char>)
    ensures
        0 <= app_at(apps, id) <= apps.len(),
        app_at(apps, id) < apps.len() ==> apps[app_at(apps, id)].id == id,
        forall|k: int| 0 <= k < app_at(apps, id) ==> (#[trigger] apps[k]).id != id,
    decreases apps.len(),
{
    if apps.len() > 0 && apps[0].id != id {
        let rest = apps.skip(1);
        programs_are_found_by_their_name(rest, id);
        let m = app_at(rest, id);
        assert forall|k: int| 0 <= k < m + 1 implies (#[trigger] apps[k]).id != id by {
            if k > 0 {
                assert(apps[k] == rest[k - 1]);
            }
        }
        if m < rest.len() {
            assert(rest[m] == apps[m + 1]);
        }
    }
}

/// The name alone is read as the whole entry is read, up to the end of its group.
pub proof fn the_name_is_read_as_the_entry(ls: Seq<Seq<char>>, n: int, lang: Option<Seq<char>>)
    requires
        0 <= n <= ls.len(),
        !read_lines(ls, n, lang).done,
    ensures
        names_upto(ls, n, lang) == (
            read_lines(ls, n, lang).name,
            read_lines(ls, n, lang).localized,
            read_lines(ls, n, lang).inside,
        ),
    decreases n,
{
    reveal_strlit("Name");
    reveal_strlit("Exec");
    reveal_strlit("Type");
    reveal_strlit("NoDisplay");
    reveal_strlit("Hidden");
    reveal_strlit("MimeType");
    reveal_strlit("Name[");
    if n > 0 {
        the_name_is_read_as_the_entry(ls, n - 1, lang);
        lemma_other_keys(lang);
    }
}

proof fn lemma_other_keys(lang: Option<Seq<char>>)
    ensures
        !localized_key("Exec"@, lang),
        !localized_key("Type"@, lang),
        !localized_key("NoDisplay"@, lang),
        !localized_key("Hidden"@, lang),
        !localized_key("MimeType"@, lang),
        "Exec"@ != "Name"@,
        "Type"@ != "Name"@,
        "NoDisplay"@ != "Name"@,
        "Hidden"@ != "Name"@,
        "MimeType"@ != "Name"@,
{
    reveal_strlit("Name");
    reveal_strlit("Exec");
    reveal_strlit("Type");
    reveal_strlit("NoDisplay");
    reveal_strlit("Hidden");
    reveal_strlit("MimeType");
    reveal_strlit("Name[");
    lemma_no_prefix("Exec"@, 0);
    lemma_no_prefix("Type"@, 0);
    lemma_no_prefix("NoDisplay"@, 1);
    lemma_no_prefix("Hidden"@, 0);
    lemma_no_prefix("MimeType"@, 0);
    assert("Exec"@[0] != "Name"@[0]);
    assert("Type"@[0] != "Name"@[0]);
    assert("NoDisplay"@[1] != "Name"@[1]);
    assert("Hidden"@[0] != "Name"@[0]);
    assert("MimeType"@[0] != "Name"@[0]);
}

proof fn lemma_no_prefix(key: Seq<char>, k: int)
    requires
        0 <= k < key.len(),
        k < "Name["@.len(),
        key[k] != "Name["@[k],
    ensures
        !"Name["@.is_prefix_of(key),
{
    let p = "Name["@;
    if p.is_prefix_of(key) {
        assert(p =~= key.subrange(0, p.len() as int));
        assert(p[k] == key.subrange(0, p.len() as int)[k]);
    }
}

/// A single file that is selected is opened as such; a folder or several are not.
pub proof fn a_single_file_is_opened(es: Seq<EntryView>, sel: Set<usize>)
    ensures
        single_file(es, sel) is Some ==> sel.len() == 1 && exists|i: int|
            0 <= i < es.len() && sel.contains(i as usize) && !((#[trigger] es[i]).file_type
                is Directory) && single_file(es, sel) == Some(es[i].path),
        sel.len() != 1 ==> single_file(es, sel) is None,
{
    let n = es.len() as int;
    let chosen = chosen_upto(es, sel, n);
    if single_file(es, sel) is Some {
        let keep = |i: int| sel.contains(i as usize);
        let item = |i: int| es[i];
        the_selected_entries_are_chosen(es, sel, n);
        assert(chosen.contains(chosen[0]));
        picked_items_are_those_kept(chosen, n, keep, item, chosen[0]);
        let i = choose|i: int| 0 <= i < n && #[trigger] keep(i) && item(i) == chosen[0];
        assert(es[i] == chosen[0]);
    }
}

/// Programs are searched for where the environment says, and without its word in
/// the two folders that every system has.
pub proof fn programs_are_searched_for_everywhere(v: Option<String>)
    ensures
        v is Some ==> search_path(v) == v->0@,
        v is None ==> search_path(v) == "/usr/local/share"@ + seq![':'] + "/usr/share"@,
{
    reveal_strlit("/usr/local/share:/usr/share");
    reveal_strlit("/usr/local/share");
    reveal_strlit("/usr/share");
    assert("/usr/local/share:/usr/share"@ =~= "/usr/local/share"@ + seq![':'] + "/usr/share"@);
}

/// The entry begins at its heading and ends at the next one; nothing else begins
/// it.
pub proof fn the_entry_stands_below_its_heading(
    s: EntryState,
    line: Seq<char>,
    lang: Option<Seq<char>>,
)
    requires
        !s.done,
    ensures
        !s.inside ==> with_line(s, "[Desktop Entry]"@, lang) == (EntryState { inside: true, ..s }),
        !s.inside && trimmed_end(line) != "[Desktop Entry]"@ ==> with_line(s, line, lang) == s,
        s.inside && trimmed_end(line).len() > 0 && trimmed_end(line)[0] == '[' && trimmed_end(
            line,
        ).last() == ']' ==> with_line(s, line, lang) == (EntryState { done: true, ..s }),
{
    reveal_strlit("[Desktop Entry]");
    let h = "[Desktop Entry]"@;
    assert(h[0] == '[' && h.last() == ']');
    assert(!white(h.last()));
    assert(trimmed_end(h) == h);
}

/// For the name of a program alone, the same heading counts.
pub proof fn names_stand_below_the_heading(
    ls: Seq<Seq<char>>,
    n: int,
    lang: Option<Seq<char>>,
)
    requires
        0 < n <= ls.len(),
    ensures
        trimmed_end(ls[n - 1]) == "[Desktop Entry]"@ ==> names_upto(ls, n, lang).2,
        names_upto(ls, n, lang).2 ==> names_upto(ls, n - 1, lang).2 || trimmed_end(ls[n - 1])
            == "[Desktop Entry]"@,
{
    reveal_strlit("[Desktop Entry]");
    let h = "[Desktop Entry]"@;
    assert(h[0] == '[' && h.last() == ']');
}

/// A file is one of a program exactly where its name ends so, and the program is
/// known by that name.
pub proof fn programs_are_known_by_the_name_of_their_file(p: Seq<u8>)
    ensures
        desktop_id(p) is Some <==> extension(p) == Some(encode_utf8("desktop"@)),
        desktop_id(p) is Some ==> file_name(p) is Some && desktop_id(p)->0 == lossy(
            file_name(p)->0,
        ),
{
}

/// A command of the user is remembered by what it runs, whatever it is called.
pub proof fn commands_are_remembered_by_what_they_run(apps: Seq<CustomApp>, i: int, line: Seq<char>)
    ensures
        0 <= i < apps.len() ==> remembered(apps, apps[i].exec_line@),
        (forall|k: int| 0 <= k < apps.len() ==> (#[trigger] apps[k]).exec_line@ != line)
            ==> !remembered(apps, line),
{
}

} // verus!
