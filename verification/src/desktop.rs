//! Applications: what their desktop files say, which of them open a file, and
//! how they are started.
use crate::copy_run::path_views;
use crate::file_ops::answered;
use crate::ordering::{inserted, ranked};
use crate::sort_select::text_before;
use crate::text::{
    ascii_lower, chars_of, contains_text, find_char, first_of, lines, lines_of, lowercase,
    opt_view, same_chars, same_text, split_at_char, split_char, split_once, split_once_at,
    starts_with, string_of, strip_prefix, strip_suffix, to_ascii_lowercase, to_lowercase, trim_end,
    trim_text, trimmed, trimmed_end, views, without_prefix, without_suffix, words, words_of,
};
use crate::unix_path::{extension, file_name, joined, lossy, lossy_text, same_bytes, UnixPath};
use crate::user_dirs::{config_dir, data_local_dir, opt_path};
use vstd::prelude::*;
use vstd::string::*;
use vstd::utf8::*;

verus! {

// ---------------------------------------------------------------------------
// Desktop files
// ---------------------------------------------------------------------------

/// The language part of a locale: what stands before the first `.` or `_`.
pub open spec fn lang_prefix(lang: Seq<char>) -> Option<Seq<char>> {
    let a = first_of(lang, '.');
    let b = first_of(lang, '_');
    let n = if a <= b {
        a
    } else {
        b
    };
    if n == 0 {
        None
    } else {
        Some(lang.take(n))
    }
}

/// The language part of the user's locale, if one is set.
pub fn current_lang_prefix(lang: &Option<String>) -> (r: Option<String>)
    ensures
        opt_view(r) == match *lang {
            Some(l) => lang_prefix(l@),
            None => None,
        },
{
    match lang {
        Some(l) => {
            let v = chars_of(l.as_str());
            let a: usize = match find_char(&v, '.') {
                Some(i) => i,
                None => v.len(),
            };
            let b: usize = match find_char(&v, '_') {
                Some(i) => i,
                None => v.len(),
            };
            let n: usize = if a <= b {
                a
            } else {
                b
            };
            if n == 0 {
                None
            } else {
                assert(v@.subrange(0, n as int) =~= v@.take(n as int));
                Some(string_of(&v[0..n]))
            }
        },
        None => None,
    }
}

/// Whether a key is a name in the given language, or in one of its variants.
pub open spec fn localized_key(key: Seq<char>, lang: Option<Seq<char>>) -> bool {
    match lang {
        Some(pref) => match without_prefix(key, "Name["@) {
            Some(rest) => match without_suffix(rest, "]"@) {
                Some(locale) => locale == pref || (pref + "_"@).is_prefix_of(locale),
                None => false,
            },
            None => false,
        },
        None => false,
    }
}

/// The parts of a list between semicolons that are not empty.
pub open spec fn list_items(value: Seq<char>) -> Seq<Seq<char>> {
    non_empty(split_at_char(value, ';'), split_at_char(value, ';').len() as int)
}

/// Those of the first `n` parts that are not empty.
pub open spec fn non_empty(parts: Seq<Seq<char>>, n: int) -> Seq<Seq<char>>
    decreases n,
{
    if n <= 0 {
        Seq::empty()
    } else if parts[n - 1].len() == 0 {
        non_empty(parts, n - 1)
    } else {
        non_empty(parts, n - 1).push(parts[n - 1])
    }
}

/// What was read of a desktop file.
#[verifier::ext_equal]
pub struct EntryState {
    /// Whether the lines at hand belong to the entry.
    pub inside: bool,
    /// Whether the entry was left.
    pub done: bool,
    pub name: Option<Seq<char>>,
    pub localized: Option<Seq<char>>,
    pub exec_line: Option<Seq<char>>,
    pub is_app: bool,
    pub hidden: bool,
    pub mime_types: Seq<Seq<char>>,
}

/// Whether a line, without space at its end, names a group.
pub open spec fn names_group(t: Seq<char>) -> bool {
    t.len() > 0 && t[0] == '[' && t.last() == ']'
}

/// What a key and its value add to what was read.
pub open spec fn with_key(
    s: EntryState,
    key: Seq<char>,
    value: Seq<char>,
    lang: Option<Seq<char>>,
) -> EntryState {
    if key == "Name"@ {
        EntryState { name: Some(value), ..s }
    } else if key == "Exec"@ {
        EntryState { exec_line: Some(value), ..s }
    } else if key == "Type"@ {
        EntryState { is_app: value == "Application"@, ..s }
    } else if key == "NoDisplay"@ || key == "Hidden"@ {
        EntryState { hidden: s.hidden || ascii_lower(value) == "true"@, ..s }
    } else if key == "MimeType"@ {
        EntryState { mime_types: list_items(value), ..s }
    } else if localized_key(key, lang) {
        EntryState { localized: Some(value), ..s }
    } else {
        s
    }
}

/// What a line adds to what was read. Only the first group that is the desktop
/// entry counts.
pub open spec fn with_line(s: EntryState, line: Seq<char>, lang: Option<Seq<char>>) -> EntryState {
    let t = trimmed_end(line);
    if s.done {
        s
    } else if names_group(t) {
        if s.inside {
            EntryState { done: true, ..s }
        } else {
            EntryState { inside: t == "[Desktop Entry]"@, ..s }
        }
    } else if !s.inside || t.len() == 0 || t[0] == '#' {
        s
    } else {
        match split_once_at(t, '=') {
            Some((key, value)) => with_key(s, key, value, lang),
            None => s,
        }
    }
}

/// Nothing read yet.
pub open spec fn nothing_read() -> EntryState {
    EntryState {
        inside: false,
        done: false,
        name: None,
        localized: None,
        exec_line: None,
        is_app: false,
        hidden: false,
        mime_types: Seq::empty(),
    }
}

/// What the first `n` lines say.
pub open spec fn read_lines(ls: Seq<Seq<char>>, n: int, lang: Option<Seq<char>>) -> EntryState
    decreases n,
{
    if n <= 0 {
        nothing_read()
    } else {
        with_line(read_lines(ls, n - 1, lang), ls[n - 1], lang)
    }
}

/// What the text of a desktop file says.
pub open spec fn read_entry(text: Seq<char>, lang: Option<Seq<char>>) -> EntryState {
    read_lines(lines_of(text), lines_of(text).len() as int, lang)
}

/// What the picker needs of a desktop file.
#[derive(Debug)]
pub struct DesktopEntry {
    pub name: String,
    pub exec_line: String,
    pub mime_types: Vec<String>,
    pub show: bool,
}

struct Reading {
    inside: bool,
    done: bool,
    name: Option<String>,
    localized: Option<String>,
    exec_line: Option<String>,
    is_app: bool,
    hidden: bool,
    mime_types: Vec<String>,
}

impl Reading {
    spec fn state(&self) -> EntryState {
        EntryState {
            inside: self.inside,
            done: self.done,
            name: opt_view(self.name),
            localized: opt_view(self.localized),
            exec_line: opt_view(self.exec_line),
            is_app: self.is_app,
            hidden: self.hidden,
            mime_types: views(self.mime_types@),
        }
    }

    fn take_key(&mut self, key: &[char], value: &[char], lang: &Option<String>)
        ensures
            final(self).state() == with_key(old(self).state(), key@, value@, opt_view(*lang)),
    {
        if same_chars(key, &chars_of("Name")) {
            self.name = Some(string_of(value));
        } else if same_chars(key, &chars_of("Exec")) {
            self.exec_line = Some(string_of(value));
        } else if same_chars(key, &chars_of("Type")) {
            self.is_app = same_chars(value, &chars_of("Application"));
        } else if same_chars(key, &chars_of("NoDisplay")) || same_chars(key, &chars_of("Hidden")) {
            let lower = to_ascii_lowercase(string_of(value).as_str());
            self.hidden = self.hidden || same_text(lower.as_str(), "true");
        } else if same_chars(key, &chars_of("MimeType")) {
            self.mime_types = split_list(value);
        } else if is_localized_key(key, lang) {
            self.localized = Some(string_of(value));
        }
        assert(self.state() =~= with_key(old(self).state(), key@, value@, opt_view(*lang)));
    }

    fn take_line(&mut self, line: &[char], lang: &Option<String>)
        ensures
            final(self).state() == with_line(old(self).state(), line@, opt_view(*lang)),
    {
        let t = trim_end(line);
        if self.done {
            return ;
        }
        if t.len() > 0 && t[0] == '[' && t[t.len() - 1] == ']' {
            if self.inside {
                self.done = true;
            } else {
                self.inside = same_chars(t, &chars_of("[Desktop Entry]"));
            }
        } else if self.inside && t.len() > 0 && t[0] != '#' {
            if let Some((key, value)) = split_once(t, '=') {
                self.take_key(key, value, lang);
            }
        }
        assert(self.state() =~= with_line(old(self).state(), line@, opt_view(*lang)));
    }
}

fn split_list(value: &[char]) -> (r: Vec<String>)
    ensures
        views(r@) == list_items(value@),
{
    let parts = split_char(value, ';');
    let ghost ps = split_at_char(value@, ';');
    let mut r: Vec<String> = Vec::new();
    let mut i: usize = 0;
    assert(views(r@) =~= non_empty(ps, 0));
    while i < parts.len()
        invariant
            i <= parts@.len(),
            parts@.len() == ps.len(),
            forall|k: int| 0 <= k < parts@.len() ==> (#[trigger] parts@[k])@ == ps[k],
            views(r@) == non_empty(ps, i as int),
        decreases parts@.len() - i,
    {
        if parts[i].len() > 0 {
            let ghost before = r@;
            r.push(string_of(&parts[i]));
            assert(views(r@) =~= views(before).push(ps[i as int]));
        }
        i += 1;
    }
    r
}

fn is_localized_key(key: &[char], lang: &Option<String>) -> (r: bool)
    ensures
        r == localized_key(key@, opt_view(*lang)),
{
    match lang {
        Some(pref) => {
            if let Some(rest) = strip_prefix(key, "Name[") {
                if let Some(locale) = strip_suffix(rest, "]") {
                    let p = chars_of(pref.as_str());
                    let mut variant = pref.clone();
                    variant.append("_");
                    let v = chars_of(variant.as_str());
                    return same_chars(locale, &p) || starts_with(locale, &v);
                }
            }
            false
        },
        None => false,
    }
}

fn read_text(text: &str, lang: &Option<String>) -> (r: Reading)
    ensures
        r.state() == read_entry(text@, opt_view(*lang)),
{
    let all = lines(&chars_of(text));
    let ghost ls = lines_of(text@);
    let mut r = Reading {
        inside: false,
        done: false,
        name: None,
        localized: None,
        exec_line: None,
        is_app: false,
        hidden: false,
        mime_types: Vec::new(),
    };
    let mut i: usize = 0;
    assert(r.state() =~= nothing_read());
    while i < all.len()
        invariant
            i <= all@.len(),
            all@.len() == ls.len(),
            ls == lines_of(text@),
            forall|k: int| 0 <= k < all@.len() ==> (#[trigger] all@[k])@ == ls[k],
            r.state() == read_lines(ls, i as int, opt_view(*lang)),
        decreases all@.len() - i,
    {
        r.take_line(&all[i], lang);
        i += 1;
    }
    r
}

/// The first of two optional texts that is there.
pub open spec fn first_some(a: Option<Seq<char>>, b: Option<Seq<char>>) -> Option<Seq<char>> {
    if a is Some {
        a
    } else {
        b
    }
}

/// Reads the desktop entry of a file; nothing for one that starts no program.
pub fn parse_desktop_entry(text: &str, lang: &Option<String>) -> (r: Option<DesktopEntry>)
    ensures
        ({
            let s = read_entry(text@, opt_view(*lang));
            match s.exec_line {
                Some(x) => if trimmed(x).len() == 0 {
                    r is None
                } else {
                    &&& r is Some
                    &&& r->0.name@ == match first_some(s.localized, s.name) {
                        Some(n) => n,
                        None => "(unnamed)"@,
                    }
                    &&& r->0.exec_line@ == x
                    &&& views(r->0.mime_types@) == s.mime_types
                    &&& r->0.show == (s.is_app && !s.hidden)
                },
                None => r is None,
            }
        }),
{
    let s = read_text(text, lang);
    let exec_line = match s.exec_line {
        Some(x) => x,
        None => {
            return None;
        },
    };
    if trim_text(exec_line.as_str()).as_str().is_empty() {
        return None;
    }
    let name: String = match (s.localized, s.name) {
        (Some(l), _) => l,
        (None, Some(n)) => n,
        (None, None) => "(unnamed)".to_owned(),
    };
    Some(DesktopEntry { name, exec_line, mime_types: s.mime_types, show: s.is_app && !s.hidden })
}

/// The plain and the localized name in the first `n` lines, in any desktop
/// entry group, and whether the lines end in such a group.
pub open spec fn names_upto(ls: Seq<Seq<char>>, n: int, lang: Option<Seq<char>>) -> (
    Option<Seq<char>>,
    Option<Seq<char>>,
    bool,
)
    decreases n,
{
    if n <= 0 {
        (None, None, false)
    } else {
        let (plain, localized, inside) = names_upto(ls, n - 1, lang);
        let t = trimmed_end(ls[n - 1]);
        if names_group(t) {
            (plain, localized, t == "[Desktop Entry]"@)
        } else if !inside || t.len() == 0 || t[0] == '#' {
            (plain, localized, inside)
        } else {
            match split_once_at(t, '=') {
                Some((key, value)) => if key == "Name"@ {
                    (Some(value), localized, inside)
                } else if localized_key(key, lang) {
                    (plain, Some(value), inside)
                } else {
                    (plain, localized, inside)
                },
                None => (plain, localized, inside),
            }
        }
    }
}

/// The name that a desktop file gives its application: the one in the user's
/// language, else the plain one.
pub fn parse_desktop_name(text: &str, lang: &Option<String>) -> (r: Option<String>)
    ensures
        ({
            let (plain, localized, _) = names_upto(
                lines_of(text@),
                lines_of(text@).len() as int,
                opt_view(*lang),
            );
            opt_view(r) == first_some(localized, plain)
        }),
{
    let all = lines(&chars_of(text));
    let ghost ls = lines_of(text@);
    let ghost lg = opt_view(*lang);
    let mut plain: Option<String> = None;
    let mut localized: Option<String> = None;
    let mut inside: bool = false;
    let mut i: usize = 0;
    while i < all.len()
        invariant
            i <= all@.len(),
            all@.len() == ls.len(),
            ls == lines_of(text@),
            lg == opt_view(*lang),
            forall|k: int| 0 <= k < all@.len() ==> (#[trigger] all@[k])@ == ls[k],
            (opt_view(plain), opt_view(localized), inside) == names_upto(ls, i as int, lg),
        decreases all@.len() - i,
    {
        let t = trim_end(&all[i]);
        if t.len() > 0 && t[0] == '[' && t[t.len() - 1] == ']' {
            inside = same_chars(t, &chars_of("[Desktop Entry]"));
        } else if inside && t.len() > 0 && t[0] != '#' {
            if let Some((key, value)) = split_once(t, '=') {
                if same_chars(key, &chars_of("Name")) {
                    plain = Some(string_of(value));
                } else if is_localized_key(key, lang) {
                    localized = Some(string_of(value));
                }
            }
        }
        i += 1;
    }
    match localized {
        Some(l) => Some(l),
        None => plain,
    }
}

// ---------------------------------------------------------------------------
// Installed applications
// ---------------------------------------------------------------------------

/// An application that a file can be opened with.
#[derive(Debug)]
pub struct DesktopApp {
    /// The name of its desktop file.
    pub id: String,
    pub name: String,
    /// The command line, with field codes.
    pub exec_line: String,
    /// Whether it says that it opens the type of file.
    pub recommended: bool,
}

/// An application in mathematical terms.
pub struct AppView {
    pub id: Seq<char>,
    pub name: Seq<char>,
    pub exec_line: Seq<char>,
    pub recommended: bool,
}

impl View for DesktopApp {
    type V = AppView;

    open spec fn view(&self) -> AppView {
        AppView {
            id: self.id@,
            name: self.name@,
            exec_line: self.exec_line@,
            recommended: self.recommended,
        }
    }
}

/// The views of a list of applications.
pub open spec fn app_views(v: Seq<DesktopApp>) -> Seq<AppView> {
    v.map_values(|a: DesktopApp| a@)
}

/// A file of an application directory, with its text where it could be read.
#[derive(Debug)]
pub struct DesktopFile {
    pub path: UnixPath,
    pub text: Option<String>,
}

/// The identifier of a desktop file: its name, if that has the right extension.
pub open spec fn desktop_id(p: Seq<u8>) -> Option<Seq<char>> {
    if extension(p) == Some(encode_utf8("desktop"@)) {
        match file_name(p) {
            Some(n) => Some(lossy(n)),
            None => None,
        }
    } else {
        None
    }
}

/// The application of a desktop file, if it is to be shown.
pub open spec fn app_of(
    f: DesktopFile,
    id: Seq<char>,
    mime: Option<Seq<char>>,
    lang: Option<Seq<char>>,
) -> Option<AppView> {
    match f.text {
        Some(text) => {
            let s = read_entry(text@, lang);
            match s.exec_line {
                Some(x) => if trimmed(x).len() == 0 || !s.is_app || s.hidden {
                    None
                } else {
                    Some(
                        AppView {
                            id,
                            name: match first_some(s.localized, s.name) {
                                Some(n) => n,
                                None => "(unnamed)"@,
                            },
                            exec_line: x,
                            recommended: mime matches Some(m) && s.mime_types.contains(m),
                        },
                    )
                },
                None => None,
            }
        },
        None => None,
    }
}

/// The identifiers among the first `n` files.
pub open spec fn ids_upto(fs: Seq<DesktopFile>, n: int) -> Set<Seq<char>>
    decreases n,
{
    if n <= 0 {
        Set::empty()
    } else {
        match desktop_id(fs[n - 1].path@) {
            Some(id) => ids_upto(fs, n - 1).insert(id),
            None => ids_upto(fs, n - 1),
        }
    }
}

/// The applications of the first `n` files. The first file with an identifier
/// hides the later ones, whatever it says.
pub open spec fn apps_upto(
    fs: Seq<DesktopFile>,
    n: int,
    mime: Option<Seq<char>>,
    lang: Option<Seq<char>>,
) -> Seq<AppView>
    decreases n,
{
    if n <= 0 {
        Seq::empty()
    } else {
        let before = apps_upto(fs, n - 1, mime, lang);
        match desktop_id(fs[n - 1].path@) {
            Some(id) => if ids_upto(fs, n - 1).contains(id) {
                before
            } else {
                match app_of(fs[n - 1], id, mime, lang) {
                    Some(a) => before.push(a),
                    None => before,
                }
            },
            None => before,
        }
    }
}

/// Orders applications: recommended ones first, then by name in lower case.
pub open spec fn by_recommendation() -> spec_fn(AppView, AppView) -> bool {
    |a: AppView, b: AppView|
        if a.recommended != b.recommended {
            a.recommended
        } else {
            text_before(lowercase(a.name), lowercase(b.name))
        }
}

fn desktop_id_of(p: &UnixPath) -> (r: Option<String>)
    ensures
        opt_view(r) == desktop_id(p@),
{
    match p.extension() {
        Some(e) => {
            if same_bytes(&e, "desktop".as_bytes()) {
                match p.file_name() {
                    Some(n) => Some(lossy_text(&n)),
                    None => None,
                }
            } else {
                assert(extension(p@) != Some(encode_utf8("desktop"@)));
                None
            }
        },
        None => None,
    }
}

fn make_app(f: &DesktopFile, id: &String, mime: &Option<String>, lang: &Option<String>) -> (r:
    Option<DesktopApp>)
    ensures
        app_of(*f, id@, opt_view(*mime), opt_view(*lang)) == match r {
            Some(a) => Some(a@),
            None => None,
        },
{
    match &f.text {
        Some(text) => {
            match parse_desktop_entry(text.as_str(), lang) {
                Some(de) => {
                    if !de.show {
                        return None;
                    }
                    let recommended: bool = match mime {
                        Some(m) => contains_text(&de.mime_types, m.as_str()),
                        None => false,
                    };
                    Some(
                        DesktopApp { id: id.clone(), name: de.name, exec_line: de.exec_line, recommended },
                    )
                },
                None => None,
            }
        },
        None => None,
    }
}

fn app_before(a: &DesktopApp, b: &DesktopApp) -> (r: bool)
    ensures
        r == by_recommendation()(a@, b@),
{
    if a.recommended != b.recommended {
        a.recommended
    } else {
        crate::devices::is_text_before(
            to_lowercase(a.name.as_str()).as_str(),
            to_lowercase(b.name.as_str()).as_str(),
        )
    }
}

fn insert_app(v: &mut Vec<DesktopApp>, d: DesktopApp)
    ensures
        app_views(final(v)@) == inserted(app_views(old(v)@), d@, by_recommendation()),
{
    let ghost s = app_views(v@);
    let ghost before = by_recommendation();
    let n: usize = v.len();
    let mut at: usize = n;
    assert(s.take(n as int) =~= s);
    assert(s.skip(n as int) =~= Seq::empty());
    assert(inserted(s, d@, before) =~= inserted(s.take(n as int), d@, before) + s.skip(n as int));
    while at > 0 && app_before(&d, &v[at - 1])
        invariant
            at <= n,
            n == v@.len(),
            v@ == old(v)@,
            s == app_views(v@),
            before == by_recommendation(),
            inserted(s, d@, before) == inserted(s.take(at as int), d@, before) + s.skip(
                at as int,
            ),
        decreases at,
    {
        proof {
            let t = s.take(at as int);
            assert(t.last() == v@[at - 1]@);
            assert(t.drop_last() =~= s.take(at - 1));
            let m = inserted(t.drop_last(), d@, before);
            assert(m.push(t.last()) + s.skip(at as int) =~= m + s.skip(at - 1));
        }
        at -= 1;
    }
    proof {
        let t = s.take(at as int);
        if at > 0 {
            assert(t.last() == v@[at - 1]@);
        }
        assert(inserted(t, d@, before) == t.push(d@));
    }
    v.insert(at, d);
    assert(app_views(v@) =~= s.take(at as int).push(d@) + s.skip(at as int));
}

/// The applications that a file of the given type can be opened with. `files`
/// are the files of the application directories, in their order of precedence.
pub fn apps_for_mime(files: &Vec<DesktopFile>, mime: &Option<String>, lang: &Option<String>) -> (r:
    Vec<DesktopApp>)
    ensures
        app_views(r@) == ranked(
            apps_upto(files@, files@.len() as int, opt_view(*mime), opt_view(*lang)),
            by_recommendation(),
        ),
{
    let ghost m = opt_view(*mime);
    let ghost lg = opt_view(*lang);
    let mut seen: Vec<String> = Vec::new();
    let mut out: Vec<DesktopApp> = Vec::new();
    let mut i: usize = 0;
    assert(app_views(out@) =~= ranked(apps_upto(files@, 0, m, lg), by_recommendation()));
    while i < files.len()
        invariant
            i <= files@.len(),
            m == opt_view(*mime),
            lg == opt_view(*lang),
            forall|x: Seq<char>| #[trigger]
                views(seen@).contains(x) <==> ids_upto(files@, i as int).contains(x),
            app_views(out@) == ranked(apps_upto(files@, i as int, m, lg), by_recommendation()),
        decreases files@.len() - i,
    {
        if let Some(id) = desktop_id_of(&files[i].path) {
            if !contains_text(&seen, id.as_str()) {
                if let Some(a) = make_app(&files[i], &id, mime, lang) {
                    proof {
                        let before = apps_upto(files@, i as int, m, lg);
                        assert(before.push(a@).drop_last() =~= before);
                        assert(before.push(a@).last() == a@);
                    }
                    insert_app(&mut out, a);
                }
                let ghost old_seen = seen@;
                seen.push(id);
                proof {
                    assert(views(seen@) =~= views(old_seen).push(id@));
                    assert forall|x: Seq<char>| #[trigger]
                        views(seen@).contains(x) <==> ids_upto(files@, i + 1).contains(x) by {
                        vstd::seq_lib::lemma_seq_contains_after_push(views(old_seen), id@, x);
                        assert(views(old_seen).contains(x) <==> ids_upto(
                            files@,
                            i as int,
                        ).contains(x));
                    }
                }
            } else {
                assert(ids_upto(files@, i + 1) =~= ids_upto(files@, i as int));
            }
        }
        i += 1;
    }
    out
}

// ---------------------------------------------------------------------------
// Directories
// ---------------------------------------------------------------------------

/// The directories of the first `n` parts of a search path that are not empty.
pub open spec fn dirs_upto(parts: Seq<Seq<char>>, n: int) -> Seq<Seq<u8>>
    decreases n,
{
    if n <= 0 {
        Seq::empty()
    } else if parts[n - 1].len() == 0 {
        dirs_upto(parts, n - 1)
    } else {
        dirs_upto(parts, n - 1).push(
            joined(encode_utf8(parts[n - 1]), encode_utf8("applications"@)),
        )
    }
}

/// The application directories in their order of precedence.
pub open spec fn app_dirs(data: Option<Seq<u8>>, search: Seq<char>) -> Seq<Seq<u8>> {
    let own = match data {
        Some(d) => seq![joined(d, encode_utf8("applications"@))],
        None => Seq::empty(),
    };
    let parts = split_at_char(search, ':');
    own + dirs_upto(parts, parts.len() as int) + seq![
        encode_utf8("/usr/local/share/applications"@),
        encode_utf8("/usr/share/applications"@),
    ]
}

/// The search path of the environment, or the usual one.
pub open spec fn search_path(v: Option<String>) -> Seq<char> {
    match v {
        Some(s) => s@,
        None => "/usr/local/share:/usr/share"@,
    }
}

/// The application directories for a data directory and a search path.
pub fn application_dirs_in(data: &Option<UnixPath>, xdg_data_dirs: &Option<String>) -> (r: Vec<
    UnixPath,
>)
    ensures
        path_views(r@) == app_dirs(opt_path(*data), search_path(*xdg_data_dirs)),
{
    let mut out: Vec<UnixPath> = Vec::new();
    if let Some(d) = data {
        out.push(d.join("applications"));
    }
    let ghost own = path_views(out@);
    assert(own =~= match opt_path(*data) {
        Some(d) => seq![joined(d, encode_utf8("applications"@))],
        None => Seq::empty(),
    });
    let search: String = match xdg_data_dirs {
        Some(s) => s.clone(),
        None => "/usr/local/share:/usr/share".to_owned(),
    };
    let parts = split_char(&chars_of(search.as_str()), ':');
    let ghost ps = split_at_char(search@, ':');
    let mut i: usize = 0;
    assert(path_views(out@) =~= own + dirs_upto(ps, 0));
    while i < parts.len()
        invariant
            i <= parts@.len(),
            parts@.len() == ps.len(),
            forall|k: int| 0 <= k < parts@.len() ==> (#[trigger] parts@[k])@ == ps[k],
            path_views(out@) == own + dirs_upto(ps, i as int),
        decreases parts@.len() - i,
    {
        let ghost before = out@;
        if parts[i].len() > 0 {
            let d = UnixPath::new(string_of(&parts[i]).as_str()).join("applications");
            out.push(d);
            assert(path_views(out@) =~= path_views(before).push(d@));
        }
        assert(path_views(out@) =~= own + dirs_upto(ps, i + 1));
        i += 1;
    }
    out.push(UnixPath::new("/usr/local/share/applications"));
    out.push(UnixPath::new("/usr/share/applications"));
    assert(ps == split_at_char(search_path(*xdg_data_dirs), ':'));
    assert(path_views(out@) =~= app_dirs(opt_path(*data), search_path(*xdg_data_dirs)));
    out
}

/// The application directories of the user, for the search path of the
/// environment.
pub fn application_dirs(xdg_data_dirs: &Option<String>) -> (r: Vec<UnixPath>)
    ensures
        exists|data: Option<Seq<u8>>|
            path_views(r@) == #[trigger] app_dirs(data, search_path(*xdg_data_dirs)),
{
    let data = data_local_dir();
    application_dirs_in(&data, xdg_data_dirs)
}

/// The lists of defaults in their order of precedence.
pub open spec fn default_lists(config: Option<Seq<u8>>, data: Option<Seq<u8>>) -> Seq<Seq<u8>> {
    let a = match config {
        Some(c) => seq![joined(c, encode_utf8("mimeapps.list"@))],
        None => Seq::empty(),
    };
    let b = match data {
        Some(d) => seq![
            joined(joined(d, encode_utf8("applications"@)), encode_utf8("mimeapps.list"@)),
        ],
        None => Seq::empty(),
    };
    a + b + seq![
        encode_utf8("/usr/local/share/applications/mimeapps.list"@),
        encode_utf8("/usr/share/applications/mimeapps.list"@),
    ]
}

/// The lists of defaults for a configuration and a data directory.
pub fn mimeapps_lists_in(config: &Option<UnixPath>, data: &Option<UnixPath>) -> (r: Vec<UnixPath>)
    ensures
        path_views(r@) == default_lists(opt_path(*config), opt_path(*data)),
{
    let mut out: Vec<UnixPath> = Vec::new();
    if let Some(c) = config {
        out.push(c.join("mimeapps.list"));
    }
    if let Some(d) = data {
        out.push(d.join("applications").join("mimeapps.list"));
    }
    out.push(UnixPath::new("/usr/local/share/applications/mimeapps.list"));
    out.push(UnixPath::new("/usr/share/applications/mimeapps.list"));
    assert(path_views(out@) =~= default_lists(opt_path(*config), opt_path(*data)));
    out
}

/// The lists of defaults of the user.
pub fn mimeapps_list_candidates() -> (r: Vec<UnixPath>)
    ensures
        exists|config: Option<Seq<u8>>, data: Option<Seq<u8>>|
            path_views(r@) == #[trigger] default_lists(config, data),
{
    let config = config_dir();
    let data = data_local_dir();
    mimeapps_lists_in(&config, &data)
}

/// The default in the first `n` texts from `i` on: the first that gives one.
pub open spec fn first_default(texts: Seq<Option<String>>, mime: Seq<char>) -> Option<Seq<char>>
    decreases texts.len(),
{
    if texts.len() == 0 {
        None
    } else {
        let here = match texts[0] {
            Some(t) => crate::mimeapps::default_in(lines_of(t@), mime, false),
            None => None,
        };
        if here is Some {
            here
        } else {
            first_default(texts.skip(1), mime)
        }
    }
}

/// The default application for a MIME type: the first that one of the lists
/// gives. A list that could not be read gives none.
pub fn default_desktop_id(texts: &Vec<Option<String>>, mime: &str) -> (r: Option<String>)
    ensures
        opt_view(r) == first_default(texts@, mime@),
{
    let mut i: usize = 0;
    assert(texts@.skip(0) =~= texts@);
    while i < texts.len()
        invariant
            i <= texts@.len(),
            first_default(texts@, mime@) == first_default(texts@.skip(i as int), mime@),
        decreases texts@.len() - i,
    {
        assert(texts@.skip(i as int)[0] == texts@[i as int]);
        assert(texts@.skip(i as int).skip(1) =~= texts@.skip(i + 1));
        if let Some(t) = &texts[i] {
            let id = crate::mimeapps::parse_mimeapps_default(t.as_str(), mime);
            if id.is_some() {
                return id;
            }
        }
        i += 1;
    }
    None
}

/// A text with dashes turned into slashes.
pub open spec fn slashed(s: Seq<char>) -> Seq<char> {
    s.map_values(
        |c: char|
            if c == '-' {
                '/'
            } else {
                c
            },
    )
}

/// Where the desktop file of an application may lie: in each directory under
/// its identifier, or with the dashes of the identifier as directories.
pub open spec fn file_candidates(dirs: Seq<Seq<u8>>, id: Seq<char>, n: int) -> Seq<Seq<u8>>
    decreases n,
{
    if n <= 0 {
        Seq::empty()
    } else {
        let before = file_candidates(dirs, id, n - 1).push(
            joined(dirs[n - 1], encode_utf8(id)),
        );
        if id.contains('-') {
            before.push(joined(dirs[n - 1], encode_utf8(slashed(id))))
        } else {
            before
        }
    }
}

/// Where the desktop file of an application may lie.
pub fn desktop_file_candidates(dirs: &Vec<UnixPath>, id: &str) -> (r: Vec<UnixPath>)
    ensures
        path_views(r@) == file_candidates(path_views(dirs@), id@, dirs@.len() as int),
{
    let ghost ds = path_views(dirs@);
    let v = chars_of(id);
    let dashed: bool = find_char(&v, '-').is_some();
    let mut w: Vec<char> = Vec::new();
    let mut k: usize = 0;
    while k < v.len()
        invariant
            k <= v@.len(),
            w@.len() == k,
            forall|m: int|
                0 <= m < k ==> w@[m] == if v@[m] == '-' {
                    '/'
                } else {
                    v@[m]
                },
        decreases v@.len() - k,
    {
        if v[k] == '-' {
            w.push('/');
        } else {
            w.push(v[k]);
        }
        k += 1;
    }
    assert(w@ =~= slashed(id@));
    proof {
        crate::text::lemma_first_of(v@, '-');
        if dashed {
            assert(v@.contains(v@[first_of(v@, '-')]));
        }
    }
    let nested = string_of(&w);
    let mut out: Vec<UnixPath> = Vec::new();
    let mut i: usize = 0;
    assert(path_views(out@) =~= file_candidates(ds, id@, 0));
    while i < dirs.len()
        invariant
            i <= dirs@.len(),
            ds == path_views(dirs@),
            dashed == id@.contains('-'),
            nested@ == slashed(id@),
            path_views(out@) == file_candidates(ds, id@, i as int),
        decreases dirs@.len() - i,
    {
        assert(ds[i as int] == dirs@[i as int]@);
        let ghost before = path_views(out@);
        let p = dirs[i].join(id);
        out.push(p);
        assert(path_views(out@) =~= before.push(p@));
        if dashed {
            let q = dirs[i].join(nested.as_str());
            out.push(q);
            assert(path_views(out@) =~= before.push(p@).push(q@));
        }
        i += 1;
    }
    out
}

/// The desktop file of an application: the first candidate that is a file.
pub fn find_desktop_file<F: Fn(&UnixPath) -> bool>(dirs: &Vec<UnixPath>, id: &str, is_file: F) -> (r:
    Option<UnixPath>)
    requires
        forall|q: UnixPath| call_requires(is_file, (&q,)),
    ensures
        ({
            let cs = file_candidates(path_views(dirs@), id@, dirs@.len() as int);
            match r {
                Some(p) => exists|i: int|
                    0 <= i < cs.len() && p@ == #[trigger] cs[i] && answered(is_file, cs[i], true)
                        && forall|k: int|
                        0 <= k < i ==> answered(is_file, #[trigger] cs[k], false),
                None => forall|k: int|
                    0 <= k < cs.len() ==> answered(is_file, #[trigger] cs[k], false),
            }
        }),
{
    let all = desktop_file_candidates(dirs, id);
    let ghost cs = file_candidates(path_views(dirs@), id@, dirs@.len() as int);
    let mut i: usize = 0;
    while i < all.len()
        invariant
            i <= all@.len(),
            cs == path_views(all@),
            cs == file_candidates(path_views(dirs@), id@, dirs@.len() as int),
            forall|q: UnixPath| call_requires(is_file, (&q,)),
            forall|k: int| 0 <= k < i ==> answered(is_file, #[trigger] cs[k], false),
        decreases all@.len() - i,
    {
        assert(cs[i as int] == all@[i as int]@);
        if is_file(&all[i]) {
            assert(answered(is_file, cs[i as int], true));
            return Some(all[i].clone());
        }
        assert(answered(is_file, cs[i as int], false));
        i += 1;
    }
    None
}

// ---------------------------------------------------------------------------
// Starting
// ---------------------------------------------------------------------------

/// The views of paths as text.
pub open spec fn path_texts(paths: Seq<Seq<u8>>) -> Seq<Seq<char>> {
    paths.map_values(|p: Seq<u8>| lossy(p))
}

/// The arguments that one word of a command line stands for: field codes for a
/// file or for files are replaced, other codes dropped.
pub open spec fn word_args(w: Seq<char>, paths: Seq<Seq<u8>>) -> Seq<Seq<char>> {
    if w == "%f"@ || w == "%u"@ {
        if paths.len() > 0 {
            seq![lossy(paths[0])]
        } else {
            Seq::empty()
        }
    } else if w == "%F"@ || w == "%U"@ {
        path_texts(paths)
    } else if w.len() > 0 && w[0] == '%' {
        Seq::empty()
    } else {
        seq![w]
    }
}

/// The arguments of the first `n` words.
pub open spec fn args_upto(ws: Seq<Seq<char>>, n: int, paths: Seq<Seq<u8>>) -> Seq<Seq<char>>
    decreases n,
{
    if n <= 0 {
        Seq::empty()
    } else {
        args_upto(ws, n - 1, paths) + word_args(ws[n - 1], paths)
    }
}

/// The program and arguments of a command line applied to paths.
pub open spec fn argv_of(exec_line: Seq<char>, paths: Seq<Seq<u8>>) -> Seq<Seq<char>> {
    args_upto(words_of(exec_line), words_of(exec_line).len() as int, paths)
}

/// The program and arguments of a command line applied to paths.
pub fn build_argv(exec_line: &str, paths: &Vec<UnixPath>) -> (r: Vec<String>)
    ensures
        views(r@) == argv_of(exec_line@, path_views(paths@)),
{
    let ws = words(&chars_of(exec_line));
    let ghost spec_ws = words_of(exec_line@);
    let ghost ps = path_views(paths@);
    let mut out: Vec<String> = Vec::new();
    let mut i: usize = 0;
    assert(views(out@) =~= args_upto(spec_ws, 0, ps));
    while i < ws.len()
        invariant
            i <= ws@.len(),
            ws@.len() == spec_ws.len(),
            ps == path_views(paths@),
            forall|k: int| 0 <= k < ws@.len() ==> (#[trigger] ws@[k])@ == spec_ws[k],
            views(out@) == args_upto(spec_ws, i as int, ps),
        decreases ws@.len() - i,
    {
        let w: &[char] = &ws[i];
        let ghost before = views(out@);
        if same_chars(w, &chars_of("%f")) || same_chars(w, &chars_of("%u")) {
            if paths.len() > 0 {
                assert(ps[0] == paths@[0]@);
                out.push(paths[0].display());
            }
        } else if same_chars(w, &chars_of("%F")) || same_chars(w, &chars_of("%U")) {
            let mut k: usize = 0;
            assert(path_texts(ps).take(0) =~= Seq::empty());
            assert(views(out@) =~= before + path_texts(ps).take(0));
            while k < paths.len()
                invariant
                    k <= paths@.len(),
                    ps == path_views(paths@),
                    views(out@) == before + path_texts(ps).take(k as int),
                decreases paths@.len() - k,
            {
                let ghost mid = out@;
                let t = paths[k].display();
                out.push(t);
                proof {
                    assert(ps[k as int] == paths@[k as int]@);
                    assert(views(out@) =~= views(mid).push(t@));
                    assert(path_texts(ps).take(k + 1) =~= path_texts(ps).take(k as int).push(t@));
                    assert(views(out@) =~= before + path_texts(ps).take(k + 1));
                }
                k += 1;
            }
            assert(path_texts(ps).take(k as int) =~= path_texts(ps));
        } else if w.len() > 0 && w[0] == '%' {
        } else {
            out.push(string_of(w));
        }
        assert(views(out@) =~= before + word_args(spec_ws[i as int], ps));
        i += 1;
    }
    out
}

} // verus!
