//! The picker for the application that opens the selection, and the name of the
//! default application in the menu.
use crate::copy_run::path_views;
use crate::desktop::{app_views, AppView, DesktopApp};
use crate::listing::chosen_upto;
use crate::mime::{mime_from_path, path_mime};
use crate::state::AppState;
use crate::text::{
    chars_of, copy_opt, find_char, opt_view, same_text, text_starts_with, trim_text, trimmed,
};
use crate::types::{entry_views, EntryView, FileType};
use crate::unix_path::UnixPath;
use crate::user_dirs::opt_path;
use vstd::prelude::*;
use vstd::std_specs::hash::*;
use vstd::string::*;

verus! {

broadcast use group_hash_axioms;

// ---------------------------------------------------------------------------
// The default application in the menu
// ---------------------------------------------------------------------------

/// The names of default applications that were looked up, also where there was
/// none.
#[derive(Debug)]
pub struct AppNameCache {
    pub names: Vec<(String, Option<String>)>,
}

/// The first name that a list gives for a MIME type.
pub open spec fn cached(names: Seq<(String, Option<String>)>, mime: Seq<char>) -> Option<
    Option<Seq<char>>,
>
    decreases names.len(),
{
    if names.len() == 0 {
        None
    } else if names[0].0@ == mime {
        Some(opt_view(names[0].1))
    } else {
        cached(names.skip(1), mime)
    }
}

impl AppNameCache {
    /// A cache with nothing in it.
    pub fn new() -> (r: Self)
        ensures
            forall|m: Seq<char>| #[trigger] cached(r.names@, m) is None,
    {
        AppNameCache { names: Vec::new() }
    }

    /// What was found for a MIME type, if it was looked up.
    pub fn get(&self, mime: &str) -> (r: Option<Option<String>>)
        ensures
            cached(self.names@, mime@) == match r {
                Some(n) => Some(opt_view(n)),
                None => None,
            },
    {
        let mut i: usize = 0;
        assert(self.names@.skip(0) =~= self.names@);
        while i < self.names.len()
            invariant
                i <= self.names@.len(),
                cached(self.names@, mime@) == cached(self.names@.skip(i as int), mime@),
            decreases self.names@.len() - i,
        {
            assert(self.names@.skip(i as int)[0] == self.names@[i as int]);
            assert(self.names@.skip(i as int).skip(1) =~= self.names@.skip(i + 1));
            if same_text(self.names[i].0.as_str(), mime) {
                return Some(copy_opt(&self.names[i].1));
            }
            i += 1;
        }
        None
    }

    /// Remembers what was found for a MIME type that was not looked up yet.
    pub fn insert(&mut self, mime: String, name: Option<String>)
        requires
            cached(old(self).names@, mime@) is None,
        ensures
            cached(final(self).names@, mime@) == Some(opt_view(name)),
            forall|m: Seq<char>|
                m != mime@ ==> #[trigger] cached(final(self).names@, m) == cached(
                    old(self).names@,
                    m,
                ),
    {
        self.names.push((mime, name));
        proof {
            assert(self.names@ =~= old(self).names@.push((mime, name)));
            assert forall|m: Seq<char>| m != mime@ implies #[trigger] cached(self.names@, m)
                == cached(old(self).names@, m) by {
                lemma_cached_push(old(self).names@, (mime, name), m);
            }
            lemma_cached_push(old(self).names@, (mime, name), mime@);
        }
    }
}

/// Forgets the names that were looked up, because a default was changed.
pub fn invalidate_cache(cache: &mut AppNameCache)
    ensures
        forall|m: Seq<char>| #[trigger] cached(final(cache).names@, m) is None,
{
    cache.names = Vec::new();
}

proof fn lemma_cached_push(
    names: Seq<(String, Option<String>)>,
    x: (String, Option<String>),
    m: Seq<char>,
)
    ensures
        cached(names.push(x), m) == if cached(names, m) is Some {
            cached(names, m)
        } else if x.0@ == m {
            Some(opt_view(x.1))
        } else {
            None
        },
    decreases names.len(),
{
    let all = names.push(x);
    if names.len() == 0 {
        assert(all[0] == x);
        assert(all.skip(1) =~= Seq::empty());
        reveal_with_fuel(cached, 2);
    } else {
        assert(all[0] == names[0]);
        assert(all.skip(1) =~= names.skip(1).push(x));
        lemma_cached_push(names.skip(1), x, m);
    }
}

/// The only selected entry, if it is no folder.
pub open spec fn single_file(es: Seq<EntryView>, sel: Set<usize>) -> Option<Seq<u8>> {
    let chosen = chosen_upto(es, sel, es.len() as int);
    if sel.len() == 1 && chosen.len() == 1 && chosen[0].file_type != FileType::Directory {
        Some(chosen[0].path)
    } else {
        None
    }
}

/// The file whose default application the menu names.
pub fn single_selected_file(state: &AppState) -> (r: Option<UnixPath>)
    ensures
        opt_path(r) == single_file(entry_views(state.entries@), state.selected@),
{
    if state.selected.len() != 1 {
        return None;
    }
    let chosen = crate::listing::selected_entries(&state.entries, &state.selected);
    let ghost cs = entry_views(chosen@);
    if chosen.len() == 1 {
        assert(cs[0] == chosen@[0]@);
        if !chosen[0].is_dir() {
            return Some(chosen[0].path.clone());
        }
    }
    None
}

/// The MIME type of a path, by its name.
pub fn mime_for(path: &UnixPath) -> (r: Option<String>)
    ensures
        opt_view(r) == path_mime(path@),
{
    mime_from_path(path)
}

/// The MIME type whose default application the menu names: that of the only
/// selected file, by its name, else as it was listed.
pub fn default_app_mime(state: &AppState) -> (r: Option<String>)
    ensures
        ({
            let chosen = chosen_upto(
                entry_views(state.entries@),
                state.selected@,
                state.entries@.len() as int,
            );
            opt_view(r) == if single_file(entry_views(state.entries@), state.selected@) is Some {
                if path_mime(chosen[0].path) is Some {
                    path_mime(chosen[0].path)
                } else {
                    chosen[0].mime
                }
            } else {
                None
            }
        }),
{
    if state.selected.len() != 1 {
        return None;
    }
    let chosen = crate::listing::selected_entries(&state.entries, &state.selected);
    let ghost cs = entry_views(chosen@);
    if chosen.len() == 1 {
        assert(cs[0] == chosen@[0]@);
        if !chosen[0].is_dir() {
            return match mime_for(&chosen[0].path) {
                Some(m) => Some(m),
                None => copy_opt(&chosen[0].mime),
            };
        }
    }
    None
}

// ---------------------------------------------------------------------------
// The picker
// ---------------------------------------------------------------------------

/// The paths of the files among the first `n` entries.
pub open spec fn files_among(es: Seq<EntryView>, n: int) -> Seq<Seq<u8>>
    decreases n,
{
    if n <= 0 {
        Seq::empty()
    } else if es[n - 1].file_type == FileType::Directory {
        files_among(es, n - 1)
    } else {
        files_among(es, n - 1).push(es[n - 1].path)
    }
}

/// The selected files: folders are passed over.
pub fn request_paths(state: &AppState) -> (r: Vec<UnixPath>)
    ensures
        ({
            let chosen = chosen_upto(
                entry_views(state.entries@),
                state.selected@,
                state.entries@.len() as int,
            );
            path_views(r@) == files_among(chosen, chosen.len() as int)
        }),
{
    let chosen = crate::listing::selected_entries(&state.entries, &state.selected);
    let ghost cs = entry_views(chosen@);
    let mut r: Vec<UnixPath> = Vec::new();
    let mut i: usize = 0;
    assert(path_views(r@) =~= files_among(cs, 0));
    while i < chosen.len()
        invariant
            i <= chosen@.len(),
            cs == entry_views(chosen@),
            path_views(r@) == files_among(cs, i as int),
        decreases chosen@.len() - i,
    {
        assert(cs[i as int] == chosen@[i as int]@);
        if !chosen[i].is_dir() {
            let ghost before = r@;
            r.push(chosen[i].path.clone());
            assert(path_views(r@) =~= path_views(before).push(cs[i as int].path));
        }
        i += 1;
    }
    r
}

/// A command that the user typed in and wants remembered.
#[derive(Debug)]
pub struct CustomApp {
    pub name: String,
    pub exec_line: String,
}

/// A remembered command as an application.
pub open spec fn custom_app(c: CustomApp) -> AppView {
    AppView {
        id: "custom:"@ + c.exec_line@,
        name: c.name@,
        exec_line: c.exec_line@,
        recommended: true,
    }
}

/// Remembered commands before the applications, the latest first.
pub open spec fn with_custom(apps: Seq<AppView>, custom: Seq<CustomApp>) -> Seq<AppView> {
    custom.map_values(|c: CustomApp| custom_app(c)).reverse() + apps
}

/// Puts the remembered commands before the applications.
pub fn add_custom_apps(apps: Vec<DesktopApp>, custom: &Vec<CustomApp>) -> (r: Vec<DesktopApp>)
    ensures
        app_views(r@) == with_custom(app_views(apps@), custom@),
{
    let ghost spec_apps = app_views(apps@);
    let mut out: Vec<DesktopApp> = Vec::new();
    let mut i: usize = custom.len();
    while i > 0
        invariant
            i <= custom@.len(),
            out@.len() == custom@.len() - i,
            forall|k: int|
                0 <= k < out@.len() ==> (#[trigger] out@[k])@ == custom_app(
                    custom@[custom@.len() - 1 - k],
                ),
        decreases i,
    {
        i -= 1;
        let c = &custom[i];
        let mut id: String = "custom:".to_owned();
        id.append(c.exec_line.as_str());
        out.push(
            DesktopApp {
                id,
                name: c.name.clone(),
                exec_line: c.exec_line.clone(),
                recommended: true,
            },
        );
    }
    let mut rest = apps;
    out.append(&mut rest);
    assert(app_views(out@) =~= with_custom(spec_apps, custom@));
    out
}

/// A row of the picker.
#[derive(Debug)]
pub struct OpenWithRow {
    pub name: String,
    pub id: String,
    pub recommended: bool,
    pub is_default: bool,
}

/// The rows of the picker; the default application is marked.
pub fn picker_rows(apps: &Vec<DesktopApp>, default_id: &Option<String>) -> (r: Vec<OpenWithRow>)
    ensures
        r@.len() == apps@.len(),
        forall|i: int|
            0 <= i < r@.len() ==> {
                let row = #[trigger] r@[i];
                &&& row.name@ == apps@[i].name@
                &&& row.id@ == apps@[i].id@
                &&& row.recommended == apps@[i].recommended
                &&& row.is_default == (opt_view(*default_id) == Some(apps@[i].id@))
            },
{
    let mut r: Vec<OpenWithRow> = Vec::new();
    let mut i: usize = 0;
    while i < apps.len()
        invariant
            i <= apps@.len(),
            r@.len() == i,
            forall|k: int|
                0 <= k < i ==> {
                    let row = #[trigger] r@[k];
                    &&& row.name@ == apps@[k].name@
                    &&& row.id@ == apps@[k].id@
                    &&& row.recommended == apps@[k].recommended
                    &&& row.is_default == (opt_view(*default_id) == Some(apps@[k].id@))
                },
        decreases apps@.len() - i,
    {
        let a = &apps[i];
        let is_default: bool = match default_id {
            Some(d) => same_text(d.as_str(), a.id.as_str()),
            None => false,
        };
        r.push(
            OpenWithRow {
                name: a.name.clone(),
                id: a.id.clone(),
                recommended: a.recommended,
                is_default,
            },
        );
        i += 1;
    }
    r
}

/// The index of the first application with an identifier, or their number.
pub open spec fn app_at(apps: Seq<AppView>, id: Seq<char>) -> int
    decreases apps.len(),
{
    if apps.len() == 0 || apps[0].id == id {
        0
    } else {
        1 + app_at(apps.skip(1), id)
    }
}

/// The command line of the chosen application, and whether it is to become the
/// default. A remembered command cannot be a default.
pub fn chosen(apps: &Vec<DesktopApp>, mime: &Option<String>, id: &str, set_default: bool) -> (r:
    Option<(String, bool)>)
    ensures
        ({
            let at = app_at(app_views(apps@), id@);
            if at < apps@.len() {
                r matches Some((line, persist)) && line@ == apps@[at].exec_line@ && persist == (
                set_default && !"custom:"@.is_prefix_of(id@) && mime is Some)
            } else {
                r is None
            }
        }),
{
    let ghost s = app_views(apps@);
    let mut i: usize = 0;
    assert(s.skip(0) =~= s);
    while i < apps.len()
        invariant
            i <= apps@.len(),
            s == app_views(apps@),
            app_at(s, id@) == i + app_at(s.skip(i as int), id@),
        decreases apps@.len() - i,
    {
        assert(s.skip(i as int)[0] == apps@[i as int]@);
        assert(s.skip(i as int).skip(1) =~= s.skip(i + 1));
        if same_text(apps[i].id.as_str(), id) {
            let persist: bool = set_default && !text_starts_with(id, "custom:") && mime.is_some();
            return Some((apps[i].exec_line.clone(), persist));
        }
        i += 1;
    }
    None
}

// ---------------------------------------------------------------------------
// Typed commands
// ---------------------------------------------------------------------------

/// A typed command as a command line: one without field codes gets the
/// selection at its end.
pub open spec fn normalized(cmd: Seq<char>) -> Seq<char> {
    if trimmed(cmd).contains('%') {
        trimmed(cmd)
    } else {
        trimmed(cmd) + " %U"@
    }
}

/// Turns a typed command into a command line.
pub fn normalize_exec(cmd: &str) -> (r: String)
    ensures
        r@ == normalized(cmd@),
{
    let mut t = trim_text(cmd);
    let v = chars_of(t.as_str());
    match find_char(&v, '%') {
        Some(i) => {
            assert(v@.contains(v@[i as int]));
            t
        },
        None => {
            t.append(" %U");
            t
        },
    }
}

/// The command line of a typed command; nothing without a command or without
/// paths to run it on.
pub fn run_command(cmd: &str, paths: &Vec<UnixPath>) -> (r: Option<String>)
    ensures
        opt_view(r) == if trimmed(cmd@).len() == 0 || paths@.len() == 0 {
            None
        } else {
            Some(normalized(trimmed(cmd@)))
        },
{
    let t = trim_text(cmd);
    if t.as_str().is_empty() || paths.len() == 0 {
        return None;
    }
    Some(normalize_exec(t.as_str()))
}

/// Whether a command line is remembered already.
pub open spec fn remembered(apps: Seq<CustomApp>, exec_line: Seq<char>) -> bool {
    exists|i: int| 0 <= i < apps.len() && (#[trigger] apps[i]).exec_line@ == exec_line
}

/// Remembers a command, unless its command line is remembered already. Returns
/// whether the list changed.
pub fn add_custom(apps: &mut Vec<CustomApp>, new: CustomApp) -> (r: bool)
    ensures
        r == !remembered(old(apps)@, new.exec_line@),
        final(apps)@ == if r {
            old(apps)@.push(new)
        } else {
            old(apps)@
        },
        remembered(final(apps)@, new.exec_line@),
{
    let mut i: usize = 0;
    while i < apps.len()
        invariant
            i <= apps@.len(),
            apps@ == old(apps)@,
            forall|k: int| 0 <= k < i ==> (#[trigger] apps@[k]).exec_line@ != new.exec_line@,
        decreases apps@.len() - i,
    {
        if same_text(apps[i].exec_line.as_str(), new.exec_line.as_str()) {
            assert(apps@[i as int].exec_line@ == new.exec_line@);
            return false;
        }
        i += 1;
    }
    apps.push(new);
    assert(apps@[apps@.len() - 1].exec_line@ == new.exec_line@);
    true
}

} // verus!
