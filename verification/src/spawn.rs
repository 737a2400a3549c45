//! Opening a terminal, relaunching as root and running programs.
use crate::clipboard::current_dir;
use crate::file_actions::chosen;
use crate::listing::selected_entries;
use crate::state::AppState;
use crate::text::{
    chars_of, opt_view, string_of, strip_suffix, trim, trimmed, views, without_suffix,
};
use crate::types::{entry_views, FileType, Place};
use crate::unix_path::{copy_bytes, lossy, parent, UnixPath};
use crate::user_dirs::opt_path;
use vstd::prelude::*;
use vstd::string::*;
use vstd::utf8::*;

verus! {

/// The place to open: the given path, else the only selected folder, else the
/// current directory.
pub open spec fn target(s: AppState, arg: Seq<char>) -> Option<Seq<u8>> {
    let es = chosen(s);
    if arg.len() > 0 {
        Some(encode_utf8(arg))
    } else if s.selected@.len() == 1 && es.len() == 1 && es[0].file_type == FileType::Directory {
        Some(es[0].path)
    } else {
        match s@.active.live.current {
            Some(Place::Local(b)) => Some(b),
            _ => None,
        }
    }
}

/// The place to open in a terminal or as root.
pub fn resolve_target(state: &AppState, arg: &str) -> (r: Option<UnixPath>)
    ensures
        opt_path(r) == target(*state, arg@),
{
    if !arg.is_empty() {
        return Some(UnixPath::new(arg));
    }
    if state.selected.len() == 1 {
        let entries = selected_entries(&state.entries, &state.selected);
        if entries.len() == 1 {
            assert(entry_views(entries@)[0] == entries@[0]@);
            if entries[0].is_dir() {
                return Some(entries[0].path.clone());
            }
        }
    }
    current_dir(state)
}

/// The terminal emulators that are tried, in order.
pub open spec fn known_terminals() -> Seq<Seq<char>> {
    seq![
        "x-terminal-emulator"@,
        "gnome-terminal"@,
        "konsole"@,
        "alacritty"@,
        "kitty"@,
        "wezterm"@,
        "tilix"@,
        "xfce4-terminal"@,
        "lxterminal"@,
        "terminator"@,
        "foot"@,
        "xterm"@,
    ]
}

/// The terminal emulators to try, in order: the user's own, unless it is blank,
/// then the known ones.
pub fn terminal_candidates(custom: &Option<String>) -> (r: Vec<String>)
    ensures
        views(r@) == match opt_view(*custom) {
            Some(c) if trimmed(c).len() > 0 => seq![c] + known_terminals(),
            _ => known_terminals(),
        },
{
    let known: [&'static str; 12] = [
        "x-terminal-emulator",
        "gnome-terminal",
        "konsole",
        "alacritty",
        "kitty",
        "wezterm",
        "tilix",
        "xfce4-terminal",
        "lxterminal",
        "terminator",
        "foot",
        "xterm",
    ];
    let mut r: Vec<String> = Vec::new();
    let ghost mut first: Seq<Seq<char>> = Seq::empty();
    match custom {
        Some(c) => {
            let chars = chars_of(c.as_str());
            if trim(&chars).len() > 0 {
                r.push(c.clone());
                proof {
                    first = seq![c@];
                }
            }
        },
        None => {},
    }
    assert(views(r@) =~= first + known_terminals().take(0));
    let mut i: usize = 0;
    while i < 12
        invariant
            i <= 12,
            known@.len() == 12,
            forall|k: int| 0 <= k < 12 ==> (#[trigger] known@[k])@ == known_terminals()[k],
            views(r@) == first + known_terminals().take(i as int),
        decreases 12 - i,
    {
        let ghost before = r@;
        assert(known@[i as int]@ == known_terminals()[i as int]);
        r.push(known[i].to_owned());
        assert(views(r@) =~= views(before).push(known_terminals()[i as int]));
        assert(known_terminals().take(i + 1) =~= known_terminals().take(i as int).push(
            known_terminals()[i as int],
        ));
        assert(views(r@) =~= first + known_terminals().take(i + 1));
        i += 1;
    }
    assert(known_terminals().take(12) =~= known_terminals());
    assert(Seq::<Seq<char>>::empty() + known_terminals() =~= known_terminals());
    r
}

/// The path of the program without the mark that the kernel puts behind a
/// program whose file was replaced.
pub fn sanitize_exe(exe: UnixPath) -> (r: UnixPath)
    ensures
        r@ == match without_suffix(lossy(exe@), " (deleted)"@) {
            Some(s) => encode_utf8(s),
            None => exe@,
        },
{
    let text = exe.display();
    let cs = chars_of(text.as_str());
    match strip_suffix(&cs, " (deleted)") {
        Some(s) => {
            let name = string_of(s);
            UnixPath::new(name.as_str())
        },
        None => exe,
    }
}

fn assignment(name: &str, value: &str) -> (r: Vec<u8>)
    ensures
        r@ == encode_utf8(name@ + "="@ + value@),
{
    let mut s: String = name.to_owned();
    s.append("=");
    s.append(value);
    copy_bytes(s.as_str().as_bytes())
}

/// What the display server needs of the environment.
#[derive(Debug)]
pub struct DisplayEnv {
    pub display: String,
    pub wayland: String,
    pub xauth: String,
    pub xdg_runtime: String,
}

/// The arguments of `pkexec` that open a directory as root: the program under
/// `env`, with what it needs to reach the display.
pub fn root_args(env: &DisplayEnv, exe: &UnixPath, dir: &UnixPath) -> (r: Vec<Vec<u8>>)
    ensures
        r@.len() == 7,
        r@[0]@ == encode_utf8("env"@),
        r@[1]@ == encode_utf8("DISPLAY"@ + "="@ + env.display@),
        r@[2]@ == encode_utf8("WAYLAND_DISPLAY"@ + "="@ + env.wayland@),
        r@[3]@ == encode_utf8("XAUTHORITY"@ + "="@ + env.xauth@),
        r@[4]@ == encode_utf8("XDG_RUNTIME_DIR"@ + "="@ + env.xdg_runtime@),
        r@[5]@ == exe@,
        r@[6]@ == dir@,
{
    let mut r: Vec<Vec<u8>> = Vec::new();
    r.push(copy_bytes("env".as_bytes()));
    r.push(assignment("DISPLAY", env.display.as_str()));
    r.push(assignment("WAYLAND_DISPLAY", env.wayland.as_str()));
    r.push(assignment("XAUTHORITY", env.xauth.as_str()));
    r.push(assignment("XDG_RUNTIME_DIR", env.xdg_runtime.as_str()));
    r.push(copy_bytes(&exe.bytes));
    r.push(copy_bytes(&dir.bytes));
    r
}

/// Whether the first bytes of a file are those of a program: the magic of ELF,
/// or `#!`.
pub open spec fn starts_as_program(head: Seq<u8>) -> bool {
    ||| seq![0x7fu8, 0x45u8, 0x4cu8, 0x46u8].is_prefix_of(head)
    ||| seq![0x23u8, 0x21u8].is_prefix_of(head)
}

/// Whether opening a file runs it: a regular file that somebody may execute and
/// that starts as a program. `mode` is nothing where the file cannot be
/// examined, `head` where it cannot be opened.
pub fn is_runnable_executable(is_file: bool, mode: Option<u32>, head: &Option<Vec<u8>>) -> (r: bool)
    ensures
        r == (is_file && mode is Some && (mode->0 as int / 64 % 2 == 1 || mode->0 as int / 8 % 2
            == 1 || mode->0 as int % 2 == 1) && *head is Some && starts_as_program((*head)->0@)),
{
    let m: u32 = match mode {
        Some(m) => m,
        None => {
            return false;
        },
    };
    if !is_file || !(m / 64 % 2 == 1 || m / 8 % 2 == 1 || m % 2 == 1) {
        return false;
    }
    match head {
        Some(h) => {
            let n: usize = h.len();
            let elf: bool = n >= 4 && h[0] == 0x7f && h[1] == 0x45 && h[2] == 0x4c && h[3] == 0x46;
            let script: bool = n >= 2 && h[0] == 0x23 && h[1] == 0x21;
            proof {
                let e = seq![0x7fu8, 0x45u8, 0x4cu8, 0x46u8];
                let s = seq![0x23u8, 0x21u8];
                if elf {
                    assert(e =~= h@.subrange(0, 4));
                }
                if e.is_prefix_of(h@) {
                    assert(e[0] == h@[0] && e[1] == h@[1] && e[2] == h@[2] && e[3] == h@[3]);
                }
                if script {
                    assert(s =~= h@.subrange(0, 2));
                }
                if s.is_prefix_of(h@) {
                    assert(s[0] == h@[0] && s[1] == h@[1]);
                }
            }
            elf || script
        },
        None => false,
    }
}

/// The directory that a program is run in: its own.
pub fn launch_dir(path: &UnixPath) -> (r: UnixPath)
    ensures
        r@ == match parent(path@) {
            Some(p) => p,
            None => encode_utf8("/"@),
        },
{
    match path.parent() {
        Some(p) => p,
        None => UnixPath::new("/"),
    }
}

} // verus!
