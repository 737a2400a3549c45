//! What the program does before its window opens: which log messages it shows
//! and where it starts.
use crate::text::{chars_of, find_char, split_at_char, split_char, string_of, trim, trimmed, views};
use crate::unix_path::UnixPath;
use crate::user_dirs;
use vstd::prelude::*;
use vstd::string::*;
use vstd::utf8::*;

verus! {

/// The parts of a list with commas in between, without white space around them
/// and without empty ones.
pub open spec fn log_parts(s: Seq<char>) -> Seq<Seq<char>> {
    parts_upto(split_at_char(s, ','), split_at_char(s, ',').len() as int)
}

/// The parts among the first `n` pieces.
pub open spec fn parts_upto(pieces: Seq<Seq<char>>, n: int) -> Seq<Seq<char>>
    decreases n,
{
    if n <= 0 {
        Seq::empty()
    } else if trimmed(pieces[n - 1]).len() > 0 {
        parts_upto(pieces, n - 1).push(trimmed(pieces[n - 1]))
    } else {
        parts_upto(pieces, n - 1)
    }
}

/// The level of the last part that names no target, else `debug`.
pub open spec fn own_level(parts: Seq<Seq<char>>, n: int) -> Seq<char>
    decreases n,
{
    if n <= 0 {
        "debug"@
    } else if !parts[n - 1].contains('=') {
        parts[n - 1]
    } else {
        own_level(parts, n - 1)
    }
}

/// The parts that name a target.
pub open spec fn explicit(parts: Seq<Seq<char>>, n: int) -> Seq<Seq<char>>
    decreases n,
{
    if n <= 0 {
        Seq::empty()
    } else if parts[n - 1].contains('=') {
        explicit(parts, n - 1).push(parts[n - 1])
    } else {
        explicit(parts, n - 1)
    }
}

/// Which log messages are shown.
#[derive(Debug)]
pub struct LogPlan {
    /// One for each crate of the program itself.
    pub own: Vec<String>,
    /// Those that the user gave with a target.
    pub explicit: Vec<String>,
}

/// Which log messages are shown, beside warnings of all crates. A bare level is
/// for the program's own crates; with a target it is taken as it stands.
pub fn build_filter(rust_log: &Option<String>) -> (r: LogPlan)
    ensures
        ({
            let parts = match *rust_log {
                Some(s) => log_parts(s@),
                None => Seq::empty(),
            };
            let level = own_level(parts, parts.len() as int);
            &&& views(r.own@) == seq!["mykrut="@ + level, "mykrut_core="@ + level]
            &&& views(r.explicit@) == explicit(parts, parts.len() as int)
        }),
{
    let mut level: String = "debug".to_owned();
    let mut given: Vec<String> = Vec::new();
    let ghost mut parts: Seq<Seq<char>> = Seq::empty();
    assert(views(given@) =~= explicit(parts, 0));
    match rust_log {
        Some(s) => {
            let chars = chars_of(s.as_str());
            let pieces = split_char(&chars, ',');
            let ghost ps = split_at_char(s@, ',');
            let mut i: usize = 0;
            while i < pieces.len()
                invariant
                    i <= pieces@.len(),
                    pieces@.len() == ps.len(),
                    forall|k: int| 0 <= k < ps.len() ==> (#[trigger] pieces@[k])@ == ps[k],
                    parts == parts_upto(ps, i as int),
                    level@ == own_level(parts, parts.len() as int),
                    views(given@) == explicit(parts, parts.len() as int),
                decreases pieces@.len() - i,
            {
                assert(pieces@[i as int]@ == ps[i as int]);
                let part = trim(&pieces[i]);
                if part.len() > 0 {
                    let text = string_of(part);
                    let ghost before = parts;
                    proof {
                        parts = parts.push(text@);
                        lemma_own_level(before, parts, before.len() as int);
                        lemma_explicit(before, parts, before.len() as int);
                    }
                    match find_char(part, '=') {
                        Some(_) => {
                            let ghost g = given@;
                            given.push(text);
                            assert(views(given@) =~= views(g).push(text@));
                        },
                        None => {
                            level = text;
                        },
                    }
                }
                i += 1;
            }
        },
        None => {},
    }
    let mut a: String = "mykrut=".to_owned();
    a.append(level.as_str());
    let mut b: String = "mykrut_core=".to_owned();
    b.append(level.as_str());
    let mut own: Vec<String> = Vec::new();
    own.push(a);
    own.push(b);
    assert(views(own@) =~= seq!["mykrut="@ + level@, "mykrut_core="@ + level@]);
    LogPlan { own, explicit: given }
}

proof fn lemma_own_level(a: Seq<Seq<char>>, b: Seq<Seq<char>>, n: int)
    requires
        0 <= n <= a.len() <= b.len(),
        forall|k: int| 0 <= k < n ==> a[k] == b[k],
    ensures
        own_level(a, n) == own_level(b, n),
    decreases n,
{
    if n > 0 {
        lemma_own_level(a, b, n - 1);
    }
}

proof fn lemma_explicit(a: Seq<Seq<char>>, b: Seq<Seq<char>>, n: int)
    requires
        0 <= n <= a.len() <= b.len(),
        forall|k: int| 0 <= k < n ==> a[k] == b[k],
    ensures
        explicit(a, n) == explicit(b, n),
    decreases n,
{
    if n > 0 {
        lemma_explicit(a, b, n - 1);
    }
}

/// The directory to start in: the given one, as resolved by the caller, else
/// the home directory, else the root.
pub fn start_dir(given: Option<UnixPath>, home: Option<UnixPath>) -> (r: UnixPath)
    ensures
        r@ == match given {
            Some(p) => p@,
            None => match home {
                Some(h) => h@,
                None => encode_utf8("/"@),
            },
        },
{
    match given {
        Some(p) => p,
        None => match home {
            Some(h) => h,
            None => UnixPath::new("/"),
        },
    }
}

/// The directory to start in: the given one, else where the user is at home.
pub fn initial_dir(given: Option<UnixPath>) -> (r: UnixPath)
    ensures
        given matches Some(p) ==> r@ == p@,
{
    start_dir(given, user_dirs::home_dir())
}

} // verus!
