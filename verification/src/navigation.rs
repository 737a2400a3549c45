//! Moving between places: the history of a tab, and whether a place can be
//! opened.
use crate::state::{
    copy_place, opt_place, place_views, same_shared, AppState, PaneView, TabView, WindowView,
};
use crate::types::{place_parent, Location, Place};
use crate::unix_path::{components, lossy, parent, UnixPath};
use vstd::prelude::*;
use vstd::std_specs::hash::*;
use vstd::string::*;
use vstd::utf8::*;

verus! {

broadcast use group_hash_axioms;

// ---------------------------------------------------------------------------
// History
// ---------------------------------------------------------------------------

/// Whether two places are the same.
pub open spec fn same_place(a: Place, b: Place) -> bool {
    match (a, b) {
        (Place::Local(p), Place::Local(q)) => components(p) == components(q),
        (Place::Trash, Place::Trash) => true,
        _ => false,
    }
}

/// Whether two places are the same.
pub fn loc_eq(a: &Location, b: &Location) -> (r: bool)
    ensures
        r == same_place(a@, b@),
{
    match (a, b) {
        (Location::Local(p), Location::Local(q)) => p.same(q),
        (Location::Trash, Location::Trash) => true,
        _ => false,
    }
}

/// Where a tab is, where it came from and where it can go again.
#[verifier::ext_equal]
pub struct Trail {
    pub back: Seq<Place>,
    pub current: Option<Place>,
    pub forward: Seq<Place>,
}

/// The trail of the active tab.
pub open spec fn trail(w: WindowView) -> Trail {
    Trail {
        back: w.active.live.back,
        current: w.active.live.current,
        forward: w.active.live.forward,
    }
}

/// A list with a place added if there is one.
pub open spec fn pushed(s: Seq<Place>, p: Option<Place>) -> Seq<Place> {
    match p {
        Some(x) => s.push(x),
        None => s,
    }
}

/// The trail when the step back to its last place is begun. The place itself
/// becomes current once it is listed.
pub open spec fn stepping_back(t: Trail) -> Trail {
    Trail { back: t.back.drop_last(), forward: pushed(t.forward, t.current), ..t }
}

/// The trail when the step forward to its next place is begun.
pub open spec fn stepping_forward(t: Trail) -> Trail {
    Trail { forward: t.forward.drop_last(), back: pushed(t.back, t.current), ..t }
}

/// The trail when the way to a new place is begun.
pub open spec fn departing(t: Trail) -> Trail {
    Trail { back: pushed(t.back, t.current), forward: Seq::empty(), ..t }
}

/// The trail once a place is listed.
pub open spec fn arrived(t: Trail, p: Place) -> Trail {
    Trail { current: Some(p), ..t }
}

/// A window whose active tab has another trail.
pub open spec fn with_trail(w: WindowView, t: Trail) -> WindowView {
    WindowView {
        active: PaneView {
            live: TabView {
                back: t.back,
                current: t.current,
                forward: t.forward,
                ..w.active.live
            },
            ..w.active
        },
        ..w
    }
}

/// Begins the step back. Returns the place to list, or nothing at the start of
/// the trail.
pub fn navigate_back(state: &mut AppState) -> (r: Option<Location>)
    ensures
        ({
            let t = trail(old(state)@);
            if t.back.len() == 0 {
                r is None && final(state)@ == old(state)@
            } else {
                r matches Some(l) && l@ == t.back.last() && final(state)@ == with_trail(
                    old(state)@,
                    stepping_back(t),
                )
            }
        }),
        same_shared(*final(state), *old(state)),
{
    let ghost t = trail(state@);
    match state.back_stack.pop() {
        Some(prev) => {
            assert(place_views(state.back_stack@) =~= t.back.drop_last());
            if let Some(cur) = copy_place(&state.current) {
                let ghost fwd = state.forward_stack@;
                state.forward_stack.push(cur);
                assert(place_views(state.forward_stack@) =~= place_views(fwd).push(cur@));
            }
            assert(state@ =~= with_trail(old(state)@, stepping_back(t)));
            Some(prev)
        },
        None => {
            assert(place_views(state.back_stack@) =~= t.back);
            None
        },
    }
}

/// Begins the step forward. Returns the place to list, or nothing at the end of
/// the trail.
pub fn navigate_forward(state: &mut AppState) -> (r: Option<Location>)
    ensures
        ({
            let t = trail(old(state)@);
            if t.forward.len() == 0 {
                r is None && final(state)@ == old(state)@
            } else {
                r matches Some(l) && l@ == t.forward.last() && final(state)@ == with_trail(
                    old(state)@,
                    stepping_forward(t),
                )
            }
        }),
        same_shared(*final(state), *old(state)),
{
    let ghost t = trail(state@);
    match state.forward_stack.pop() {
        Some(next) => {
            assert(place_views(state.forward_stack@) =~= t.forward.drop_last());
            if let Some(cur) = copy_place(&state.current) {
                let ghost back = state.back_stack@;
                state.back_stack.push(cur);
                assert(place_views(state.back_stack@) =~= place_views(back).push(cur@));
            }
            assert(state@ =~= with_trail(old(state)@, stepping_forward(t)));
            Some(next)
        },
        None => {
            assert(place_views(state.forward_stack@) =~= t.forward);
            None
        },
    }
}

/// The place above the current one.
pub fn navigate_up(state: &AppState) -> (r: Option<Location>)
    ensures
        opt_place(r) == match state@.active.live.current {
            Some(p) => place_parent(p),
            None => None,
        },
{
    match &state.current {
        Some(l) => l.parent(),
        None => None,
    }
}

/// What comes of the way to a place.
#[derive(Debug)]
pub enum Navigation {
    /// The place is not open to the user, for this reason.
    Blocked(String),
    /// The place is shown already.
    Stay,
    /// The place is to be listed.
    Go,
}

/// Why the user cannot go to a place, or nothing.
pub open spec fn objection(target: Place, f: Preflight) -> Option<Seq<char>> {
    match target {
        Place::Local(p) => complaint(p, f),
        Place::Trash => None,
    }
}

/// Begins the way to a place. `f` is what was found there. A place that is not
/// open to the user leaves no trace in the history, and neither does the place
/// that is shown already.
pub fn navigate_to(state: &mut AppState, target: &Location, f: &Preflight) -> (r: Navigation)
    ensures
        match objection(target@, *f) {
            Some(m) => (r matches Navigation::Blocked(s) && s@ == m) && *final(state) == *old(
                state,
            ),
            None => if trail(old(state)@).current matches Some(c) && same_place(c, target@) {
                r is Stay && *final(state) == *old(state)
            } else {
                r is Go && final(state)@ == with_trail(
                    old(state)@,
                    departing(trail(old(state)@)),
                )
            },
        },
        same_shared(*final(state), *old(state)),
{
    if let Location::Local(p) = target {
        if let Some(message) = preflight_local_path(p, f) {
            return Navigation::Blocked(message);
        }
    }
    let ghost t = trail(state@);
    if let Some(cur) = &state.current {
        if loc_eq(cur, target) {
            return Navigation::Stay;
        }
        let ghost back = state.back_stack@;
        let cur2 = cur.clone();
        state.back_stack.push(cur2);
        assert(place_views(state.back_stack@) =~= place_views(back).push(cur@));
    }
    state.forward_stack.clear();
    assert(place_views(state.forward_stack@) =~= Seq::empty());
    assert(state@ =~= with_trail(old(state)@, departing(t)));
    Navigation::Go
}

/// Going back from a new place leads where one came from, and forward again
/// leads to the new place.
pub proof fn back_leads_where_one_came_from(t: Trail, target: Place)
    requires
        t.current is Some,
    ensures
        ({
            let there = arrived(departing(t), target);
            let back = arrived(stepping_back(there), there.back.last());
            &&& there.back.last() == t.current->0
            &&& back.current == t.current
            &&& back.back == t.back
            &&& back.forward == seq![target]
            &&& arrived(stepping_forward(back), back.forward.last()) == there
        }),
{
    let there = arrived(departing(t), target);
    let back = arrived(stepping_back(there), there.back.last());
    assert(t.back.push(t.current->0).drop_last() =~= t.back);
    assert(Seq::<Place>::empty().push(target) =~= seq![target]);
    assert(seq![target].drop_last() =~= Seq::empty());
    assert(arrived(stepping_forward(back), target) =~= there);
}

/// Stepping back and forward again changes nothing, wherever the trail leads.
pub proof fn forward_reverts_back(t: Trail)
    requires
        t.back.len() > 0,
        t.current is Some,
    ensures
        ({
            let b = arrived(stepping_back(t), t.back.last());
            b.forward.len() > 0 && arrived(stepping_forward(b), b.forward.last()) == t
        }),
{
    let b = arrived(stepping_back(t), t.back.last());
    assert(t.back.drop_last().push(t.back.last()) =~= t.back);
    assert(t.forward.push(t.current->0).drop_last() =~= t.forward);
    assert(arrived(stepping_forward(b), b.forward.last()) =~= t);
}

/// Which of the ways back, forward and up are open.
pub fn update_nav_buttons(state: &AppState) -> (r: (bool, bool, bool))
    ensures
        r.0 == (trail(state@).back.len() > 0),
        r.1 == (trail(state@).forward.len() > 0),
        r.2 == (trail(state@).current matches Some(p) && place_parent(p) is Some),
{
    (state.back_stack.len() > 0, state.forward_stack.len() > 0, navigate_up(state).is_some())
}

// ---------------------------------------------------------------------------
// Whether a place can be opened
// ---------------------------------------------------------------------------

/// What examining a path gave; a failure comes with its reason.
#[derive(Debug)]
pub enum Examined {
    NotFound(String),
    Denied(String),
    Failed(String),
    Directory,
    NotDirectory,
}

/// What is known of a path before it is listed: what is at the path itself,
/// what a link leads to, and whether the directory could be opened.
#[derive(Debug)]
pub struct Preflight {
    /// What is at the path; `None` for a link.
    pub own: Option<Examined>,
    /// What a link leads to.
    pub target: Examined,
    /// What opening the directory gave.
    pub opened: Examined,
}

/// A message about a path, with the reason if there is one.
pub open spec fn about(intro: Seq<char>, path: Seq<u8>, reason: Option<Seq<char>>) -> Seq<char> {
    match reason {
        Some(m) => intro + ":\n"@ + lossy(path) + "\n\n"@ + m,
        None => intro + ":\n"@ + lossy(path),
    }
}

/// Why a directory cannot be opened.
pub open spec fn open_complaint(path: Seq<u8>, opened: Examined) -> Option<Seq<char>> {
    match opened {
        Examined::Denied(_) => Some(about("Permission denied"@, path, None)),
        Examined::NotFound(m) | Examined::Failed(m) => Some(
            about("Cannot open this folder"@, path, Some(m@)),
        ),
        _ => None,
    }
}

/// Why a place cannot be opened, or nothing.
pub open spec fn complaint(path: Seq<u8>, f: Preflight) -> Option<Seq<char>> {
    match f.own {
        Some(Examined::NotFound(_)) => Some(about("Path does not exist"@, path, None)),
        Some(Examined::Denied(_)) => Some(about("Permission denied"@, path, None)),
        Some(Examined::Failed(m)) => Some(about("Cannot access path"@, path, Some(m@))),
        Some(Examined::NotDirectory) => Some(about("This is a file, not a folder"@, path, None)),
        Some(Examined::Directory) => open_complaint(path, f.opened),
        None => match f.target {
            Examined::NotFound(_) => Some(about("Broken symlink"@, path, None)),
            Examined::Denied(m) | Examined::Failed(m) => Some(
                about("Cannot resolve symlink"@, path, Some(m@)),
            ),
            Examined::NotDirectory => Some(
                about("Symlink target is a file, not a folder"@, path, None),
            ),
            Examined::Directory => open_complaint(path, f.opened),
        },
    }
}

fn about_text(intro: &str, path: &UnixPath, reason: Option<&String>) -> (r: String)
    ensures
        r@ == about(
            intro@,
            path@,
            match reason {
                Some(m) => Some(m@),
                None => None,
            },
        ),
{
    let mut s: String = intro.to_owned();
    s.append(":\n");
    s.append(path.display().as_str());
    if let Some(m) = reason {
        s.append("\n\n");
        s.append(m.as_str());
    }
    s
}

/// The view of a message that may be missing.
pub open spec fn opt_message(r: Option<String>) -> Option<Seq<char>> {
    crate::text::opt_view(r)
}

/// Says why a directory cannot be opened.
pub fn probe_dir_readable(path: &UnixPath, opened: &Examined) -> (r: Option<String>)
    ensures
        opt_message(r) == open_complaint(path@, *opened),
{
    match opened {
        Examined::Denied(_) => Some(about_text("Permission denied", path, None)),
        Examined::NotFound(m) | Examined::Failed(m) => Some(
            about_text("Cannot open this folder", path, Some(m)),
        ),
        _ => None,
    }
}

/// Says why a place cannot be opened.
pub fn preflight_local_path(path: &UnixPath, f: &Preflight) -> (r: Option<String>)
    ensures
        opt_message(r) == complaint(path@, *f),
{
    match &f.own {
        Some(Examined::NotFound(_)) => Some(about_text("Path does not exist", path, None)),
        Some(Examined::Denied(_)) => Some(about_text("Permission denied", path, None)),
        Some(Examined::Failed(m)) => Some(about_text("Cannot access path", path, Some(m))),
        Some(Examined::NotDirectory) => Some(
            about_text("This is a file, not a folder", path, None),
        ),
        Some(Examined::Directory) => probe_dir_readable(path, &f.opened),
        None => {
            match &f.target {
                Examined::NotFound(_) => Some(about_text("Broken symlink", path, None)),
                Examined::Denied(m) | Examined::Failed(m) => Some(
                    about_text("Cannot resolve symlink", path, Some(m)),
                ),
                Examined::NotDirectory => Some(
                    about_text("Symlink target is a file, not a folder", path, None),
                ),
                Examined::Directory => probe_dir_readable(path, &f.opened),
            }
        },
    }
}

} // verus!
