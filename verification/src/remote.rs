//! Remote shares: their addresses, where they are mounted and how a mount is
//! asked for.
use crate::text::{
    chars_of, find_char, find_infix, first_of, has_infix, last_of, lemma_last_of, lowercase,
    occurs_at, opt_view, rfind_char, same_text, split_once, split_once_at, string_of,
    text_contains, text_starts_with, to_lowercase, trim, trim_text, trimmed,
};
use crate::unix_path::{joined, lossy, lossy_text, UnixPath};
use vstd::prelude::*;
use vstd::string::*;
use vstd::utf8::*;

verus! {

/// Whether a text begins with the scheme of a remote address.
pub open spec fn remote_scheme(s: Seq<char>) -> bool {
    ||| "ssh://"@.is_prefix_of(s)
    ||| "sftp://"@.is_prefix_of(s)
    ||| "smb://"@.is_prefix_of(s)
    ||| "ftp://"@.is_prefix_of(s)
    ||| "ftps://"@.is_prefix_of(s)
    ||| "dav://"@.is_prefix_of(s)
    ||| "davs://"@.is_prefix_of(s)
    ||| "nfs://"@.is_prefix_of(s)
}

/// Whether a text is a remote address rather than a local path.
pub fn is_remote_uri(s: &str) -> (r: bool)
    ensures
        r == remote_scheme(trimmed(s@)),
{
    let t = trim_text(s);
    let t: &str = t.as_str();
    text_starts_with(t, "ssh://") || text_starts_with(t, "sftp://") || text_starts_with(t, "smb://")
        || text_starts_with(t, "ftp://") || text_starts_with(t, "ftps://") || text_starts_with(
        t,
        "dav://",
    ) || text_starts_with(t, "davs://") || text_starts_with(t, "nfs://")
}

// ---------------------------------------------------------------------------
// Addresses
// ---------------------------------------------------------------------------

/// The text before and after the first `p`.
pub open spec fn cut(s: Seq<char>, p: Seq<char>) -> Option<(Seq<char>, Seq<char>)>
    decreases s.len(),
{
    if p.is_prefix_of(s) {
        Some((Seq::empty(), s.skip(p.len() as int)))
    } else if s.len() == 0 {
        None
    } else {
        match cut(s.skip(1), p) {
            Some((a, b)) => Some((seq![s[0]] + a, b)),
            None => None,
        }
    }
}

proof fn lemma_cut(s: Seq<char>, p: Seq<char>, i: int)
    requires
        occurs_at(s, p, i),
        forall|k: int| 0 <= k < i ==> !occurs_at(s, p, k),
    ensures
        cut(s, p) == Some((s.take(i), s.skip(i + p.len()))),
    decreases s.len(),
{
    assert(p.is_prefix_of(s) == occurs_at(s, p, 0)) by {
        if p.len() <= s.len() {
            assert(s.subrange(0, p.len() as int) =~= s.subrange(0, 0int + p.len()));
        }
    }
    if i == 0 {
        assert(s.take(0) =~= Seq::empty());
    } else {
        assert(!occurs_at(s, p, 0));
        let t = s.skip(1);
        assert(t.subrange(i - 1, i - 1 + p.len()) =~= s.subrange(i, i + p.len()));
        assert forall|k: int| 0 <= k < i - 1 implies !occurs_at(t, p, k) by {
            if occurs_at(t, p, k) {
                assert(t.subrange(k, k + p.len()) =~= s.subrange(k + 1, k + 1 + p.len()));
                assert(occurs_at(s, p, k + 1));
            }
        }
        lemma_cut(t, p, i - 1);
        assert(seq![s[0]] + t.take(i - 1) =~= s.take(i));
        assert(t.skip(i - 1 + p.len()) =~= s.skip(i + p.len()));
    }
}

proof fn lemma_cut_none(s: Seq<char>, p: Seq<char>)
    requires
        !has_infix(s, p),
    ensures
        cut(s, p) is None,
    decreases s.len(),
{
    if p.is_prefix_of(s) {
        assert(s.subrange(0, p.len() as int) =~= s.subrange(0, 0int + p.len()));
        assert(occurs_at(s, p, 0));
    } else if s.len() > 0 {
        let t = s.skip(1);
        if has_infix(t, p) {
            let k = choose|k: int| occurs_at(t, p, k);
            assert(t.subrange(k, k + p.len()) =~= s.subrange(k + 1, k + 1 + p.len()));
            assert(occurs_at(s, p, k + 1));
        }
        lemma_cut_none(t, p);
    }
}

/// A remote address.
#[derive(Debug)]
pub struct ParsedUri {
    pub scheme: String,
    pub host: String,
    /// The share of a Windows server.
    pub share: Option<String>,
    /// The path below the mount, without a slash before it.
    pub subpath: Option<String>,
}

/// A remote address in mathematical terms.
pub struct UriView {
    pub scheme: Seq<char>,
    pub host: Seq<char>,
    pub share: Option<Seq<char>>,
    pub subpath: Option<Seq<char>>,
}

impl View for ParsedUri {
    type V = UriView;

    open spec fn view(&self) -> UriView {
        UriView {
            scheme: self.scheme@,
            host: self.host@,
            share: opt_view(self.share),
            subpath: opt_view(self.subpath),
        }
    }
}

/// A text, unless it is empty.
pub open spec fn unless_empty(s: Seq<char>) -> Option<Seq<char>> {
    if s.len() == 0 {
        None
    } else {
        Some(s)
    }
}

/// The host in an authority: after the user, before the port.
pub open spec fn host_of(authority: Seq<char>) -> Seq<char> {
    let host_port = authority.skip(last_of(authority, '@') + 1);
    host_port.take(first_of(host_port, ':'))
}

/// The authority and the path of what follows the scheme.
pub open spec fn authority_and_path(rest: Seq<char>) -> (Seq<char>, Seq<char>) {
    match split_once_at(rest, '/') {
        Some((a, p)) => (a, p),
        None => (rest, Seq::empty()),
    }
}

/// The address that a scheme in lower case and what follows it give.
pub open spec fn address(scheme: Seq<char>, rest: Seq<char>) -> Option<UriView> {
    let (authority, path) = authority_and_path(rest);
    let host = host_of(authority);
    if host.len() == 0 {
        None
    } else if scheme == "smb"@ {
        match split_once_at(path, '/') {
            Some((share, sub)) => Some(
                UriView { scheme, host, share: unless_empty(share), subpath: unless_empty(sub) },
            ),
            None => Some(UriView { scheme, host, share: unless_empty(path), subpath: None }),
        }
    } else {
        Some(UriView { scheme, host, share: None, subpath: unless_empty(path) })
    }
}

/// The address that a text gives.
pub open spec fn parsed_uri(uri: Seq<char>) -> Option<UriView> {
    match cut(trimmed(uri), "://"@) {
        Some((scheme, rest)) => address(lowercase(scheme), rest),
        None => None,
    }
}

fn nonempty_text(s: &[char]) -> (r: Option<String>)
    ensures
        opt_view(r) == unless_empty(s@),
{
    if s.len() == 0 {
        None
    } else {
        Some(string_of(s))
    }
}

/// The address that a scheme in lower case and what follows it give.
pub fn parse_address(scheme: String, rest: &[char]) -> (r: Option<ParsedUri>)
    ensures
        address(scheme@, rest@) == match r {
            Some(u) => Some(u@),
            None => None,
        },
{
    let none: Vec<char> = Vec::new();
    assert(none@ =~= Seq::empty());
    let (authority, path): (&[char], &[char]) = match split_once(rest, '/') {
        Some((a, p)) => (a, p),
        None => (rest, &none),
    };
    proof {
        lemma_last_of(authority@, '@');
    }
    let n: usize = authority.len();
    let start: usize = match rfind_char(authority, '@') {
        Some(i) => i + 1,
        None => 0,
    };
    let host_port: &[char] = &authority[start..n];
    assert(host_port@ =~= authority@.skip(last_of(authority@, '@') + 1));
    let end: usize = match find_char(host_port, ':') {
        Some(i) => i,
        None => host_port.len(),
    };
    assert(host_port@.subrange(0, end as int) =~= host_port@.take(end as int));
    let host = string_of(&host_port[0..end]);
    if host.as_str().is_empty() {
        return None;
    }
    let (share, subpath): (Option<String>, Option<String>) = if same_text(scheme.as_str(), "smb") {
        match split_once(path, '/') {
            Some((s, p)) => (nonempty_text(s), nonempty_text(p)),
            None => (nonempty_text(path), None),
        }
    } else {
        (None, nonempty_text(path))
    };
    Some(ParsedUri { scheme, host, share, subpath })
}

/// Reads a remote address. One without a host is none.
pub fn parse_uri(uri: &str) -> (r: Option<ParsedUri>)
    ensures
        parsed_uri(uri@) == match r {
            Some(u) => Some(u@),
            None => None,
        },
{
    let v = chars_of(uri);
    let t = trim(&v);
    let mark = chars_of("://");
    match find_infix(t, &mark) {
        Some(i) => {
            proof {
                lemma_cut(t@, mark@, i as int);
                assert(t@.subrange(0, i as int) =~= t@.take(i as int));
                assert(t@.subrange(i + mark@.len(), t@.len() as int) =~= t@.skip(i + mark@.len()));
            }
            let scheme = to_lowercase(string_of(&t[0..i]).as_str());
            let n: usize = t.len();
            parse_address(scheme, &t[i + mark.len()..n])
        },
        None => {
            proof {
                lemma_cut_none(t@, mark@);
            }
            None
        },
    }
}

/// How an address is named when its password is asked for.
pub open spec fn authority_name(uri: Seq<char>) -> Seq<char> {
    match parsed_uri(uri) {
        Some(u) => match u.share {
            Some(s) => s + " on "@ + u.host,
            None => u.host,
        },
        None => uri,
    }
}

/// How an address is named when its password is asked for.
pub fn display_authority(uri: &str) -> (r: String)
    ensures
        r@ == authority_name(uri@),
{
    match parse_uri(uri) {
        Some(u) => {
            match u.share {
                Some(s) => {
                    let mut t = s;
                    t.append(" on ");
                    t.append(u.host.as_str());
                    t
                },
                None => u.host,
            }
        },
        None => uri.to_owned(),
    }
}

// ---------------------------------------------------------------------------
// Mounts
// ---------------------------------------------------------------------------

/// What the name of a mount of the host contains.
pub open spec fn host_key(u: UriView) -> Seq<char> {
    if u.scheme == "smb"@ {
        "server="@ + lowercase(u.host)
    } else {
        "host="@ + lowercase(u.host)
    }
}

/// Whether a mount is the one of an address.
pub open spec fn is_mount_of(u: UriView, name: Seq<u8>) -> bool {
    let lower = lowercase(lossy(name));
    has_infix(lower, host_key(u)) && (u.share matches Some(s) ==> has_infix(
        lower,
        "share="@ + lowercase(s),
    ))
}

/// The path of an address below its mount.
pub open spec fn mounted_path(u: UriView, root: Seq<u8>, name: Seq<u8>) -> Seq<u8> {
    match u.subpath {
        Some(sub) => if sub.len() == 0 {
            joined(root, name)
        } else {
            joined(joined(root, name), encode_utf8(sub))
        },
        None => joined(root, name),
    }
}

fn is_mount(u: &ParsedUri, name: &[u8]) -> (r: bool)
    ensures
        r == is_mount_of(u@, name@),
{
    let lower = to_lowercase(lossy_text(name).as_str());
    let mut key: String = if same_text(u.scheme.as_str(), "smb") {
        "server=".to_owned()
    } else {
        "host=".to_owned()
    };
    key.append(to_lowercase(u.host.as_str()).as_str());
    if !text_contains(lower.as_str(), key.as_str()) {
        return false;
    }
    match &u.share {
        Some(s) => {
            let mut share: String = "share=".to_owned();
            share.append(to_lowercase(s.as_str()).as_str());
            text_contains(lower.as_str(), share.as_str())
        },
        None => true,
    }
}

/// The local path of an address, if one of the mounts below `root` is its.
pub fn resolve_mounted(u: &ParsedUri, root: &UnixPath, names: &Vec<Vec<u8>>) -> (r: Option<UnixPath>)
    ensures
        match r {
            Some(p) => exists|i: int|
                0 <= i < names@.len() && is_mount_of(u@, #[trigger] names@[i]@) && (forall|k: int|
                    0 <= k < i ==> !is_mount_of(u@, #[trigger] names@[k]@)) && p@ == mounted_path(
                    u@,
                    root@,
                    names@[i]@,
                ),
            None => forall|k: int|
                0 <= k < names@.len() ==> !is_mount_of(u@, #[trigger] names@[k]@),
        },
{
    let mut i: usize = 0;
    while i < names.len()
        invariant
            i <= names@.len(),
            forall|k: int| 0 <= k < i ==> !is_mount_of(u@, #[trigger] names@[k]@),
        decreases names@.len() - i,
    {
        if is_mount(u, &names[i]) {
            let base = root.join_bytes(&names[i]);
            let p: UnixPath = match &u.subpath {
                Some(sub) => if sub.as_str().is_empty() {
                    base
                } else {
                    base.join(sub.as_str())
                },
                None => base,
            };
            assert(is_mount_of(u@, names@[i as int]@));
            return Some(p);
        }
        i += 1;
    }
    None
}

/// The arguments with which an address is mounted: without a password nobody is
/// asked for one.
pub fn mount_args(uri: &str, password: &Option<String>) -> (r: Vec<String>)
    ensures
        crate::text::views(r@) == if password is None {
            seq!["mount"@, "-a"@, uri@]
        } else {
            seq!["mount"@, uri@]
        },
{
    let mut v: Vec<String> = Vec::new();
    v.push("mount".to_owned());
    if password.is_none() {
        v.push("-a".to_owned());
    }
    v.push(uri.to_owned());
    assert(crate::text::views(v@) =~= if password is None {
        seq!["mount"@, "-a"@, uri@]
    } else {
        seq!["mount"@, uri@]
    });
    v
}

/// The one mount that is under way: its address, until it is done.
pub struct RemoteMount {
    pub pending: Option<String>,
}

/// What is to be done for a remote address.
#[derive(Debug)]
pub enum RemoteStep {
    /// Show the local path.
    Navigate(UnixPath),
    /// Mount the address, with a password if there is one.
    Mount(String, Option<String>),
    /// Ask for the password of the named server; whether one was refused.
    AskPassword(String, bool),
    Idle,
}

/// What came of a mount.
#[derive(Debug)]
pub enum MountResult {
    /// It succeeded; the local path, if it was found.
    Mounted(Option<UnixPath>),
    Refused,
    /// The attempt itself broke off.
    Aborted,
}

impl RemoteMount {
    pub fn new() -> (r: Self)
        ensures
            r.pending is None,
    {
        RemoteMount { pending: None }
    }

    /// Opens an address that the user typed in. What is mounted already is
    /// shown, anything else is first tried without a password.
    pub fn open(&mut self, uri: &str, mounted: Option<UnixPath>) -> (r: RemoteStep)
        ensures
            match mounted {
                Some(p) => r == RemoteStep::Navigate(p) && final(self).pending
                    == old(self).pending,
                None => {
                    &&& r matches RemoteStep::Mount(u, None) && u@ == trimmed(uri@)
                    &&& opt_view(final(self).pending) == Some(trimmed(uri@))
                },
            },
    {
        match mounted {
            Some(p) => RemoteStep::Navigate(p),
            None => {
                let t = trim_text(uri);
                self.pending = Some(t.clone());
                RemoteStep::Mount(t, None)
            },
        }
    }

    /// Tries the pending address with a password that the user gave.
    pub fn confirmed(&self, password: String) -> (r: RemoteStep)
        ensures
            match self.pending {
                Some(u) => r == RemoteStep::Mount(u, Some(password)),
                None => r is Idle,
            },
    {
        match &self.pending {
            Some(u) => RemoteStep::Mount(u.clone(), Some(password)),
            None => RemoteStep::Idle,
        }
    }

    /// Gives the pending address up.
    pub fn cancelled(&mut self)
        ensures
            final(self).pending is None,
    {
        self.pending = None;
    }

    /// Takes the result of a mount. A refusal is answered by asking for a
    /// password; the user is told of a wrong one only where one was given.
    pub fn finished(&mut self, uri: &str, anonymous: bool, result: MountResult) -> (r: RemoteStep)
        ensures
            match result {
                MountResult::Mounted(Some(p)) => r == RemoteStep::Navigate(p)
                    && final(self).pending is None,
                MountResult::Mounted(None) => {
                    &&& r matches RemoteStep::AskPassword(n, retry) && n@ == authority_name(uri@)
                        && !retry
                    &&& final(self).pending == old(self).pending
                },
                MountResult::Refused => {
                    &&& r matches RemoteStep::AskPassword(n, retry) && n@ == authority_name(uri@)
                        && retry == !anonymous
                    &&& final(self).pending == old(self).pending
                },
                MountResult::Aborted => r is Idle && final(self).pending is None,
            },
    {
        match result {
            MountResult::Mounted(Some(p)) => {
                self.pending = None;
                RemoteStep::Navigate(p)
            },
            MountResult::Mounted(None) => RemoteStep::AskPassword(display_authority(uri), false),
            MountResult::Refused => RemoteStep::AskPassword(display_authority(uri), !anonymous),
            MountResult::Aborted => {
                self.pending = None;
                RemoteStep::Idle
            },
        }
    }
}

} // verus!
