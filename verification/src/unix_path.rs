//! Unix paths as byte sequences, with the lexical operations of the standard
//! path type: components, file name, parent, joining, stem and extension.
use vstd::prelude::*;
use vstd::string::*;
use vstd::utf8::*;

verus! {

/// What `String::from_utf8_lossy` makes of bytes.
pub uninterp spec fn lossy(bytes: Seq<u8>) -> Seq<char>;

/// Calls `String::from_utf8_lossy`. Valid UTF-8 comes out as the text it
/// encodes; of other bytes only that the text depends on them alone.
#[verifier::external_body]
fn from_utf8_lossy(bytes: &[u8]) -> (r: String)
    ensures
        r@ == lossy(bytes@),
        valid_utf8(bytes@) ==> r@ == decode_utf8(bytes@),
{
    String::from_utf8_lossy(bytes).into_owned()
}

/// Calls `str::from_utf8`, which accepts exactly the valid UTF-8 and gives the
/// text that the bytes encode.
#[verifier::external_body]
fn from_utf8(bytes: &[u8]) -> (r: Option<String>)
    ensures
        r is Some == valid_utf8(bytes@),
        r matches Some(s) ==> s@ == decode_utf8(bytes@),
{
    core::str::from_utf8(bytes).ok().map(|s| s.to_owned())
}

/// The byte `/`.
pub open spec fn slash() -> u8 {
    47u8
}

/// The byte `.`.
pub open spec fn dot() -> u8 {
    46u8
}

/// Whether two slices hold the same bytes.
pub fn same_bytes(a: &[u8], b: &[u8]) -> (r: bool)
    ensures
        r == (a@ == b@),
{
    if a.len() != b.len() {
        return false;
    }
    let mut i: usize = 0;
    while i < a.len()
        invariant
            i <= a@.len(),
            a@.len() == b@.len(),
            forall|k: int| 0 <= k < i ==> a@[k] == b@[k],
        decreases a@.len() - i,
    {
        if a[i] != b[i] {
            return false;
        }
        i += 1;
    }
    assert(a@ =~= b@);
    true
}

/// Copies a slice of bytes.
pub fn copy_bytes(s: &[u8]) -> (v: Vec<u8>)
    ensures
        v@ == s@,
{
    let mut v: Vec<u8> = Vec::new();
    let mut i: usize = 0;
    while i < s.len()
        invariant
            i <= s@.len(),
            v@ == s@.take(i as int),
        decreases s@.len() - i,
    {
        v.push(s[i]);
        i += 1;
    }
    v
}

/// Appends a slice of bytes.
pub fn append_bytes(v: &mut Vec<u8>, s: &[u8])
    ensures
        final(v)@ == old(v)@ + s@,
{
    let mut i: usize = 0;
    assert(v@ =~= old(v)@ + s@.take(0));
    while i < s.len()
        invariant
            i <= s@.len(),
            v@ == old(v)@ + s@.take(i as int),
        decreases s@.len() - i,
    {
        v.push(s[i]);
        i += 1;
        assert(v@ =~= old(v)@ + s@.take(i as int));
    }
    assert(s@.take(i as int) =~= s@);
}

/// The position of the last `c` in `s`, or -1.
pub open spec fn last_byte(s: Seq<u8>, c: u8) -> int
    decreases s.len(),
{
    if s.len() == 0 {
        -1
    } else if s.last() == c {
        s.len() - 1
    } else {
        last_byte(s.drop_last(), c)
    }
}

pub proof fn lemma_last_byte(s: Seq<u8>, c: u8)
    ensures
        -1 <= last_byte(s, c) < s.len(),
        forall|k: int| last_byte(s, c) < k < s.len() ==> s[k] != c,
        last_byte(s, c) >= 0 ==> s[last_byte(s, c)] == c,
    decreases s.len(),
{
    if s.len() > 0 && s.last() != c {
        lemma_last_byte(s.drop_last(), c);
        assert forall|k: int| last_byte(s, c) < k < s.len() implies s[k] != c by {
            if k < s.len() - 1 {
                assert(s.drop_last()[k] == s[k]);
            }
        }
    }
}

/// The position of the last `c`.
pub fn rfind_byte(s: &[u8], c: u8) -> (r: Option<usize>)
    ensures
        match r {
            Some(i) => i < s@.len() && i == last_byte(s@, c),
            None => last_byte(s@, c) == -1,
        },
{
    let mut n: usize = s.len();
    while n > 0
        invariant
            n <= s@.len(),
            forall|k: int| n <= k < s@.len() ==> s@[k] != c,
        decreases n,
    {
        if s[n - 1] == c {
            proof {
                lemma_last_byte(s@, c);
            }
            return Some(n - 1);
        }
        n -= 1;
    }
    proof {
        lemma_last_byte(s@, c);
    }
    None
}

/// Whether a piece between separators names nothing: it is empty or `.`.
pub open spec fn idle(piece: Seq<u8>) -> bool {
    piece.len() == 0 || piece == seq![dot()]
}

/// Whether a piece names the parent directory.
pub open spec fn dot_dot(piece: Seq<u8>) -> bool {
    piece == seq![dot(), dot()]
}

/// Whether a path starts at the root.
pub open spec fn rooted(p: Seq<u8>) -> bool {
    p.len() > 0 && p[0] == slash()
}

/// Whether a path starts with the piece `.`.
pub open spec fn leading_dot(p: Seq<u8>) -> bool {
    p.len() > 0 && p[0] == dot() && (p.len() == 1 || p[1] == slash())
}

/// What a path starts with before its named pieces: the root, or a leading `.`.
pub open spec fn head(p: Seq<u8>) -> Seq<Seq<u8>> {
    if rooted(p) {
        seq![seq![slash()]]
    } else if leading_dot(p) {
        seq![seq![dot()]]
    } else {
        Seq::empty()
    }
}

/// The pieces of a path that name something, in order.
pub open spec fn body(p: Seq<u8>) -> Seq<Seq<u8>>
    decreases p.len(),
    via body_decreases
{
    let i = last_byte(p, slash());
    let piece = p.skip(i + 1);
    let before = if i < 0 {
        Seq::empty()
    } else {
        body(p.take(i))
    };
    if idle(piece) {
        before
    } else {
        before.push(piece)
    }
}

#[via_fn]
proof fn body_decreases(p: Seq<u8>) {
    lemma_last_byte(p, slash());
}

/// The components of a path: the root as `/`, a leading `.`, and the named
/// pieces. Two paths are equal when their components are.
pub open spec fn components(p: Seq<u8>) -> Seq<Seq<u8>> {
    head(p) + body(p)
}

/// A path without the separators and `.` pieces at its end.
pub open spec fn without_tail(p: Seq<u8>) -> Seq<u8>
    decreases p.len(),
    via without_tail_decreases
{
    let i = last_byte(p, slash());
    if i >= 0 && idle(p.skip(i + 1)) {
        without_tail(p.take(i))
    } else {
        p
    }
}

#[via_fn]
proof fn without_tail_decreases(p: Seq<u8>) {
    lemma_last_byte(p, slash());
}

/// The last component where it is a name: not the root, `.` or `..`.
pub open spec fn file_name(p: Seq<u8>) -> Option<Seq<u8>> {
    let t = without_tail(p);
    let piece = t.skip(last_byte(t, slash()) + 1);
    if idle(piece) || dot_dot(piece) {
        None
    } else {
        Some(piece)
    }
}

/// The path without its last component; nothing for the root and the empty
/// path.
pub open spec fn parent(p: Seq<u8>) -> Option<Seq<u8>> {
    let t = without_tail(p);
    let i = last_byte(t, slash());
    if t.len() == 0 {
        None
    } else if i < 0 {
        Some(Seq::empty())
    } else {
        let q = without_tail(t.take(i));
        if q.len() == 0 {
            Some(seq![slash()])
        } else {
            Some(q)
        }
    }
}

/// `rel` looked up from `base`: `rel` itself where it starts at the root.
pub open spec fn joined(base: Seq<u8>, rel: Seq<u8>) -> Seq<u8> {
    if rooted(rel) {
        rel
    } else if base.len() == 0 || base.last() == slash() {
        base + rel
    } else {
        base.push(slash()) + rel
    }
}

/// The part of a file name after its last dot, unless the name has no other dot
/// than a leading one.
pub open spec fn name_extension(name: Seq<u8>) -> Option<Seq<u8>> {
    let i = last_byte(name, dot());
    if i > 0 {
        Some(name.skip(i + 1))
    } else {
        None
    }
}

/// The part of a file name before its extension.
pub open spec fn name_stem(name: Seq<u8>) -> Seq<u8> {
    let i = last_byte(name, dot());
    if i > 0 {
        name.take(i)
    } else {
        name
    }
}

/// The extension of a path's file name.
pub open spec fn extension(p: Seq<u8>) -> Option<Seq<u8>> {
    match file_name(p) {
        Some(n) => name_extension(n),
        None => None,
    }
}

/// The stem of a path's file name.
pub open spec fn file_stem(p: Seq<u8>) -> Option<Seq<u8>> {
    match file_name(p) {
        Some(n) => Some(name_stem(n)),
        None => None,
    }
}

/// Whether `name` can name an entry of a directory: it is not empty, `.` or
/// `..`, and has no separator.
pub open spec fn plain_name(name: Seq<u8>) -> bool {
    !idle(name) && !dot_dot(name) && !name.contains(slash())
}

proof fn lemma_without_tail(p: Seq<u8>)
    ensures
        without_tail(p).is_prefix_of(p),
        body(without_tail(p)) == body(p),
        without_tail(p).len() > 0 ==> head(without_tail(p)) == head(p),
        without_tail(p).len() == 0 ==> body(p).len() == 0 && (p.len() == 0 || rooted(p)),
        without_tail(p).len() > 0 ==> {
            let t = without_tail(p);
            let i = last_byte(t, slash());
            i < 0 || !idle(t.skip(i + 1))
        },
    decreases p.len(),
{
    lemma_last_byte(p, slash());
    let i = last_byte(p, slash());
    if i >= 0 && idle(p.skip(i + 1)) {
        let q = p.take(i);
        lemma_without_tail(q);
        assert(without_tail(p) == without_tail(q));
        assert(without_tail(q).is_prefix_of(p)) by {
            assert(without_tail(q) =~= p.subrange(0, without_tail(q).len() as int));
        }
        assert(body(p) == body(q));
        if without_tail(q).len() > 0 {
            assert(q[0] == p[0]);
            if q.len() > 1 {
                assert(q[1] == p[1]);
            } else {
                assert(p[1] == slash());
            }
            assert(head(q) == head(p));
        } else if q.len() > 0 {
            assert(q[0] == p[0]);
        } else {
            assert(p[0] == slash());
        }
    } else {
        assert(p =~= p.subrange(0, p.len() as int));
        if p.len() == 0 {
            assert(p.skip(0).len() == 0);
        }
    }
}

/// The parent of a path has all its components but the last.
pub proof fn parent_drops_last(p: Seq<u8>)
    ensures
        parent(p) is Some <==> components(p).len() > 0 && components(p) != seq![seq![slash()]],
        parent(p) matches Some(q) ==> components(q) == components(p).drop_last(),
{
    let t = without_tail(p);
    lemma_without_tail(p);
    lemma_last_byte(t, slash());
    let i = last_byte(t, slash());
    let root = seq![slash()];
    assert(t.skip(0) =~= t);
    if t.len() == 0 {
        assert(components(p) =~= head(p));
        if p.len() > 0 {
            assert(components(p) =~= seq![root]);
        }
    } else if i < 0 {
        assert(!rooted(t));
        assert(body(Seq::<u8>::empty()).len() == 0) by {
            assert(Seq::<u8>::empty().skip(0).len() == 0);
        }
        if idle(t) {
            assert(t =~= seq![dot()]);
            assert(components(p) =~= seq![seq![dot()]]);
            assert(seq![dot()][0] != root[0]);
            assert(components(p)[0] != root);
        } else {
            assert(!leading_dot(t)) by {
                if leading_dot(t) {
                    if t.len() == 1 {
                        assert(t =~= seq![dot()]);
                    } else {
                        assert(t[1] == slash());
                    }
                }
            }
            assert(body(t) =~= seq![t]);
            assert(components(p) =~= seq![t]);
            assert(t[0] != slash());
            assert(components(p)[0] != root);
        }
        assert(components(Seq::<u8>::empty()) =~= components(p).drop_last());
    } else {
        let piece = t.skip(i + 1);
        let u = t.take(i);
        let q = without_tail(u);
        assert(body(t) == body(u).push(piece));
        lemma_without_tail(u);
        assert(components(p).last() == piece);
        assert(!piece.contains(slash()));
        assert(root[0] == slash());
        if components(p) == seq![root] {
            assert(piece == root);
            assert(piece.contains(root[0]));
        }
        if q.len() == 0 {
            assert(body(u).len() == 0);
            assert(rooted(t)) by {
                if u.len() > 0 {
                    assert(u[0] == t[0]);
                }
            }
            assert(head(root) == seq![root]);
            assert(body(root).len() == 0) by {
                lemma_last_byte(root, slash());
                assert(root.last() == slash());
                assert(last_byte(root, slash()) == 0);
                assert(root.skip(1).len() == 0);
                assert(root.take(0) =~= Seq::empty());
                assert(Seq::<u8>::empty().skip(0).len() == 0);
                assert(body(Seq::<u8>::empty()).len() == 0);
                assert(body(root) == body(root.take(0)));
            }
            assert(components(root) =~= components(p).drop_last());
        } else {
            assert(u[0] == t[0]);
            if u.len() > 1 {
                assert(u[1] == t[1]);
            } else {
                assert(t[1] == slash());
            }
            assert(head(u) == head(t));
            assert(components(q) =~= components(p).drop_last());
        }
    }
}

/// An entry of a directory has its own name as file name, and the directory as
/// parent.
pub proof fn joined_entry(base: Seq<u8>, name: Seq<u8>)
    requires
        plain_name(name),
    ensures
        file_name(joined(base, name)) == Some(name),
        components(joined(base, name)) == components(base).push(name),
        parent(joined(base, name)) matches Some(q) && components(q) == components(base),
{
    let p = joined(base, name);
    assert(!rooted(name)) by {
        if rooted(name) {
            assert(name.contains(name[0]));
        }
    }
    lemma_last_byte(p, slash());
    let i = last_byte(p, slash());
    let n: int = p.len() - name.len();
    assert forall|k: int| n <= k < p.len() implies p[k] != slash() by {
        assert(p[k] == name[k - n]);
        assert(name.contains(name[k - n]));
    }
    if n > 0 {
        assert(p[n - 1] == slash());
    }
    assert(i == n - 1);
    assert(p.skip(i + 1) =~= name);
    assert(without_tail(p) == p);
    assert(components(p) =~= components(base).push(name)) by {
        if base.len() == 0 {
            assert(p =~= name);
            assert(!leading_dot(p)) by {
                if leading_dot(p) {
                    if p.len() == 1 {
                        assert(name =~= seq![dot()]);
                    }
                }
            }
            assert(components(base) =~= Seq::empty()) by {
                assert(base.skip(0).len() == 0);
            }
            assert(body(p) =~= seq![name]);
        } else {
            assert(p[0] == base[0]);
            if base.len() > 1 {
                assert(p[1] == base[1]);
            } else if base[0] != slash() {
                assert(p[1] == slash());
            }
            assert(head(p) == head(base));
            assert(body(p) == body(p.take(i)).push(name));
            if base.last() == slash() {
                lemma_last_byte(base, slash());
                assert(p.take(i) =~= base.drop_last());
                assert(base.skip(base.len() as int).len() == 0);
                assert(base.take(base.len() - 1) =~= base.drop_last());
                assert(body(base) == body(base.drop_last()));
            } else {
                assert(p.take(i) =~= base);
            }
        }
    }
    parent_drops_last(p);
    assert(components(p).last() == name);
    assert(components(base).push(name).drop_last() =~= components(base));
    if components(p) == seq![seq![slash()]] {
        assert(name == seq![slash()]);
        assert(name.contains(seq![slash()][0]));
    }
}

/// The views of a list of byte strings.
pub open spec fn byte_views(v: Seq<Vec<u8>>) -> Seq<Seq<u8>> {
    v.map_values(|b: Vec<u8>| b@)
}

/// A path.
#[derive(Debug)]
pub struct UnixPath {
    pub bytes: Vec<u8>,
}

impl View for UnixPath {
    type V = Seq<u8>;

    open spec fn view(&self) -> Seq<u8> {
        self.bytes@
    }
}

impl Clone for UnixPath {
    fn clone(&self) -> (r: Self)
        ensures
            r@ == self@,
    {
        UnixPath { bytes: copy_bytes(&self.bytes) }
    }
}

impl PartialEq for UnixPath {
    fn eq(&self, other: &Self) -> (r: bool) {
        self.same(other)
    }
}

impl vstd::std_specs::cmp::PartialEqSpecImpl for UnixPath {
    open spec fn obeys_eq_spec() -> bool {
        true
    }

    open spec fn eq_spec(&self, other: &Self) -> bool {
        components(self@) == components(other@)
    }
}

impl Eq for UnixPath {

}

/// Whether a piece names nothing.
fn is_idle(piece: &[u8]) -> (r: bool)
    ensures
        r == idle(piece@),
{
    let r: bool = piece.len() == 0 || (piece.len() == 1 && piece[0] == 46u8);
    assert(r ==> piece@.len() == 0 || piece@ =~= seq![dot()]);
    r
}

/// The components of a path.
pub fn components_of(p: &[u8]) -> (r: Vec<Vec<u8>>)
    ensures
        byte_views(r@) == components(p@),
{
    let mut out: Vec<Vec<u8>> = if p.len() > 0 && p[0] == 47u8 {
        let mut v: Vec<Vec<u8>> = Vec::new();
        let piece = copy_bytes(&p[0..1]);
        assert(piece@ =~= seq![slash()]);
        v.push(piece);
        v
    } else if p.len() > 0 && p[0] == 46u8 && (p.len() == 1 || p[1] == 47u8) {
        let mut v: Vec<Vec<u8>> = Vec::new();
        let piece = copy_bytes(&p[0..1]);
        assert(piece@ =~= seq![dot()]);
        v.push(piece);
        v
    } else {
        Vec::new()
    };
    assert(byte_views(out@) =~= head(p@));
    let mut rest = body_of(p);
    let ghost before = out@;
    out.append(&mut rest);
    assert(byte_views(out@) =~= components(p@));
    out
}

/// The pieces of a path that name something.
fn body_of(p: &[u8]) -> (r: Vec<Vec<u8>>)
    ensures
        byte_views(r@) == body(p@),
    decreases p@.len(),
{
    proof {
        lemma_last_byte(p@, slash());
    }
    let n: usize = p.len();
    let (mut before, start): (Vec<Vec<u8>>, usize) = match rfind_byte(p, 47u8) {
        Some(i) => {
            assert(p@.subrange(0, i as int) =~= p@.take(i as int));
            (body_of(&p[0..i]), i + 1)
        },
        None => {
            let none: Vec<Vec<u8>> = Vec::new();
            assert(byte_views(none@) =~= Seq::empty());
            (none, 0)
        },
    };
    let piece: &[u8] = &p[start..n];
    assert(piece@ =~= p@.skip(start as int));
    if !is_idle(piece) {
        let ghost b = before@;
        before.push(copy_bytes(piece));
        assert(byte_views(before@) =~= byte_views(b).push(piece@));
    }
    before
}

/// The length of a path without the separators and `.` pieces at its end.
fn tail_start(p: &[u8]) -> (n: usize)
    ensures
        n <= p@.len(),
        p@.take(n as int) == without_tail(p@),
{
    let mut n: usize = p.len();
    assert(p@.take(n as int) =~= p@);
    loop
        invariant
            n <= p@.len(),
            without_tail(p@) == without_tail(p@.take(n as int)),
        decreases n,
    {
        let t: &[u8] = &p[0..n];
        assert(t@ =~= p@.take(n as int));
        proof {
            lemma_last_byte(t@, slash());
        }
        match rfind_byte(t, 47u8) {
            Some(i) => {
                assert(t@.subrange(i + 1, n as int) =~= t@.skip(i + 1));
                if is_idle(&t[i + 1..n]) {
                    assert(t@.take(i as int) =~= p@.take(i as int));
                    n = i;
                } else {
                    return n;
                }
            },
            None => {
                return n;
            },
        }
    }
}

/// Whether two lists hold the same byte strings.
fn same_lists(a: &Vec<Vec<u8>>, b: &Vec<Vec<u8>>, n: usize) -> (r: bool)
    requires
        n <= a@.len(),
        n <= b@.len(),
    ensures
        r == (byte_views(a@).take(n as int) == byte_views(b@).take(n as int)),
{
    let mut i: usize = 0;
    while i < n
        invariant
            i <= n,
            n <= a@.len(),
            n <= b@.len(),
            forall|k: int| 0 <= k < i ==> a@[k]@ == b@[k]@,
        decreases n - i,
    {
        if !same_bytes(&a[i], &b[i]) {
            assert(byte_views(a@).take(n as int)[i as int] == a@[i as int]@);
            assert(byte_views(b@).take(n as int)[i as int] == b@[i as int]@);
            return false;
        }
        i += 1;
    }
    assert(byte_views(a@).take(n as int) =~= byte_views(b@).take(n as int));
    true
}

impl UnixPath {
    /// The path that a text spells.
    pub fn new(s: &str) -> (r: Self)
        ensures
            r@ == encode_utf8(s@),
    {
        UnixPath { bytes: copy_bytes(s.as_bytes()) }
    }

    /// The path that bytes spell.
    pub fn from_bytes(bytes: &[u8]) -> (r: Self)
        ensures
            r@ == bytes@,
    {
        UnixPath { bytes: copy_bytes(bytes) }
    }

    /// The components of the path.
    pub fn components(&self) -> (r: Vec<Vec<u8>>)
        ensures
            byte_views(r@) == components(self@),
    {
        components_of(&self.bytes)
    }

    /// Whether the path starts at the root.
    pub fn is_absolute(&self) -> (r: bool)
        ensures
            r == rooted(self@),
    {
        self.bytes.len() > 0 && self.bytes[0] == 47u8
    }

    /// Whether the two paths have the same components.
    pub fn same(&self, other: &UnixPath) -> (r: bool)
        ensures
            r == (components(self@) == components(other@)),
    {
        let a = self.components();
        let b = other.components();
        if a.len() != b.len() {
            assert(byte_views(a@).len() != byte_views(b@).len());
            return false;
        }
        assert(byte_views(a@).take(a@.len() as int) =~= byte_views(a@));
        assert(byte_views(b@).take(a@.len() as int) =~= byte_views(b@));
        same_lists(&a, &b, a.len())
    }

    /// Whether the components of `base` come first among those of the path.
    pub fn starts_with(&self, base: &UnixPath) -> (r: bool)
        ensures
            r == components(base@).is_prefix_of(components(self@)),
    {
        let a = self.components();
        let b = base.components();
        if b.len() > a.len() {
            assert(byte_views(b@).len() > byte_views(a@).len());
            return false;
        }
        assert(byte_views(b@).take(b@.len() as int) =~= byte_views(b@));
        assert(byte_views(a@).take(b@.len() as int) =~= byte_views(a@).subrange(
            0,
            b@.len() as int,
        ));
        same_lists(&b, &a, b.len())
    }

    /// The last component where it is a name.
    pub fn file_name(&self) -> (r: Option<Vec<u8>>)
        ensures
            match r {
                Some(n) => file_name(self@) == Some(n@),
                None => file_name(self@) is None,
            },
    {
        let n: usize = tail_start(&self.bytes);
        let t: &[u8] = &self.bytes[0..n];
        assert(t@ =~= without_tail(self@));
        proof {
            lemma_last_byte(t@, slash());
        }
        let start: usize = match rfind_byte(t, 47u8) {
            Some(i) => i + 1,
            None => 0,
        };
        let piece: &[u8] = &t[start..n];
        assert(piece@ =~= t@.skip(start as int));
        if is_idle(piece) {
            return None;
        }
        if piece.len() == 2 && piece[0] == 46u8 && piece[1] == 46u8 {
            assert(piece@ =~= seq![dot(), dot()]);
            return None;
        }
        Some(copy_bytes(piece))
    }

    /// The path without its last component.
    pub fn parent(&self) -> (r: Option<UnixPath>)
        ensures
            match r {
                Some(q) => parent(self@) == Some(q@),
                None => parent(self@) is None,
            },
    {
        let n: usize = tail_start(&self.bytes);
        if n == 0 {
            assert(without_tail(self@).len() == 0);
            return None;
        }
        let t: &[u8] = &self.bytes[0..n];
        assert(t@ =~= without_tail(self@));
        proof {
            lemma_last_byte(t@, slash());
        }
        match rfind_byte(t, 47u8) {
            None => {
                let empty: Vec<u8> = Vec::new();
                assert(empty@ =~= Seq::empty());
                Some(UnixPath { bytes: empty })
            },
            Some(i) => {
                let m: usize = tail_start(&t[0..i]);
                assert(t@.subrange(0, i as int) =~= t@.take(i as int));
                if m == 0 {
                    assert(without_tail(t@.take(i as int)).len() == 0);
                    let mut root: Vec<u8> = Vec::new();
                    root.push(47u8);
                    assert(root@ =~= seq![slash()]);
                    Some(UnixPath { bytes: root })
                } else {
                    assert(t@.subrange(0, m as int) =~= t@.take(i as int).take(m as int));
                    Some(UnixPath { bytes: copy_bytes(&t[0..m]) })
                }
            },
        }
    }

    /// `rel` looked up from this path.
    pub fn join_bytes(&self, rel: &[u8]) -> (r: UnixPath)
        ensures
            r@ == joined(self@, rel@),
    {
        if rel.len() > 0 && rel[0] == 47u8 {
            return UnixPath { bytes: copy_bytes(rel) };
        }
        let mut bytes = copy_bytes(&self.bytes);
        if bytes.len() > 0 && bytes[bytes.len() - 1] != 47u8 {
            bytes.push(47u8);
        }
        append_bytes(&mut bytes, rel);
        UnixPath { bytes }
    }

    /// `rel` looked up from this path.
    pub fn join(&self, rel: &str) -> (r: UnixPath)
        ensures
            r@ == joined(self@, encode_utf8(rel@)),
    {
        self.join_bytes(rel.as_bytes())
    }

    /// The extension of the file name.
    pub fn extension(&self) -> (r: Option<Vec<u8>>)
        ensures
            match r {
                Some(e) => extension(self@) == Some(e@),
                None => extension(self@) is None,
            },
    {
        match self.file_name() {
            Some(n) => {
                match rfind_byte(&n, 46u8) {
                    Some(i) => {
                        if i > 0 {
                            let len: usize = n.len();
                            assert(n@.subrange(i + 1, len as int) =~= n@.skip(i + 1));
                            Some(copy_bytes(&n[i + 1..len]))
                        } else {
                            None
                        }
                    },
                    None => None,
                }
            },
            None => None,
        }
    }

    /// The stem of the file name.
    pub fn file_stem(&self) -> (r: Option<Vec<u8>>)
        ensures
            match r {
                Some(e) => file_stem(self@) == Some(e@),
                None => file_stem(self@) is None,
            },
    {
        match self.file_name() {
            Some(n) => {
                match rfind_byte(&n, 46u8) {
                    Some(i) => {
                        if i > 0 {
                            assert(n@.subrange(0, i as int) =~= n@.take(i as int));
                            Some(copy_bytes(&n[0..i]))
                        } else {
                            Some(n)
                        }
                    },
                    None => Some(n),
                }
            },
            None => None,
        }
    }

    /// The path as text, with what is not UTF-8 replaced.
    pub fn display(&self) -> (r: String)
        ensures
            r@ == lossy(self@),
            valid_utf8(self@) ==> r@ == decode_utf8(self@),
    {
        from_utf8_lossy(&self.bytes)
    }

    /// The path as text, if it is UTF-8.
    pub fn to_text(&self) -> (r: Option<String>)
        ensures
            r is Some == valid_utf8(self@),
            r matches Some(s) ==> s@ == decode_utf8(self@),
    {
        from_utf8(&self.bytes)
    }
}

/// Bytes as text, with what is not UTF-8 replaced.
pub fn lossy_text(bytes: &[u8]) -> (r: String)
    ensures
        r@ == lossy(bytes@),
        valid_utf8(bytes@) ==> r@ == decode_utf8(bytes@),
{
    from_utf8_lossy(bytes)
}

/// Bytes as text, if they are UTF-8.
pub fn strict_text(bytes: &[u8]) -> (r: Option<String>)
    ensures
        r is Some == valid_utf8(bytes@),
        r matches Some(s) ==> s@ == decode_utf8(bytes@),
{
    from_utf8(bytes)
}

/// Slashes at the end of a path do not matter, and neither do the dots that stand
/// for the folder itself.
pub proof fn slashes_at_the_end_do_not_matter(p: Seq<u8>)
    requires
        p.len() > 0,
    ensures
        components(p.push(slash())) == components(p),
        components(p.push(slash()).push(dot())) == components(p),
{
    let q = p.push(slash());
    lemma_last_byte(q, slash());
    assert(q.last() == slash());
    assert(last_byte(q, slash()) == p.len());
    assert(q.skip(p.len() as int + 1).len() == 0);
    assert(q.take(p.len() as int) =~= p);
    assert(body(q) == body(p));
    let r = q.push(dot());
    lemma_last_byte(r, slash());
    assert(r[p.len() as int] == slash());
    assert(r.last() != slash());
    assert(r.drop_last() =~= q);
    assert(last_byte(r, slash()) == p.len());
    assert(r.skip(p.len() as int + 1) =~= seq![dot()]);
    assert(r.take(p.len() as int) =~= p);
    assert(body(r) == body(p));
    assert(q[0] == p[0]);
    assert(r[0] == p[0]);
    if p.len() > 1 {
        assert(q[1] == p[1]);
        assert(r[1] == p[1]);
    } else {
        assert(q[1] == slash());
        assert(r[1] == slash());
    }
    assert(head(q) == head(p));
    assert(head(r) == head(p));
}

/// The name of an entry is the last component of its path.
pub proof fn the_name_is_the_last_component(p: Seq<u8>)
    ensures
        file_name(p) matches Some(n) ==> components(p).len() > 0 && components(p).last() == n
            && plain_name(n),
{
    if file_name(p) is Some {
        let n = file_name(p)->0;
        let t = without_tail(p);
        lemma_without_tail(p);
        lemma_last_byte(t, slash());
        let i = last_byte(t, slash());
        assert(body(t).last() == n);
        assert(!n.contains(slash())) by {
            assert forall|k: int| 0 <= k < n.len() implies n[k] != slash() by {
                assert(n[k] == t[i + 1 + k]);
            }
        }
    }
}

} // verus!
