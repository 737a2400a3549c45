//! The list of default applications: reading the default for a MIME type and
//! setting it while everything else in the file stays.
use crate::text::{
    chars_of, first_of, lemma_first_of, lemma_first_of_unique, lines, lines_of, opt_view,
    same_chars, split_at_char, split_char, split_once, split_once_at, starts_with, string_of, trim,
    trim_start, trimmed, trimmed_end, trimmed_start, white, without_cr,
};
use vstd::prelude::*;
use vstd::string::*;

verus! {

/// Whether a line, without surrounding space, names a section.
pub open spec fn bracketed(t: Seq<char>) -> bool {
    t.len() > 0 && t[0] == '[' && t.last() == ']'
}

/// Whether a line names the section of default applications.
pub open spec fn names_defaults(t: Seq<char>) -> bool {
    t == "[Default Applications]"@
}

/// The default in what stands behind the equals sign: the first of a list.
pub open spec fn first_id(value: Seq<char>) -> Option<Seq<char>> {
    let id = trimmed(split_at_char(value, ';')[0]);
    if id.len() == 0 {
        None
    } else {
        Some(id)
    }
}

/// The value that a line, without surrounding space, gives to a key.
pub open spec fn assigned(t: Seq<char>, key: Seq<char>) -> Option<Seq<char>> {
    match split_once_at(t, '=') {
        Some((k, v)) => if trimmed(k) == key {
            Some(v)
        } else {
            None
        },
        None => None,
    }
}

/// Whether a line, without surrounding space, says nothing.
pub open spec fn silent(t: Seq<char>) -> bool {
    t.len() == 0 || t[0] == '#'
}

/// The default for a MIME type in lines, where `inside` says whether they begin
/// in the section of defaults.
pub open spec fn default_in(ls: Seq<Seq<char>>, mime: Seq<char>, inside: bool) -> Option<Seq<char>>
    decreases ls.len(),
{
    if ls.len() == 0 {
        None
    } else {
        let t = trimmed(ls[0]);
        let rest = ls.skip(1);
        if silent(t) {
            default_in(rest, mime, inside)
        } else if bracketed(t) {
            default_in(rest, mime, names_defaults(t))
        } else if inside && assigned(t, mime) is Some {
            first_id(assigned(t, mime)->0)
        } else {
            default_in(rest, mime, inside)
        }
    }
}

fn is_bracketed(t: &[char]) -> (r: bool)
    ensures
        r == bracketed(t@),
{
    t.len() > 0 && t[0] == '[' && t[t.len() - 1] == ']'
}

fn assigned_value<'a>(t: &'a [char], key: &[char]) -> (r: Option<&'a [char]>)
    ensures
        match r {
            Some(v) => assigned(t@, key@) == Some(v@),
            None => assigned(t@, key@) is None,
        },
{
    match split_once(t, '=') {
        Some((k, v)) => {
            if same_chars(trim(k), key) {
                Some(v)
            } else {
                None
            }
        },
        None => None,
    }
}

/// The default for a MIME type in the text of a list of defaults: the first
/// that the section of defaults gives.
pub fn parse_mimeapps_default(raw: &str, mime: &str) -> (r: Option<String>)
    ensures
        opt_view(r) == default_in(lines_of(raw@), mime@, false),
{
    let all = lines(&chars_of(raw));
    let key = chars_of(mime);
    let ghost ls = lines_of(raw@);
    let mut inside: bool = false;
    let mut i: usize = 0;
    assert(ls.skip(0) =~= ls);
    while i < all.len()
        invariant
            i <= all@.len(),
            all@.len() == ls.len(),
            ls == lines_of(raw@),
            key@ == mime@,
            forall|k: int| 0 <= k < all@.len() ==> (#[trigger] all@[k])@ == ls[k],
            default_in(ls, mime@, false) == default_in(ls.skip(i as int), mime@, inside),
        decreases all@.len() - i,
    {
        let t = trim(&all[i]);
        assert(ls.skip(i as int)[0] == all@[i as int]@);
        assert(ls.skip(i as int).skip(1) =~= ls.skip(i + 1));
        i += 1;
        if t.len() == 0 || t[0] == '#' {
            continue ;
        }
        if is_bracketed(t) {
            inside = same_chars(t, &chars_of("[Default Applications]"));
            continue ;
        }
        if !inside {
            continue ;
        }
        if let Some(v) = assigned_value(t, &key) {
            let parts = split_char(v, ';');
            let id = trim(&parts[0]);
            if id.len() == 0 {
                return None;
            }
            return Some(string_of(id));
        }
    }
    None
}

// ---------------------------------------------------------------------------
// Setting a default
// ---------------------------------------------------------------------------

/// The first line from `a` on and before `b` that `p` holds of, or `b`.
pub open spec fn first_line(
    ls: Seq<Seq<char>>,
    a: int,
    b: int,
    p: spec_fn(Seq<char>) -> bool,
) -> int
    decreases b - a,
{
    if a >= b {
        b
    } else if p(ls[a]) {
        a
    } else {
        first_line(ls, a + 1, b, p)
    }
}

/// Says of a line that it names the section of defaults.
pub open spec fn starts_defaults() -> spec_fn(Seq<char>) -> bool {
    |l: Seq<char>| names_defaults(trimmed(l))
}

/// Says of a line that it names a section.
pub open spec fn starts_section() -> spec_fn(Seq<char>) -> bool {
    |l: Seq<char>| bracketed(trimmed(l))
}

/// Says of a line that it begins with a key and the equals sign.
pub open spec fn sets_key(key: Seq<char>) -> spec_fn(Seq<char>) -> bool {
    |l: Seq<char>| (key + "="@).is_prefix_of(trimmed_start(l))
}

/// The line that names the section of defaults, or the number of lines.
pub open spec fn section_start(ls: Seq<Seq<char>>) -> int {
    first_line(ls, 0, ls.len() as int, starts_defaults())
}

/// The line after the section that begins at `start`.
pub open spec fn section_end(ls: Seq<Seq<char>>, start: int) -> int {
    first_line(ls, start + 1, ls.len() as int, starts_section())
}

/// The line that sets the default for a MIME type.
pub open spec fn default_line(mime: Seq<char>, id: Seq<char>) -> Seq<char> {
    mime + "="@ + id
}

/// The lines once a default is set: its line in the section of defaults is
/// replaced, or added at the end of the section, or the section is added.
pub open spec fn with_default(ls: Seq<Seq<char>>, mime: Seq<char>, id: Seq<char>) -> Seq<Seq<char>> {
    let start = section_start(ls);
    let end = section_end(ls, start);
    let at = first_line(ls, start + 1, end, sets_key(mime));
    if start >= ls.len() {
        let gap = if ls.len() > 0 && trimmed(ls.last()).len() > 0 {
            seq![Seq::<char>::empty()]
        } else {
            Seq::empty()
        };
        ls + gap + seq!["[Default Applications]"@, default_line(mime, id)]
    } else if at < end {
        ls.update(at, default_line(mime, id))
    } else {
        ls.insert(end, default_line(mime, id))
    }
}

/// Lines as a text, each with a line feed at its end.
pub open spec fn ended(ls: Seq<Seq<char>>) -> Seq<char>
    decreases ls.len(),
{
    if ls.len() == 0 {
        Seq::empty()
    } else {
        ended(ls.drop_last()) + ls.last() + "\n"@
    }
}

proof fn lemma_first_line(ls: Seq<Seq<char>>, a: int, b: int, p: spec_fn(Seq<char>) -> bool)
    requires
        0 <= a <= b <= ls.len(),
    ensures
        a <= first_line(ls, a, b, p) <= b,
        forall|k: int| a <= k < first_line(ls, a, b, p) ==> !p(#[trigger] ls[k]),
        first_line(ls, a, b, p) < b ==> p(ls[first_line(ls, a, b, p)]),
    decreases b - a,
{
    if a < b && !p(ls[a]) {
        lemma_first_line(ls, a + 1, b, p);
    }
}

/// The views of a list of lines.
pub open spec fn line_views(v: Seq<Vec<char>>) -> Seq<Seq<char>> {
    v.map_values(|l: Vec<char>| l@)
}

fn find_defaults(ls: &Vec<Vec<char>>) -> (r: usize)
    ensures
        r == section_start(line_views(ls@)),
        r <= ls@.len(),
{
    let ghost s = line_views(ls@);
    let ghost p = starts_defaults();
    let name = chars_of("[Default Applications]");
    let mut i: usize = 0;
    while i < ls.len()
        invariant
            i <= ls@.len(),
            s == line_views(ls@),
            p == starts_defaults(),
            name@ == "[Default Applications]"@,
            first_line(s, 0, s.len() as int, p) == first_line(s, i as int, s.len() as int, p),
        decreases ls@.len() - i,
    {
        assert(s[i as int] == ls@[i as int]@);
        if same_chars(trim(&ls[i]), &name) {
            return i;
        }
        i += 1;
    }
    i
}

fn find_section_end(ls: &Vec<Vec<char>>, start: usize) -> (r: usize)
    requires
        start < ls@.len(),
    ensures
        r == section_end(line_views(ls@), start as int),
        start < r <= ls@.len(),
{
    let ghost s = line_views(ls@);
    let ghost p = starts_section();
    let n: usize = ls.len();
    let mut i: usize = start + 1;
    while i < ls.len()
        invariant
            start < i <= ls@.len(),
            s == line_views(ls@),
            p == starts_section(),
            first_line(s, start + 1, s.len() as int, p) == first_line(
                s,
                i as int,
                s.len() as int,
                p,
            ),
        decreases ls@.len() - i,
    {
        assert(s[i as int] == ls@[i as int]@);
        if is_bracketed(trim(&ls[i])) {
            return i;
        }
        i += 1;
    }
    i
}

fn find_entry(ls: &Vec<Vec<char>>, start: usize, end: usize, prefix: &[char], key: Ghost<Seq<char>>) -> (r:
    usize)
    requires
        start < end <= ls@.len(),
        prefix@ == key@ + "="@,
    ensures
        r == first_line(line_views(ls@), start + 1, end as int, sets_key(key@)),
        start < r <= end,
{
    let ghost s = line_views(ls@);
    let ghost p = sets_key(key@);
    let mut i: usize = start + 1;
    while i < end
        invariant
            start < i <= end,
            end <= ls@.len(),
            s == line_views(ls@),
            p == sets_key(key@),
            prefix@ == key@ + "="@,
            first_line(s, start + 1, end as int, p) == first_line(s, i as int, end as int, p),
        decreases end - i,
    {
        assert(s[i as int] == ls@[i as int]@);
        if starts_with(trim_start(&ls[i]), prefix) {
            return i;
        }
        i += 1;
    }
    i
}

fn push_text(out: &mut String, line: &[char])
    ensures
        final(out)@ == old(out)@ + line@ + "\n"@,
{
    out.append(string_of(line).as_str());
    out.append("\n");
}

/// Sets the default for a MIME type in the text of a list of defaults. Every
/// other line stays.
pub fn upsert_default_app(content: &str, mime: &str, id: &str) -> (r: String)
    ensures
        r@ == ended(with_default(lines_of(content@), mime@, id@)),
{
    let mut ls = lines(&chars_of(content));
    let ghost old_ls = line_views(ls@);
    assert(old_ls =~= lines_of(content@));
    let mut prefix_text: String = mime.to_owned();
    prefix_text.append("=");
    let prefix = chars_of(prefix_text.as_str());
    prefix_text.append(id);
    let new_line = chars_of(prefix_text.as_str());
    let n: usize = ls.len();
    let start: usize = find_defaults(&ls);
    if start < n {
        let end: usize = find_section_end(&ls, start);
        let at: usize = find_entry(&ls, start, end, &prefix, Ghost(mime@));
        if at < end {
            ls.set(at, new_line);
            assert(line_views(ls@) =~= old_ls.update(at as int, default_line(mime@, id@)));
        } else {
            ls.insert(end, new_line);
            assert(line_views(ls@) =~= old_ls.insert(end as int, default_line(mime@, id@)));
        }
    } else {
        if n > 0 && trim(&ls[n - 1]).len() > 0 {
            assert(old_ls.last() == ls@[n - 1]@);
            let empty: Vec<char> = Vec::new();
            assert(empty@ =~= Seq::empty());
            ls.push(empty);
        }
        ls.push(chars_of("[Default Applications]"));
        ls.push(new_line);
        assert(line_views(ls@) =~= with_default(old_ls, mime@, id@));
    }
    assert(line_views(ls@) == with_default(old_ls, mime@, id@));
    let ghost all = line_views(ls@);
    let mut out: String = String::new();
    let mut i: usize = 0;
    assert(all.take(0) =~= Seq::empty());
    while i < ls.len()
        invariant
            i <= ls@.len(),
            all == line_views(ls@),
            out@ == ended(all.take(i as int)),
        decreases ls@.len() - i,
    {
        proof {
            assert(all.take(i + 1).drop_last() =~= all.take(i as int));
            assert(all.take(i + 1).last() == ls@[i as int]@);
        }
        push_text(&mut out, &ls[i]);
        i += 1;
    }
    assert(all.take(i as int) =~= all);
    out
}

// ---------------------------------------------------------------------------
// What is set is read back
// ---------------------------------------------------------------------------

/// Whether a text can be a key of the list: it has no equals sign, line feed or
/// surrounding space, and does not begin like a comment or a section.
pub open spec fn is_key(k: Seq<char>) -> bool {
    &&& k.len() > 0
    &&& !white(k[0])
    &&& !white(k.last())
    &&& k[0] != '#'
    &&& k[0] != '['
    &&& !k.contains('=')
    &&& !k.contains('\n')
}

/// Whether a text can be an identifier of the list: it has no semicolon, line
/// feed or surrounding space.
pub open spec fn is_id(id: Seq<char>) -> bool {
    &&& id.len() > 0
    &&& !white(id[0])
    &&& !white(id.last())
    &&& !id.contains(';')
    &&& !id.contains('\n')
}

/// Whether no line of the section of defaults sets the key with space before the
/// equals sign, before one sets it without.
pub open spec fn set_plainly(ls: Seq<Seq<char>>, key: Seq<char>) -> bool {
    let start = section_start(ls);
    let plain = first_line(ls, start + 1, section_end(ls, start), sets_key(key));
    forall|k: int|
        start < k < plain && !silent(trimmed(#[trigger] ls[k])) ==> assigned(trimmed(ls[k]), key)
            is None
}

proof fn lemma_trim_solid(s: Seq<char>)
    requires
        s.len() == 0 || (!white(s[0]) && !white(s.last())),
    ensures
        trimmed(s) == s,
        trimmed_start(s) == s,
        trimmed_end(s) == s,
{
}

proof fn lemma_trimmed_end_prefix(s: Seq<char>, p: Seq<char>)
    requires
        p.is_prefix_of(s),
        p.len() > 0,
        !white(p.last()),
    ensures
        p.is_prefix_of(trimmed_end(s)),
    decreases s.len(),
{
    if s.len() > 0 && white(s.last()) {
        assert(p.len() < s.len()) by {
            if p.len() == s.len() {
                assert(s =~= p);
            }
        }
        assert(p =~= s.drop_last().subrange(0, p.len() as int));
        lemma_trimmed_end_prefix(s.drop_last(), p);
    }
}

proof fn lemma_trimmed_cr(s: Seq<char>)
    ensures
        trimmed(without_cr(s)) == trimmed(s),
{
    if s.len() > 0 && s.last() == '\r' {
        lemma_trimmed_drop_last(s);
    }
}

/// A white character at the end makes no difference to trimming.
proof fn lemma_trimmed_drop_last(s: Seq<char>)
    requires
        s.len() > 0,
        white(s.last()),
    ensures
        trimmed(s.drop_last()) == trimmed(s),
    decreases s.len(),
{
    if white(s[0]) {
        if s.len() == 1 {
            assert(s.drop_last() =~= Seq::empty());
            assert(s.drop_first() =~= Seq::empty());
            assert(trimmed_start(s) == trimmed_start(s.drop_first()));
        } else {
            let t = s.drop_first();
            assert(t.last() == s.last());
            lemma_trimmed_drop_last(t);
            assert(t.drop_last() =~= s.drop_last().drop_first());
            assert(s.drop_last()[0] == s[0]);
        }
    } else {
        if s.len() > 1 {
            assert(s.drop_last()[0] == s[0]);
        }
    }
}

proof fn lemma_lines_have_no_feed(s: Seq<char>)
    ensures
        forall|i: int| 0 <= i < lines_of(s).len() ==> !(#[trigger] lines_of(s)[i]).contains('\n'),
    decreases s.len(),
{
    lemma_first_of(s, '\n');
    let i = first_of(s, '\n');
    if s.len() == 0 {
    } else if i >= s.len() {
        assert(!s.contains('\n'));
        assert forall|k: int| 0 <= k < lines_of(s).len() implies !(#[trigger] lines_of(
            s,
        )[k]).contains('\n') by {
            assert(lines_of(s)[k] == s);
        }
    } else {
        lemma_lines_have_no_feed(s.skip(i + 1));
        let head = without_cr(s.take(i));
        let tail = lines_of(s.skip(i + 1));
        assert forall|k: int| 0 <= k < lines_of(s).len() implies !(#[trigger] lines_of(
            s,
        )[k]).contains('\n') by {
            if k == 0 {
                if head.contains('\n') {
                    let m = choose|m: int| 0 <= m < head.len() && head[m] == '\n';
                    assert(s[m] == '\n');
                }
            } else {
                assert(lines_of(s)[k] == tail[k - 1]);
            }
        }
    }
}

/// A text of a line with its line feed and more.
proof fn lemma_lines_of_first(l: Seq<char>, more: Seq<char>)
    requires
        !l.contains('\n'),
    ensures
        lines_of(l + "\n"@ + more) == seq![without_cr(l)] + lines_of(more),
{
    reveal_strlit("\n");
    let s = l + "\n"@ + more;
    assert forall|k: int| 0 <= k < l.len() implies s[k] != '\n' by {
        assert(l.contains(l[k]));
        assert(s[k] == l[k]);
    }
    assert(s[l.len() as int] == '\n');
    lemma_first_of_unique(s, '\n', l.len() as int);
    assert(s.take(l.len() as int) =~= l);
    assert(s.skip(l.len() as int + 1) =~= more);
}

proof fn lemma_lines_of_ended(a: Seq<Seq<char>>, more: Seq<char>)
    requires
        forall|i: int| 0 <= i < a.len() ==> !(#[trigger] a[i]).contains('\n'),
    ensures
        lines_of(ended(a) + more) == a.map_values(|l: Seq<char>| without_cr(l)) + lines_of(more),
    decreases a.len(),
{
    let f = |l: Seq<char>| without_cr(l);
    if a.len() == 0 {
        assert(ended(a) + more =~= more);
        assert(a.map_values(f) + lines_of(more) =~= lines_of(more));
    } else {
        let b = a.drop_last();
        let l = a.last();
        assert(!a[a.len() - 1].contains('\n'));
        assert forall|i: int| 0 <= i < b.len() implies !(#[trigger] b[i]).contains('\n') by {
            assert(b[i] == a[i]);
        }
        lemma_lines_of_ended(b, l + "\n"@ + more);
        lemma_lines_of_first(l, more);
        assert(ended(a) + more =~= ended(b) + (l + "\n"@ + more));
        assert(a.map_values(f) =~= b.map_values(f).push(without_cr(l)));
        assert(b.map_values(f) + (seq![without_cr(l)] + lines_of(more)) =~= a.map_values(f)
            + lines_of(more));
    }
}

proof fn lemma_default_ignores_cr(ls: Seq<Seq<char>>, mime: Seq<char>, inside: bool)
    ensures
        default_in(ls.map_values(|l: Seq<char>| without_cr(l)), mime, inside) == default_in(
            ls,
            mime,
            inside,
        ),
    decreases ls.len(),
{
    let f = |l: Seq<char>| without_cr(l);
    if ls.len() > 0 {
        lemma_trimmed_cr(ls[0]);
        assert(ls.map_values(f)[0] == without_cr(ls[0]));
        assert(ls.map_values(f).skip(1) =~= ls.skip(1).map_values(f));
        let t = trimmed(ls[0]);
        lemma_default_ignores_cr(ls.skip(1), mime, inside);
        lemma_default_ignores_cr(ls.skip(1), mime, names_defaults(t));
    }
}

/// Reading a text made of lines says what the lines say.
proof fn lemma_read_ended(ls: Seq<Seq<char>>, mime: Seq<char>)
    requires
        forall|i: int| 0 <= i < ls.len() ==> !(#[trigger] ls[i]).contains('\n'),
    ensures
        default_in(lines_of(ended(ls)), mime, false) == default_in(ls, mime, false),
{
    let empty = Seq::<char>::empty();
    lemma_lines_of_ended(ls, empty);
    assert(ended(ls) + empty =~= ended(ls));
    assert(lines_of(empty) =~= Seq::empty());
    let f = |l: Seq<char>| without_cr(l);
    assert(ls.map_values(f) + Seq::empty() =~= ls.map_values(f));
    lemma_default_ignores_cr(ls, mime, false);
}

/// Whether lines end inside the section of defaults.
spec fn inside_after(ls: Seq<Seq<char>>, inside: bool) -> bool
    decreases ls.len(),
{
    if ls.len() == 0 {
        inside
    } else {
        let t = trimmed(ls.last());
        if !silent(t) && bracketed(t) {
            names_defaults(t)
        } else {
            inside_after(ls.drop_last(), inside)
        }
    }
}

/// Whether lines leave the default for a MIME type open.
spec fn leaves_open(ls: Seq<Seq<char>>, mime: Seq<char>, inside: bool) -> bool {
    forall|k: int|
        0 <= k < ls.len() ==> {
            let t = trimmed(#[trigger] ls[k]);
            silent(t) || bracketed(t) || !inside_after(ls.take(k), inside) || assigned(t, mime)
                is None
        }
}

proof fn lemma_inside_step(ls: Seq<Seq<char>>, inside: bool)
    requires
        ls.len() > 0,
    ensures
        inside_after(ls, inside) == inside_after(
            ls.skip(1),
            if !silent(trimmed(ls[0])) && bracketed(trimmed(ls[0])) {
                names_defaults(trimmed(ls[0]))
            } else {
                inside
            },
        ),
    decreases ls.len(),
{
    if ls.len() == 1 {
        assert(ls.skip(1) =~= Seq::empty());
        assert(ls.drop_last() =~= Seq::empty());
        assert(ls.last() == ls[0]);
        reveal_with_fuel(inside_after, 2);
    } else {
        assert(ls.skip(1).last() == ls.last());
        assert(ls.skip(1).drop_last() =~= ls.drop_last().skip(1));
        assert(ls.drop_last()[0] == ls[0]);
        lemma_inside_step(ls.drop_last(), inside);
    }
}

proof fn lemma_default_after(
    a: Seq<Seq<char>>,
    b: Seq<Seq<char>>,
    mime: Seq<char>,
    inside: bool,
)
    requires
        leaves_open(a, mime, inside),
    ensures
        default_in(a + b, mime, inside) == default_in(b, mime, inside_after(a, inside)),
    decreases a.len(),
{
    if a.len() == 0 {
        assert(a + b =~= b);
    } else {
        let t = trimmed(a[0]);
        let now = if !silent(t) && bracketed(t) {
            names_defaults(t)
        } else {
            inside
        };
        let rest = a.skip(1);
        assert((a + b)[0] == a[0]);
        assert((a + b).skip(1) =~= rest + b);
        assert(leaves_open(rest, mime, now)) by {
            assert forall|k: int| 0 <= k < rest.len() implies {
                let u = trimmed(#[trigger] rest[k]);
                silent(u) || bracketed(u) || !inside_after(rest.take(k), now) || assigned(u, mime)
                    is None
            } by {
                assert(rest[k] == a[k + 1]);
                assert(a.take(k + 1).skip(1) =~= rest.take(k));
                lemma_inside_step(a.take(k + 1), inside);
                assert(a.take(k + 1)[0] == a[0]);
            }
        }
        lemma_default_after(rest, b, mime, now);
        lemma_inside_step(a, inside);
        assert(a.take(0) =~= Seq::empty());
        assert(silent(t) || bracketed(t) || !inside || assigned(t, mime) is None);
    }
}

/// The line that sets a default says so.
proof fn lemma_default_line(mime: Seq<char>, id: Seq<char>, rest: Seq<Seq<char>>)
    requires
        is_key(mime),
        is_id(id),
    ensures
        trimmed(default_line(mime, id)) == default_line(mime, id),
        !silent(default_line(mime, id)),
        !bracketed(default_line(mime, id)),
        assigned(default_line(mime, id), mime) == Some(id),
        default_in(seq![default_line(mime, id)] + rest, mime, true) == Some(id),
        !default_line(mime, id).contains('\n'),
{
    reveal_strlit("=");
    let l = default_line(mime, id);
    assert(l[0] == mime[0]);
    assert(l.last() == id.last());
    lemma_trim_solid(l);
    lemma_trim_solid(mime);
    lemma_trim_solid(id);
    assert forall|k: int| 0 <= k < mime.len() implies l[k] != '=' by {
        assert(mime.contains(mime[k]));
        assert(l[k] == mime[k]);
    }
    assert(l[mime.len() as int] == '=');
    lemma_first_of_unique(l, '=', mime.len() as int);
    assert(l.take(mime.len() as int) =~= mime);
    assert(l.skip(mime.len() as int + 1) =~= id);
    assert forall|k: int| 0 <= k < id.len() implies id[k] != ';' by {
        assert(id.contains(id[k]));
    }
    lemma_first_of_unique(id, ';', id.len() as int);
    assert(split_at_char(id, ';') =~= seq![id]);
    let ls = seq![l] + rest;
    assert(ls[0] == l);
    if l.contains('\n') {
        let k = choose|k: int| 0 <= k < l.len() && l[k] == '\n';
        if k < mime.len() {
            assert(mime[k] == '\n');
        } else if k > mime.len() {
            assert(id[k - mime.len() - 1] == '\n');
        }
    }
}

/// The lines up to the section of defaults and in it, without the key, leave
/// its default open.
proof fn lemma_section_open(ls: Seq<Seq<char>>, mime: Seq<char>, at: int)
    requires
        set_plainly(ls, mime),
        section_start(ls) < ls.len(),
        at == first_line(
            ls,
            section_start(ls) + 1,
            section_end(ls, section_start(ls)),
            sets_key(mime),
        ),
        section_start(ls) < at <= section_end(ls, section_start(ls)),
    ensures
        leaves_open(ls.take(at), mime, false),
        inside_after(ls.take(at), false),
{
    let start = section_start(ls);
    let end = section_end(ls, start);
    lemma_first_line(ls, 0, ls.len() as int, starts_defaults());
    lemma_first_line(ls, start + 1, ls.len() as int, starts_section());
    let a = ls.take(at);
    assert forall|k: int| 0 <= k < a.len() implies {
        let t = trimmed(#[trigger] a[k]);
        silent(t) || bracketed(t) || !inside_after(a.take(k), false) || assigned(t, mime) is None
    } by {
        assert(a[k] == ls[k]);
        assert(a.take(k) =~= ls.take(k));
        if k <= start {
            lemma_outside(ls, k);
        }
    }
    lemma_inside(ls, at);
}

/// Before the section of defaults is named, no line is inside it.
proof fn lemma_outside(ls: Seq<Seq<char>>, n: int)
    requires
        0 <= n <= section_start(ls) <= ls.len(),
        forall|k: int| 0 <= k < section_start(ls) ==> !starts_defaults()(#[trigger] ls[k]),
    ensures
        !inside_after(ls.take(n), false),
    decreases n,
{
    if n > 0 {
        lemma_outside(ls, n - 1);
        assert(ls.take(n).last() == ls[n - 1]);
        assert(ls.take(n).drop_last() =~= ls.take(n - 1));
        assert(!starts_defaults()(ls[n - 1]));
    }
}

/// From the line that names the section of defaults on, lines are inside it up
/// to its end.
proof fn lemma_inside(ls: Seq<Seq<char>>, n: int)
    requires
        0 <= section_start(ls) < n <= section_end(ls, section_start(ls)) <= ls.len(),
        starts_defaults()(ls[section_start(ls)]),
        forall|k: int|
            section_start(ls) < k < section_end(ls, section_start(ls)) ==> !starts_section()(
                #[trigger] ls[k],
            ),
    ensures
        inside_after(ls.take(n), false),
    decreases n,
{
    let start = section_start(ls);
    assert(ls.take(n).last() == ls[n - 1]);
    assert(ls.take(n).drop_last() =~= ls.take(n - 1));
    if n - 1 == start {
        lemma_defaults_name();
    } else {
        lemma_inside(ls, n - 1);
        assert(!starts_section()(ls[n - 1]));
    }
}

proof fn lemma_defaults_name()
    ensures
        bracketed("[Default Applications]"@),
        !silent("[Default Applications]"@),
        !"[Default Applications]"@.contains('\n'),
        trimmed("[Default Applications]"@) == "[Default Applications]"@,
{
    reveal_strlit("[Default Applications]");
    let s = "[Default Applications]"@;
    assert(s[0] == '[');
    assert(s.last() == ']');
    lemma_trim_solid(s);
}

/// The default that was set is the default that is read, unless the section has
/// a line before that sets the key with space before the equals sign: such a
/// line is read, but not replaced.
pub proof fn set_default_is_read_back(content: Seq<char>, mime: Seq<char>, id: Seq<char>)
    requires
        is_key(mime),
        is_id(id),
        set_plainly(lines_of(content), mime),
    ensures
        default_in(lines_of(ended(with_default(lines_of(content), mime, id))), mime, false) == Some(
            id,
        ),
{
    let ls = lines_of(content);
    let r = with_default(ls, mime, id);
    let start = section_start(ls);
    let end = section_end(ls, start);
    let l = default_line(mime, id);
    lemma_lines_have_no_feed(content);
    lemma_first_line(ls, 0, ls.len() as int, starts_defaults());
    lemma_default_line(mime, id, Seq::empty());
    lemma_defaults_name();
    if start >= ls.len() {
        let name = "[Default Applications]"@;
        let gap = if ls.len() > 0 && trimmed(ls.last()).len() > 0 {
            seq![Seq::<char>::empty()]
        } else {
            Seq::empty()
        };
        let a = ls + gap + seq![name];
        assert(r =~= a + seq![l]);
        lemma_gap(ls, gap, name);
        assert forall|k: int| 0 <= k < a.len() implies {
            let t = trimmed(#[trigger] a[k]);
            silent(t) || bracketed(t) || !inside_after(a.take(k), false) || assigned(t, mime)
                is None
        } by {
            if k < ls.len() {
                assert(a.take(k) =~= ls.take(k));
                lemma_outside(ls, k);
            } else if k < ls.len() + gap.len() {
                assert(a[k] == Seq::<char>::empty());
                assert(trimmed(a[k]).len() == 0);
            } else {
                assert(a[k] == name);
            }
        }
        lemma_default_after(a, seq![l], mime, false);
        assert(seq![l] + Seq::<Seq<char>>::empty() =~= seq![l]);
        assert forall|k: int| 0 <= k < r.len() implies !(#[trigger] r[k]).contains('\n') by {
            if k < ls.len() {
                assert(r[k] == ls[k]);
            } else if k < ls.len() + gap.len() {
                assert(r[k] == Seq::<char>::empty());
            }
        }
    } else {
        lemma_first_line(ls, start + 1, ls.len() as int, starts_section());
        lemma_first_line(ls, start + 1, end, sets_key(mime));
        let at = first_line(ls, start + 1, end, sets_key(mime));
        lemma_section_open(ls, mime, at);
        let tail = if at < end {
            ls.skip(at + 1)
        } else {
            ls.skip(end)
        };
        assert(r =~= ls.take(at) + (seq![l] + tail));
        lemma_default_after(ls.take(at), seq![l] + tail, mime, false);
        lemma_default_line(mime, id, tail);
        assert forall|k: int| 0 <= k < r.len() implies !(#[trigger] r[k]).contains('\n') by {
            if k < at {
                assert(r[k] == ls[k]);
            } else if k > at {
                if at < end {
                    assert(r[k] == ls[k]);
                } else {
                    assert(r[k] == ls[k - 1]);
                }
            }
        }
    }
    lemma_read_ended(r, mime);
}

proof fn lemma_gap(ls: Seq<Seq<char>>, gap: Seq<Seq<char>>, name: Seq<char>)
    requires
        name == "[Default Applications]"@,
    ensures
        inside_after(ls + gap + seq![name], false),
{
    lemma_defaults_name();
    let a = ls + gap + seq![name];
    assert(a.last() == name);
}

/// Whether a line makes no difference to the default of a MIME type.
spec fn inert(l: Seq<char>, mime: Seq<char>) -> bool {
    let t = trimmed(l);
    silent(t) || (!bracketed(t) && assigned(t, mime) is None)
}

proof fn lemma_inert(
    a: Seq<Seq<char>>,
    l: Seq<char>,
    b: Seq<Seq<char>>,
    mime: Seq<char>,
    inside: bool,
)
    requires
        inert(l, mime),
    ensures
        default_in(a + (seq![l] + b), mime, inside) == default_in(a + b, mime, inside),
    decreases a.len(),
{
    let x = a + (seq![l] + b);
    let y = a + b;
    if a.len() == 0 {
        assert(x[0] == l);
        assert(x.skip(1) =~= y);
    } else {
        let t = trimmed(a[0]);
        assert(x[0] == a[0]);
        assert(y[0] == a[0]);
        assert(x.skip(1) =~= a.skip(1) + (seq![l] + b));
        assert(y.skip(1) =~= a.skip(1) + b);
        lemma_inert(a.skip(1), l, b, mime, inside);
        lemma_inert(a.skip(1), l, b, mime, names_defaults(t));
    }
}

/// A line that sets a key makes no difference to other keys.
proof fn lemma_setting_line_inert(l: Seq<char>, key: Seq<char>, other: Seq<char>)
    requires
        is_key(key),
        other != key,
        sets_key(key)(l),
    ensures
        inert(l, other),
{
    reveal_strlit("=");
    let p = key + "="@;
    let t = trimmed(l);
    lemma_trimmed_end_prefix(trimmed_start(l), p);
    assert(p.is_prefix_of(t));
    assert forall|k: int| 0 <= k < p.len() implies t[k] == p[k] by {
        assert(p == t.subrange(0, p.len() as int));
    }
    assert(t[0] == key[0]);
    assert forall|k: int| 0 <= k < key.len() implies t[k] != '=' by {
        assert(key.contains(key[k]));
        assert(t[k] == key[k]);
    }
    assert(t[key.len() as int] == '=');
    lemma_first_of_unique(t, '=', key.len() as int);
    assert(t.take(key.len() as int) =~= key);
    lemma_trim_solid(key);
}

/// Setting a default leaves the defaults of all other MIME types as they were.
pub proof fn other_defaults_are_kept(
    content: Seq<char>,
    mime: Seq<char>,
    id: Seq<char>,
    other: Seq<char>,
)
    requires
        is_key(mime),
        is_id(id),
        other != mime,
    ensures
        default_in(lines_of(ended(with_default(lines_of(content), mime, id))), other, false)
            == default_in(lines_of(content), other, false),
{
    let ls = lines_of(content);
    let r = with_default(ls, mime, id);
    let start = section_start(ls);
    let end = section_end(ls, start);
    let l = default_line(mime, id);
    lemma_lines_have_no_feed(content);
    lemma_first_line(ls, 0, ls.len() as int, starts_defaults());
    lemma_default_line(mime, id, Seq::empty());
    lemma_defaults_name();
    assert(sets_key(mime)(l)) by {
        lemma_trim_solid(l);
        assert(mime + "="@ =~= l.subrange(0, (mime + "="@).len() as int));
    }
    lemma_setting_line_inert(l, mime, other);
    let none = Seq::<Seq<char>>::empty();
    if start >= ls.len() {
        let name = "[Default Applications]"@;
        let gap = if ls.len() > 0 && trimmed(ls.last()).len() > 0 {
            seq![Seq::<char>::empty()]
        } else {
            Seq::empty()
        };
        let a = ls + gap + seq![name];
        assert(r =~= a + (seq![l] + none));
        lemma_inert(a, l, none, other, false);
        assert(a + none =~= a);
        assert forall|k: int| 0 <= k < a.len() implies {
            let t = trimmed(#[trigger] a[k]);
            silent(t) || bracketed(t) || !inside_after(a.take(k), false) || assigned(t, other)
                is None
        } by {
            if k < ls.len() {
                assert(a.take(k) =~= ls.take(k));
                lemma_outside(ls, k);
            } else if k < ls.len() + gap.len() {
                assert(a[k] == Seq::<char>::empty());
                assert(trimmed(a[k]).len() == 0);
            } else {
                assert(a[k] == name);
            }
        }
        lemma_default_after(a, none, other, false);
        assert forall|k: int| 0 <= k < ls.len() implies {
            let t = trimmed(#[trigger] ls[k]);
            silent(t) || bracketed(t) || !inside_after(ls.take(k), false) || assigned(t, other)
                is None
        } by {
            lemma_outside(ls, k);
        }
        lemma_default_after(ls, none, other, false);
        assert(ls + none =~= ls);
        assert forall|k: int| 0 <= k < r.len() implies !(#[trigger] r[k]).contains('\n') by {
            if k < ls.len() {
                assert(r[k] == ls[k]);
            } else if k < ls.len() + gap.len() {
                assert(r[k] == Seq::<char>::empty());
            }
        }
    } else {
        lemma_first_line(ls, start + 1, ls.len() as int, starts_section());
        lemma_first_line(ls, start + 1, end, sets_key(mime));
        let at = first_line(ls, start + 1, end, sets_key(mime));
        let tail = if at < end {
            ls.skip(at + 1)
        } else {
            ls.skip(end)
        };
        assert(r =~= ls.take(at) + (seq![l] + tail));
        lemma_inert(ls.take(at), l, tail, other, false);
        if at < end {
            lemma_setting_line_inert(ls[at], mime, other);
            lemma_inert(ls.take(at), ls[at], tail, other, false);
            assert(ls =~= ls.take(at) + (seq![ls[at]] + tail));
        } else {
            assert(ls =~= ls.take(at) + tail);
        }
        assert forall|k: int| 0 <= k < r.len() implies !(#[trigger] r[k]).contains('\n') by {
            if k < at {
                assert(r[k] == ls[k]);
            } else if k > at {
                if at < end {
                    assert(r[k] == ls[k]);
                } else {
                    assert(r[k] == ls[k - 1]);
                }
            }
        }
    }
    lemma_read_ended(r, other);
}

/// The first line that a property holds of is the only one with none before.
proof fn lemma_first_line_is(
    ls: Seq<Seq<char>>,
    a: int,
    b: int,
    p: spec_fn(Seq<char>) -> bool,
    at: int,
)
    requires
        0 <= a <= at <= b <= ls.len(),
        forall|k: int| a <= k < at ==> !p(#[trigger] ls[k]),
        at < b ==> p(ls[at]),
    ensures
        first_line(ls, a, b, p) == at,
    decreases at - a,
{
    if a < at {
        assert(!p(ls[a]));
        lemma_first_line_is(ls, a + 1, b, p, at);
    }
}

/// Lines without line feeds and without carriage returns at their ends are read
/// back as they were written.
proof fn lemma_lines_read_back(ls: Seq<Seq<char>>)
    requires
        forall|i: int| 0 <= i < ls.len() ==> !(#[trigger] ls[i]).contains('\n'),
        forall|i: int| 0 <= i < ls.len() ==> without_cr(#[trigger] ls[i]) == ls[i],
    ensures
        lines_of(ended(ls)) == ls,
{
    let empty = Seq::<char>::empty();
    lemma_lines_of_ended(ls, empty);
    assert(ended(ls) + empty =~= ended(ls));
    assert(lines_of(empty) =~= Seq::empty());
    let f = |l: Seq<char>| without_cr(l);
    assert(ls.map_values(f) + Seq::empty() =~= ls.map_values(f));
    assert(ls.map_values(f) =~= ls);
}

/// The line that sets a default sets its key, and names no section.
proof fn lemma_default_line_kind(mime: Seq<char>, id: Seq<char>)
    requires
        is_key(mime),
        is_id(id),
    ensures
        sets_key(mime)(default_line(mime, id)),
        !starts_section()(default_line(mime, id)),
        !default_line(mime, id).contains('\n'),
        without_cr(default_line(mime, id)) == default_line(mime, id),
{
    reveal_strlit("=");
    let l = default_line(mime, id);
    assert(l[0] == mime[0]);
    assert(l.last() == id.last());
    lemma_trim_solid(l);
    assert((mime + "="@).is_prefix_of(l));
    if l.contains('\n') {
        let k = choose|k: int| 0 <= k < l.len() && l[k] == '\n';
        if k < mime.len() {
            assert(mime.contains(mime[k]));
        } else if k > mime.len() {
            assert(id.contains(id[k - mime.len() - 1]));
        }
    }
}

/// Whether setting a default keeps a line as it is.
pub open spec fn keeps_line(ls: Seq<Seq<char>>, mime: Seq<char>, i: int) -> bool {
    let start = section_start(ls);
    let end = section_end(ls, start);
    let at = first_line(ls, start + 1, end, sets_key(mime));
    !(start < ls.len() && at < end && i == at)
}

/// Setting a default that is set already changes nothing: neither the lines nor
/// the text. A carriage return at the end of a line that is kept is the
/// exception, as writing the line makes it part of the line's end.
pub proof fn setting_a_default_twice_changes_nothing(
    content: Seq<char>,
    mime: Seq<char>,
    id: Seq<char>,
)
    requires
        is_key(mime),
        is_id(id),
        forall|i: int|
            0 <= i < lines_of(content).len() && keeps_line(lines_of(content), mime, i)
                ==> without_cr(#[trigger] lines_of(content)[i]) == lines_of(content)[i],
    ensures
        ({
            let once = with_default(lines_of(content), mime, id);
            &&& with_default(lines_of(ended(once)), mime, id) == once
            &&& ended(with_default(lines_of(ended(once)), mime, id)) == ended(once)
        }),
{
    let ls = lines_of(content);
    let n = ls.len() as int;
    let r = with_default(ls, mime, id);
    let m = r.len() as int;
    let l = default_line(mime, id);
    let name = "[Default Applications]"@;
    let start = section_start(ls);
    lemma_lines_have_no_feed(content);
    lemma_first_line(ls, 0, n, starts_defaults());
    lemma_default_line_kind(mime, id);
    lemma_defaults_name();
    assert(without_cr(name) == name);
    if start >= n {
        let gap = if n > 0 && trimmed(ls.last()).len() > 0 {
            seq![Seq::<char>::empty()]
        } else {
            Seq::empty()
        };
        let at = n + gap.len();
        assert forall|k: int| 0 <= k < at implies !starts_defaults()(#[trigger] r[k]) by {
            if k < n {
                assert(r[k] == ls[k]);
            } else {
                assert(r[k] == Seq::<char>::empty());
                assert(trimmed(r[k]).len() == 0);
            }
        }
        assert(r[at] == name);
        assert(r[at + 1] == l);
        lemma_first_line_is(r, 0, m, starts_defaults(), at);
        lemma_first_line_is(r, at + 1, m, starts_section(), m);
        lemma_first_line_is(r, at + 1, m, sets_key(mime), at + 1);
        assert(r.update(at + 1, l) =~= r);
        assert forall|k: int| 0 <= k < m implies !(#[trigger] r[k]).contains('\n')
            && without_cr(r[k]) == r[k] by {
            if k < n {
                assert(keeps_line(ls, mime, k));
                assert(r[k] == ls[k]);
            } else if k < at {
                assert(r[k] == Seq::<char>::empty());
            }
        }
    } else {
        let end = section_end(ls, start);
        let at = first_line(ls, start + 1, end, sets_key(mime));
        lemma_first_line(ls, start + 1, n, starts_section());
        lemma_first_line(ls, start + 1, end, sets_key(mime));
        let last = if at < end {
            end
        } else {
            end + 1
        };
        assert(forall|k: int| 0 <= k < at ==> #[trigger] r[k] == ls[k]);
        assert(r[at] == l);
        assert forall|k: int| at < k < m implies #[trigger] r[k] == ls[if at < end {
            k
        } else {
            k - 1
        }] by {}
        lemma_first_line_is(r, 0, m, starts_defaults(), start);
        assert forall|k: int| start + 1 <= k < last implies !starts_section()(#[trigger] r[k]) by {
            if k < at {
                assert(!starts_section()(ls[k]));
            } else if k > at {
                assert(!starts_section()(ls[k]));
            }
        }
        lemma_first_line_is(r, start + 1, m, starts_section(), last);
        assert forall|k: int| start + 1 <= k < at implies !sets_key(mime)(#[trigger] r[k]) by {
            assert(!sets_key(mime)(ls[k]));
        }
        lemma_first_line_is(r, start + 1, last, sets_key(mime), at);
        assert(r.update(at, l) =~= r);
        assert forall|k: int| 0 <= k < m implies !(#[trigger] r[k]).contains('\n')
            && without_cr(r[k]) == r[k] by {
            if k < at {
                assert(keeps_line(ls, mime, k));
                assert(r[k] == ls[k]);
            } else if k > at {
                let j = if at < end {
                    k
                } else {
                    k - 1
                };
                assert(keeps_line(ls, mime, j));
                assert(r[k] == ls[j]);
            }
        }
    }
    lemma_lines_read_back(r);
}

} // verus!
