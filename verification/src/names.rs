//! What holds of the names that entries are given: they stay in their
//! directory, and the names tried for one entry differ.
use crate::file_ops::{candidate_name, is_unique_destination, name_parts, rename_target, valid_name};
use crate::fs_atomic::temp_name;
use crate::num_text::{decimal, is_decimal, lemma_decimal_digits, lemma_value_of_decimal};
use crate::text::{last_of, lemma_last_of};
use crate::unix_path::{
    components, dot, file_name, joined, joined_entry, lemma_last_byte, parent, plain_name, slash,
    without_tail, UnixPath,
};
use vstd::prelude::*;
use vstd::string::*;
use vstd::utf8::*;

verus! {

proof fn lemma_scalar_bytes(c: char)
    ensures
        encode_scalar(c as u32).len() >= 1,
        (c as u32) < 128 ==> encode_scalar(c as u32) == seq![c as u8],
        (c as u32) >= 128 ==> forall|i: int|
            0 <= i < encode_scalar(c as u32).len() ==> #[trigger] encode_scalar(c as u32)[i] >= 128,
{
    char_is_scalar(c);
    let v = c as u32;
    assert(v < 128 ==> (v & 0x7F) as u8 == v as u8) by (bit_vector);
    let a = ((v >> 6) & 0x1F) as u8;
    let b = ((v >> 12) & 0x0F) as u8;
    let d = ((v >> 18) & 0x7) as u8;
    let x = (v & 0x3F) as u8;
    let y = ((v >> 6) & 0x3F) as u8;
    let z = ((v >> 12) & 0x3F) as u8;
    assert(0xC0 | a >= 128) by (bit_vector);
    assert(0xE0 | b >= 128) by (bit_vector);
    assert(0xF0 | d >= 128) by (bit_vector);
    assert(0x80 | x >= 128) by (bit_vector);
    assert(0x80 | y >= 128) by (bit_vector);
    assert(0x80 | z >= 128) by (bit_vector);
    if v < 128 {
        assert(encode_scalar(v) =~= seq![c as u8]);
    }
}

proof fn lemma_not_slash(c: char)
    requires
        c != '/',
    ensures
        forall|i: int|
            0 <= i < encode_scalar(c as u32).len() ==> #[trigger] encode_scalar(c as u32)[i]
                != slash(),
{
    lemma_scalar_bytes(c);
    if (c as u32) < 128 {
        assert(c as u8 != 47);
    }
}

/// Text without a slash has no separator among its bytes.
pub proof fn lemma_no_separator(s: Seq<char>)
    requires
        !s.contains('/'),
    ensures
        !encode_utf8(s).contains(slash()),
        encode_utf8(s).len() >= s.len(),
    decreases s.len(),
{
    if s.len() > 0 {
        let c = s[0];
        let rest = s.drop_first();
        assert(s.contains(c));
        assert forall|x: char| rest.contains(x) implies s.contains(x) by {
            let i = choose|i: int| 0 <= i < rest.len() && rest[i] == x;
            assert(s[i + 1] == x);
        }
        lemma_no_separator(rest);
        lemma_scalar_bytes(c);
        lemma_not_slash(c);
        let e = encode_scalar(c as u32);
        assert forall|i: int| 0 <= i < encode_utf8(s).len() implies encode_utf8(s)[i] != slash() by {
            if i < e.len() {
                assert(encode_utf8(s)[i] == e[i]);
            } else {
                assert(encode_utf8(s)[i] == encode_utf8(rest)[i - e.len()]);
                assert(encode_utf8(rest).contains(encode_utf8(rest)[i - e.len()]));
            }
        }
    }
}

proof fn lemma_only_dots(s: Seq<char>)
    ensures
        encode_utf8(s) == seq![dot()] ==> s == "."@,
        encode_utf8(s) == seq![dot(), dot()] ==> s == ".."@,
{
    reveal_strlit(".");
    reveal_strlit("..");
    let bytes = encode_utf8(s);
    assert(seq![dot()].len() == 1);
    assert(seq![dot(), dot()].len() == 2);
    if s.len() > 0 {
        let rest = s.drop_first();
        let e = encode_scalar(s[0] as u32);
        lemma_scalar_bytes(s[0]);
        assert(bytes == e + encode_utf8(rest));
        assert(bytes[0] == e[0]);
        if bytes[0] == dot() {
            lemma_dot(s[0]);
            assert(e.len() == 1);
        }
        if rest.len() > 0 {
            let last = rest.drop_first();
            let f = encode_scalar(rest[0] as u32);
            lemma_scalar_bytes(rest[0]);
            assert(encode_utf8(rest) == f + encode_utf8(last));
            if last.len() > 0 {
                lemma_scalar_bytes(last[0]);
                assert(encode_utf8(last) == encode_scalar(last[0] as u32) + encode_utf8(
                    last.drop_first(),
                ));
            }
            if bytes == seq![dot(), dot()] {
                assert(bytes[1] == f[0]);
                lemma_dot(rest[0]);
                assert(s =~= ".."@);
            }
        } else {
            assert(encode_utf8(rest).len() == 0);
            if bytes == seq![dot()] {
                assert(s =~= "."@);
            }
        }
    }
}

proof fn lemma_dot(c: char)
    requires
        encode_scalar(c as u32)[0] == dot(),
    ensures
        c == '.',
{
    lemma_scalar_bytes(c);
    if (c as u32) < 128 {
        assert(c as u8 == 46);
    }
}

/// A valid name names an entry of a directory.
pub proof fn valid_name_is_plain(name: Seq<char>)
    requires
        valid_name(name),
    ensures
        plain_name(encode_utf8(name)),
{
    lemma_no_separator(name);
    lemma_only_dots(name);
}

/// Renaming an entry in place keeps it in its directory, under the new name.
pub proof fn renaming_stays_in_the_directory(src: Seq<u8>, new_name: Seq<char>)
    requires
        valid_name(new_name),
        parent(src) is Some,
    ensures
        file_name(rename_target(src, new_name)) == Some(encode_utf8(new_name)),
        parent(rename_target(src, new_name)) matches Some(p) && components(p) == components(
            parent(src)->0,
        ),
{
    valid_name_is_plain(new_name);
    joined_entry(parent(src)->0, encode_utf8(new_name));
}

proof fn lemma_parts(name: Seq<char>)
    ensures
        !name.contains('/') ==> !name_parts(name).0.contains('/') && !name_parts(name).1.contains(
            '/',
        ),
        name_parts(name).0.len() + name_parts(name).1.len() + 1 >= name.len(),
{
    let (stem, ext) = name_parts(name);
    lemma_last_of(name, '.');
    if stem.contains('/') {
        let i = choose|i: int| 0 <= i < stem.len() && stem[i] == '/';
        assert(name[i] == '/');
    }
    if ext.contains('/') {
        let i = choose|i: int| 0 <= i < ext.len() && ext[i] == '/';
        assert(name[last_of(name, '.') + 1 + i] == '/');
    }
}

/// Every name that is tried for an entry of a valid name is valid itself.
pub proof fn candidates_are_valid(name: Seq<char>, n: nat)
    requires
        valid_name(name),
    ensures
        valid_name(candidate_name(name, n)),
{
    if n > 0 {
        let (stem, ext) = name_parts(name);
        let r = candidate_name(name, n);
        let d = decimal(n);
        lemma_parts(name);
        lemma_decimal_digits(n);
        reveal_strlit(" (");
        reveal_strlit(")");
        reveal_strlit(").");
        reveal_strlit(".");
        reveal_strlit("..");
        assert forall|i: int| 0 <= i < r.len() implies r[i] != '/' by {
            let k = stem.len() as int;
            if i < k {
                assert(stem.contains(stem[i]));
            } else if i < k + 2 {
                assert(r[i] == " ("@[i - k]);
            } else if i < k + 2 + d.len() {
                assert(r[i] == d[i - k - 2]);
                assert(is_decimal(d[i - k - 2]));
            } else if ext.len() == 0 {
                assert(r[i] == ")"@[i - k - 2 - d.len()]);
            } else if i < k + 4 + d.len() {
                assert(r[i] == ")."@[i - k - 2 - d.len()]);
            } else {
                assert(r[i] == ext[i - k - 4 - d.len()]);
                assert(ext.contains(ext[i - k - 4 - d.len()]));
            }
        }
        assert(r.len() > 2);
    }
}

/// A free place for a valid name lies in the directory that it was looked for
/// in.
pub proof fn unique_destination_stays_in_the_directory<F: Fn(&UnixPath) -> bool>(
    occupied: F,
    dir: Seq<u8>,
    name: Seq<char>,
    p: Seq<u8>,
)
    requires
        valid_name(name),
        is_unique_destination(occupied, dir, name, p),
    ensures
        parent(p) matches Some(q) && components(q) == components(dir),
{
    let n: nat = if exists|n: nat| crate::file_ops::first_free(occupied, dir, name, n, p) {
        choose|n: nat| crate::file_ops::first_free(occupied, dir, name, n, p)
    } else {
        0
    };
    candidates_are_valid(name, n);
    valid_name_is_plain(candidate_name(name, n));
    joined_entry(dir, encode_utf8(candidate_name(name, n)));
}

/// The names that are tried for an entry are all different.
pub proof fn candidates_differ(name: Seq<char>, n: nat, m: nat)
    requires
        n < m,
    ensures
        candidate_name(name, n) != candidate_name(name, m),
{
    let (stem, ext) = name_parts(name);
    let a = candidate_name(name, n);
    let b = candidate_name(name, m);
    reveal_strlit(" (");
    reveal_strlit(")");
    reveal_strlit(").");
    lemma_parts(name);
    lemma_decimal_digits(m);
    lemma_decimal_digits(n);
    if n == 0 {
        assert(b.len() > a.len());
    } else if a == b {
        let k = stem.len() as int + 2;
        let more: int = if ext.len() == 0 {
            1
        } else {
            2int + ext.len()
        };
        assert(a.len() == k + decimal(n).len() + more);
        assert(b.len() == k + decimal(m).len() + more);
        assert(decimal(n) =~= a.subrange(k, k + decimal(n).len()));
        assert(decimal(m) =~= b.subrange(k, k + decimal(m).len()));
        lemma_value_of_decimal(n);
        lemma_value_of_decimal(m);
    }
}

/// The file name of a path names an entry of a directory.
pub proof fn lemma_file_name_is_plain(p: Seq<u8>)
    ensures
        file_name(p) matches Some(n) ==> plain_name(n),
{
    let t = without_tail(p);
    lemma_last_byte(t, slash());
    if let Some(n) = file_name(p) {
        assert(!n.contains(slash()));
    }
}

/// The temporary file of a write lies beside the file, under another name.
pub proof fn temporary_file_is_a_sibling(path: Seq<u8>, pid: nat)
    requires
        parent(path) is Some,
        file_name(path) is Some,
    ensures
        ({
            let tmp = joined(parent(path)->0, temp_name(file_name(path)->0, pid));
            &&& parent(tmp) matches Some(p) && components(p) == components(parent(path)->0)
            &&& file_name(tmp) is Some
            &&& file_name(tmp) != file_name(path)
        }),
{
    let name = file_name(path)->0;
    let tmp = temp_name(name, pid);
    let tail = ".tmp."@ + decimal(pid);
    reveal_strlit(".");
    reveal_strlit(".tmp.");
    lemma_decimal_digits(pid);
    assert forall|i: int| 0 <= i < tail.len() implies tail[i] != '/' by {
        if i >= 5 {
            assert(is_decimal(decimal(pid)[i - 5]));
        }
    }
    lemma_no_separator(tail);
    lemma_no_separator("."@);
    let first = encode_utf8("."@);
    let last = encode_utf8(tail);
    lemma_file_name_is_plain(path);
    assert forall|i: int| 0 <= i < tmp.len() implies tmp[i] != slash() by {
        if i < first.len() {
            assert(first.contains(first[i]));
        } else if i < first.len() + name.len() {
            assert(tmp[i] == name[i - first.len()]);
            assert(name.contains(name[i - first.len()]));
        } else {
            assert(tmp[i] == last[i - first.len() - name.len()]);
            assert(last.contains(last[i - first.len() - name.len()]));
        }
    }
    assert(tmp.len() > 2);
    joined_entry(parent(path)->0, tmp);
}

} // verus!
