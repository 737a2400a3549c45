//! Names of users and groups, read from the system's databases.
use crate::num_text::{decimal, decimal_text, parse_unsigned, parsed};
use crate::text::{chars_of, lines, lines_of, opt_view, split_at_char, split_char, string_of};
use std::collections::HashMap;
use vstd::prelude::*;
use vstd::std_specs::hash::*;
use vstd::string::*;

verus! {

/// The id and name in a line `name:password:id:...`.
pub open spec fn passwd_entry(line: Seq<char>) -> Option<(u32, Seq<char>)> {
    let parts = split_at_char(line, ':');
    if parts.len() < 3 {
        None
    } else {
        match parsed(parts[2], u32::MAX as nat) {
            Some(id) => Some((id as u32, parts[0])),
            None => None,
        }
    }
}

/// The names that a list of lines gives to ids; the last line for an id wins.
pub open spec fn names_in(lines: Seq<Seq<char>>) -> Map<u32, Seq<char>>
    decreases lines.len(),
{
    if lines.len() == 0 {
        Map::empty()
    } else {
        match passwd_entry(lines.last()) {
            Some((id, name)) => names_in(lines.drop_last()).insert(id, name),
            None => names_in(lines.drop_last()),
        }
    }
}

/// The names in a table.
pub open spec fn name_views(m: Map<u32, String>) -> Map<u32, Seq<char>> {
    m.map_values(|s: String| s@)
}

fn parse_line(line: &[char]) -> (r: Option<(u32, String)>)
    ensures
        match r {
            Some((id, name)) => passwd_entry(line@) == Some((id, name@)),
            None => passwd_entry(line@) is None,
        },
{
    let parts = split_char(line, ':');
    if parts.len() < 3 {
        return None;
    }
    match parse_unsigned(&parts[2], u32::MAX as u64) {
        Some(id) => Some((id as u32, string_of(&parts[0]))),
        None => None,
    }
}

/// Reads a database in the format of `/etc/passwd` or `/etc/group`. Lines in
/// another format are passed over.
pub fn parse_passwd_like(text: &str) -> (r: HashMap<u32, String>)
    ensures
        name_views(r@) == names_in(lines_of(text@)),
{
    broadcast use group_hash_axioms;

    let all = lines(&chars_of(text));
    let ghost ls = lines_of(text@);
    let mut m: HashMap<u32, String> = HashMap::new();
    let mut i: usize = 0;
    assert(name_views(m@) =~= names_in(ls.take(0)));
    while i < all.len()
        invariant
            i <= all@.len(),
            all@.len() == ls.len(),
            forall|k: int| 0 <= k < all@.len() ==> (#[trigger] all@[k])@ == ls[k],
            name_views(m@) == names_in(ls.take(i as int)),
        decreases all@.len() - i,
    {
        proof {
            assert(ls.take(i + 1).drop_last() =~= ls.take(i as int));
            assert(ls.take(i + 1).last() == all@[i as int]@);
        }
        let ghost before = m@;
        if let Some((id, name)) = parse_line(&all[i]) {
            m.insert(id, name);
            assert(name_views(m@) =~= name_views(before).insert(id, name@));
        }
        i += 1;
    }
    assert(ls.take(i as int) =~= ls);
    m
}

/// The name of an id.
pub open spec fn name_of(names: Map<u32, String>, id: u32) -> Option<Seq<char>> {
    if names.contains_key(id) {
        Some(names[id]@)
    } else {
        None
    }
}

fn lookup(names: &HashMap<u32, String>, id: u32) -> (r: Option<String>)
    ensures
        opt_view(r) == name_of(names@, id),
{
    broadcast use group_hash_axioms;

    match names.get(&id) {
        Some(s) => Some(s.clone()),
        None => None,
    }
}

/// The name of a user.
pub fn user_name(users: &HashMap<u32, String>, uid: u32) -> (r: Option<String>)
    ensures
        opt_view(r) == name_of(users@, uid),
{
    lookup(users, uid)
}

/// The name of a group.
pub fn group_name(groups: &HashMap<u32, String>, gid: u32) -> (r: Option<String>)
    ensures
        opt_view(r) == name_of(groups@, gid),
{
    lookup(groups, gid)
}

/// `name (id)` where the id has a name, else the id alone.
pub open spec fn labelled(name: Option<Seq<char>>, id: u32) -> Seq<char> {
    match name {
        Some(n) => n + " ("@ + decimal(id as nat) + ")"@,
        None => decimal(id as nat),
    }
}

fn label(name: Option<String>, id: u32) -> (r: String)
    ensures
        r@ == labelled(opt_view(name), id),
{
    match name {
        Some(n) => {
            let mut s = n;
            s.append(" (");
            s.append(decimal_text(id as u64).as_str());
            s.append(")");
            s
        },
        None => decimal_text(id as u64),
    }
}

/// A user as text.
pub fn format_user(users: &HashMap<u32, String>, uid: u32) -> (r: String)
    ensures
        r@ == labelled(name_of(users@, uid), uid),
{
    label(user_name(users, uid), uid)
}

/// A group as text.
pub fn format_group(groups: &HashMap<u32, String>, gid: u32) -> (r: String)
    ensures
        r@ == labelled(name_of(groups@, gid), gid),
{
    label(group_name(groups, gid), gid)
}

} // verus!
