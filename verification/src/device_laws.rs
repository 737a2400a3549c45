//! Which devices are shown, and what addresses of servers say.
use crate::devices::{
    before_zero, by_device_path, device_label, device_of, device_text, devices_upto, first_mount,
    last_part, lemma_by_device_path, same_device, same_devices, same_player, shown, user_mount,
    BlockRecord, DeviceInfo, DeviceView, MtpDeviceEntry,
};
use crate::ordering::{ranked, ranked_is_ordered};
use crate::picking::{exactly_those, lemma_picked, lemma_picked_none};
use crate::remote::{
    address, authority_name, cut, host_of, is_mount_of, mounted_path, parsed_uri, UriView,
};
use crate::sort_select::text_before;
use crate::text::{
    has_infix, last_of, lemma_first_of_unique, lemma_last_of, lowercase, occurs_at, trimmed,
    trimmed_end, trimmed_start,
};
use crate::text_laws::{cutting_at_the_first_of_a_character, trimming_takes_the_blanks_away};
use crate::unix_path::{joined, lossy};
use vstd::prelude::*;
use vstd::utf8::*;

verus! {

/// What the disk service writes ends at the first zero byte.
pub proof fn texts_end_at_the_zero(b: Seq<u8>)
    ensures
        before_zero(b).is_prefix_of(b),
        !before_zero(b).contains(0u8),
        before_zero(b).len() < b.len() ==> b[before_zero(b).len() as int] == 0,
    decreases b.len(),
{
    let t = before_zero(b);
    if b.len() > 0 && b[0] != 0 {
        let rest = b.skip(1);
        texts_end_at_the_zero(rest);
        let u = before_zero(rest);
        assert(u =~= rest.subrange(0, u.len() as int));
        assert(t =~= b.subrange(0, t.len() as int)) by {
            assert forall|i: int| 0 <= i < t.len() implies t[i] == b[i] by {
                if i > 0 {
                    assert(t[i] == u[i - 1]);
                    assert(u[i - 1] == rest.subrange(0, u.len() as int)[i - 1]);
                }
            }
        }
        assert(!t.contains(0u8)) by {
            assert forall|i: int| 0 <= i < t.len() implies t[i] != 0 by {
                if i > 0 {
                    assert(t[i] == u[i - 1]);
                    assert(u.contains(u[i - 1]));
                }
            }
        }
        if t.len() < b.len() {
            assert(rest[u.len() as int] == b[t.len() as int]);
        }
    } else {
        assert(t =~= b.subrange(0, 0));
    }
}

/// A device with a file system is shown unless it belongs to the system; one of
/// the system is shown where it is mounted for users.
pub proof fn devices_for_users_are_shown(r: BlockRecord)
    ensures
        shown(r) ==> r.has_filesystem && r.has_block,
        r.has_filesystem && r.has_block && r.hint_system != Some(true) ==> shown(r),
        r.has_filesystem && r.has_block && r.hint_system == Some(true) ==> (shown(r)
            <==> first_mount(r) is Some && user_mount(first_mount(r)->0)),
{
}

/// Mounts for users are those whose path begins with one of three folders.
pub proof fn mounts_for_users(p: Seq<u8>, more: Seq<char>)
    ensures
        lossy(p) == "/media"@ + more || lossy(p) == "/mnt"@ + more || lossy(p) == "/run/media"@
            + more ==> user_mount(p),
{
    let s = lossy(p);
    if s == "/media"@ + more {
        assert("/media"@ =~= s.subrange(0, "/media"@.len() as int));
    }
    if s == "/mnt"@ + more {
        assert("/mnt"@ =~= s.subrange(0, "/mnt"@.len() as int));
    }
    if s == "/run/media"@ + more {
        assert("/run/media"@ =~= s.subrange(0, "/run/media"@.len() as int));
    }
}

/// A device is called by its label, without one by its identifier, and without
/// that by the last part of its file.
pub proof fn devices_are_called_by_their_label(r: BlockRecord)
    ensures
        r.id_label matches Some(l) && l@.len() > 0 ==> device_label(r) == r.id_label->0@,
        (r.id_label is None || r.id_label->0@.len() == 0) && (r.id_uuid is Some
            && r.id_uuid->0@.len() > 0) ==> device_label(r) == r.id_uuid->0@,
        (r.id_label is None || r.id_label->0@.len() == 0) && (r.id_uuid is None
            || r.id_uuid->0@.len() == 0) ==> device_label(r).is_suffix_of(device_text(r))
            && !device_label(r).contains('/'),
{
    let t = device_text(r);
    lemma_last_of(t, '/');
    let i = last_of(t, '/');
    let x = last_part(t);
    assert(x =~= t.subrange(t.len() - x.len(), t.len() as int));
    assert(!x.contains('/')) by {
        assert forall|k: int| 0 <= k < x.len() implies x[k] != '/' by {
            assert(x[k] == t[i + 1 + k]);
        }
    }
}

/// Each record that is to be shown gives one device, with its name in the
/// service, its size and where it is mounted first.
pub proof fn each_record_gives_a_device(rs: Seq<BlockRecord>, n: int)
    requires
        0 <= n <= rs.len(),
    ensures
        exactly_those(
            devices_upto(rs, n),
            n,
            |i: int| shown(rs[i]),
            |i: int| device_of(rs[i]),
        ),
    decreases n,
{
    let keep = |i: int| shown(rs[i]);
    let item = |i: int| device_of(rs[i]);
    if n > 0 {
        each_record_gives_a_device(rs, n - 1);
        lemma_picked(devices_upto(rs, n - 1), n - 1, keep, item);
    } else {
        lemma_picked_none(keep, item);
    }
}

/// A device has the name, the size and the mount point of its record.
pub proof fn a_device_is_its_record(r: BlockRecord)
    ensures
        device_of(r).object_path == r.object_path@,
        r.size matches Some(n) ==> device_of(r).size_bytes == n,
        r.size is None ==> device_of(r).size_bytes == 0,
        r.mount_points is None || r.mount_points->0@.len() == 0 ==> device_of(r).mount_point is None,
        r.mount_points is Some && r.mount_points->0@.len() > 0 ==> device_of(r).mount_point == Some(
            before_zero(r.mount_points->0@[0]@),
        ),
        r.device is None ==> device_of(r).device_path.len() == 0,
        r.device is Some && valid_utf8(before_zero(r.device->0@)) ==> device_of(r).device_path
            == decode_utf8(before_zero(r.device->0@)),
{
}

/// Two lists of devices that look the same differ in nothing that is shown.
pub proof fn lists_that_look_the_same(a: Seq<DeviceInfo>, b: Seq<DeviceInfo>, i: int)
    requires
        same_devices(a, b),
        0 <= i < a.len(),
    ensures
        b.len() == a.len(),
        a[i].object_path@ == b[i].object_path@,
        a[i].label@ == b[i].label@,
        a[i].device_path@ == b[i].device_path@,
        a[i].size_bytes == b[i].size_bytes,
        a[i].mount_point is Some <==> b[i].mount_point is Some,
{
    assert(same_device(a[i], b[i]));
}

/// Whether two lists look the same does not depend on which comes first, and a
/// list looks as itself.
pub proof fn looking_the_same_goes_both_ways(a: Seq<DeviceInfo>, b: Seq<DeviceInfo>)
    ensures
        same_devices(a, a),
        same_devices(a, b) ==> same_devices(b, a),
{
    if same_devices(a, b) {
        assert forall|i: int| 0 <= i < b.len() implies same_device(#[trigger] b[i], a[i]) by {
            assert(same_device(a[i], b[i]));
        }
    }
}

/// Players are the same by all that is known of them.
pub proof fn players_are_the_same_by_what_is_known(a: MtpDeviceEntry, b: MtpDeviceEntry)
    ensures
        same_player(a, b) <==> a.serial@ == b.serial@ && a.label@ == b.label@ && a.vendor@
            == b.vendor@ && a.model@ == b.model@ && a.location_id == b.location_id,
{
}

// ---------------------------------------------------------------------------
// Servers
// ---------------------------------------------------------------------------

/// The host of an address is what stands behind the user and before the port.
pub proof fn the_host_stands_between_user_and_port(
    user: Seq<char>,
    host: Seq<char>,
    port: Seq<char>,
)
    requires
        !host.contains('@'),
        !host.contains(':'),
        !port.contains('@'),
    ensures
        host_of(host) == host,
        host_of(host + seq![':'] + port) == host,
        host_of(user + seq!['@'] + host) == host,
        host_of(user + seq!['@'] + host + seq![':'] + port) == host,
{
    lemma_host(Seq::empty(), host, Seq::empty());
    lemma_host(Seq::empty(), host, seq![':'] + port);
    lemma_host(user.push('@'), host, Seq::empty());
    lemma_host(user.push('@'), host, seq![':'] + port);
    assert(Seq::<char>::empty() + host + Seq::<char>::empty() =~= host);
    assert(Seq::<char>::empty() + host + (seq![':'] + port) =~= host + seq![':'] + port);
    assert(user.push('@') + host + Seq::<char>::empty() =~= user + seq!['@'] + host);
    assert(user.push('@') + host + (seq![':'] + port) =~= user + seq!['@'] + host + seq![':']
        + port);
}

proof fn lemma_host(front: Seq<char>, host: Seq<char>, back: Seq<char>)
    requires
        front.len() > 0 ==> front.last() == '@',
        !host.contains('@'),
        !host.contains(':'),
        back.len() > 0 ==> back[0] == ':' && !back.skip(1).contains('@'),
    ensures
        host_of(front + host + back) == host,
{
    let s = front + host + back;
    lemma_last_of(s, '@');
    let i = last_of(s, '@');
    let n = front.len() as int;
    if n > 0 {
        assert(s[n - 1] == '@');
    }
    if i >= n {
        if i < n + host.len() {
            assert(host[i - n] == '@');
        } else if i > n + host.len() {
            assert(back.skip(1)[i - n - host.len() - 1] == '@');
        }
    }
    assert(i == n - 1);
    let hp = s.skip(n);
    assert(hp =~= host + back);
    assert forall|k: int| 0 <= k < host.len() implies hp[k] != ':' by {
        assert(hp[k] == host[k]);
    }
    lemma_first_of_unique(hp, ':', host.len() as int);
    assert(hp.take(host.len() as int) =~= host);
}

/// The address of a server other than a Windows one has a host and the path
/// behind the first slash.
pub proof fn an_address_is_a_host_and_a_path(
    scheme: Seq<char>,
    host: Seq<char>,
    path: Seq<char>,
)
    requires
        scheme != "smb"@,
        host.len() > 0,
        !host.contains('@'),
        !host.contains(':'),
        !host.contains('/'),
        path.len() > 0,
    ensures
        address(scheme, host + seq!['/'] + path) == Some(
            UriView { scheme, host, share: None, subpath: Some(path) },
        ),
        address(scheme, host) == Some(UriView { scheme, host, share: None, subpath: None }),
{
    the_host_stands_between_user_and_port(Seq::empty(), host, Seq::empty());
    cutting_at_the_first_of_a_character(host + seq!['/'] + path, '/', host, path);
    cutting_at_the_first_of_a_character(host, '/', host, path);
}

/// The address of a Windows server has a share too, before the path in it.
pub proof fn a_windows_address_has_a_share(host: Seq<char>, share: Seq<char>, sub: Seq<char>)
    requires
        host.len() > 0,
        !host.contains('@'),
        !host.contains(':'),
        !host.contains('/'),
        share.len() > 0,
        !share.contains('/'),
        sub.len() > 0,
    ensures
        address("smb"@, host + seq!['/'] + (share + seq!['/'] + sub)) == Some(
            UriView { scheme: "smb"@, host, share: Some(share), subpath: Some(sub) },
        ),
        address("smb"@, host + seq!['/'] + share) == Some(
            UriView { scheme: "smb"@, host, share: Some(share), subpath: None },
        ),
{
    the_host_stands_between_user_and_port(Seq::empty(), host, Seq::empty());
    let path = share + seq!['/'] + sub;
    cutting_at_the_first_of_a_character(host + seq!['/'] + path, '/', host, path);
    cutting_at_the_first_of_a_character(host + seq!['/'] + share, '/', host, share);
    cutting_at_the_first_of_a_character(path, '/', share, sub);
    cutting_at_the_first_of_a_character(share, '/', share, sub);
}

/// Without a host there is no address.
pub proof fn an_address_needs_a_host(scheme: Seq<char>, path: Seq<char>)
    ensures
        address(scheme, seq!['/'] + path) is None,
        address(scheme, Seq::empty()) is None,
{
    let none = Seq::<char>::empty();
    the_host_stands_between_user_and_port(none, none, none);
    cutting_at_the_first_of_a_character(seq!['/'] + path, '/', none, path);
    assert(none + seq!['/'] + path =~= seq!['/'] + path);
    cutting_at_the_first_of_a_character(none, '/', none, path);
}

/// An address is cut at the first mark between its scheme and the rest.
pub proof fn an_address_is_cut_at_the_mark(s: Seq<char>, p: Seq<char>)
    requires
        p.len() > 0,
    ensures
        match cut(s, p) {
            Some((a, b)) => s == a + p + b && forall|k: int|
                0 <= k < a.len() ==> !occurs_at(s, p, k),
            None => forall|k: int| !occurs_at(s, p, k),
        },
    decreases s.len(),
{
    if p.is_prefix_of(s) {
        assert(p =~= s.subrange(0, p.len() as int));
        assert(Seq::<char>::empty() + p + s.skip(p.len() as int) =~= s);
    } else if s.len() == 0 {
        assert forall|k: int| !occurs_at(s, p, k) by {}
    } else {
        let t = s.skip(1);
        an_address_is_cut_at_the_mark(t, p);
        assert forall|k: int| occurs_at(s, p, k) implies k > 0 && occurs_at(t, p, k - 1) by {
            if k == 0 {
                assert(p =~= s.subrange(0, p.len() as int));
            }
            assert(t.subrange(k - 1, k - 1 + p.len()) =~= s.subrange(k, k + p.len()));
        }
        match cut(t, p) {
            Some((a, b)) => {
                assert(s =~= seq![s[0]] + t);
                assert(seq![s[0]] + a + p + b =~= seq![s[0]] + (a + p + b));
            },
            None => {},
        }
    }
}

/// A mount is that of a server where its name holds the host, and the share where
/// there is one.
pub proof fn a_mount_is_known_by_its_host(u: UriView, name: Seq<u8>, i: int, j: int)
    requires
        u.share is Some ==> occurs_at(
            lowercase(lossy(name)),
            "share="@ + lowercase(u.share->0),
            j,
        ),
    ensures
        u.scheme != "smb"@ && occurs_at(lowercase(lossy(name)), "host="@ + lowercase(u.host), i)
            ==> is_mount_of(u, name),
        u.scheme == "smb"@ && occurs_at(lowercase(lossy(name)), "server="@ + lowercase(u.host), i)
            ==> is_mount_of(u, name),
{
}

/// A mount whose name does not hold the host, or not the share, is another one.
pub proof fn other_mounts_are_not_taken(u: UriView, name: Seq<u8>)
    requires
        is_mount_of(u, name),
    ensures
        u.scheme != "smb"@ ==> has_infix(lowercase(lossy(name)), "host="@ + lowercase(u.host)),
        u.scheme == "smb"@ ==> has_infix(lowercase(lossy(name)), "server="@ + lowercase(u.host)),
        u.share matches Some(s) ==> has_infix(lowercase(lossy(name)), "share="@ + lowercase(s)),
{
}

/// The path of a server lies below its mount, by the path of the address.
pub proof fn the_path_of_a_server_lies_below_its_mount(u: UriView, root: Seq<u8>, name: Seq<u8>)
    ensures
        u.subpath is None ==> mounted_path(u, root, name) == joined(root, name),
        u.subpath matches Some(sub) && sub.len() > 0 ==> mounted_path(u, root, name) == joined(
            joined(root, name),
            encode_utf8(u.subpath->0),
        ),
{
}

/// A server is called by its host, and a share of it by both.
pub proof fn servers_are_called_by_their_host(uri: Seq<char>)
    ensures
        parsed_uri(uri) is None ==> authority_name(uri) == uri,
        parsed_uri(uri) matches Some(u) ==> u.host.is_suffix_of(authority_name(uri)) && (
        u.share is Some ==> u.share->0.is_prefix_of(authority_name(uri))) && (u.share is None
            ==> authority_name(uri) == u.host),
{
    if parsed_uri(uri) is Some {
        let u = parsed_uri(uri)->0;
        let t = authority_name(uri);
        assert(t.subrange(t.len() - u.host.len(), t.len() as int) =~= u.host);
        if u.share is Some {
            assert(t.subrange(0, u.share->0.len() as int) =~= u.share->0);
        }
    }
}

/// The devices are listed in the order of their paths, each of them as often as it
/// was found.
pub proof fn devices_come_in_the_order_of_their_paths(
    ds: Seq<DeviceView>,
    i: int,
    j: int,
    d: DeviceView,
)
    requires
        0 <= i < j < ds.len(),
    ensures
        ({
            let r = ranked(ds, by_device_path());
            &&& r.len() == ds.len()
            &&& r.contains(d) <==> ds.contains(d)
            &&& !text_before(r[j].device_path, r[i].device_path)
        }),
{
    lemma_by_device_path();
    ranked_is_ordered(ds, by_device_path());
    let r = ranked(ds, by_device_path());
    assert(!by_device_path()(r[j], r[i]));
}

/// The case of the scheme of an address does not matter: what stands before the
/// mark is taken in small letters.
pub proof fn the_scheme_is_taken_in_small_letters(scheme: Seq<char>, rest: Seq<char>)
    requires
        cut(trimmed(scheme + "://"@ + rest), "://"@) == Some((scheme, rest)),
    ensures
        parsed_uri(scheme + "://"@ + rest) == address(lowercase(scheme), rest),
        parsed_uri(scheme + "://"@ + rest) is Some ==> parsed_uri(scheme + "://"@ + rest)->0.scheme
            == lowercase(scheme),
{
}

/// Blanks around an address do not matter.
pub proof fn blanks_around_an_address_do_not_matter(uri: Seq<char>)
    ensures
        parsed_uri(uri) == parsed_uri(trimmed(uri)),
{
    lemma_trimmed_twice(uri);
}

proof fn lemma_trimmed_twice(s: Seq<char>)
    ensures
        trimmed(trimmed(s)) == trimmed(s),
{
    trimming_takes_the_blanks_away(s);
    let t = trimmed(s);
    if t.len() > 0 {
        assert(trimmed_start(t) == t);
        assert(trimmed_end(t) == t);
    }
}

} // verus!
