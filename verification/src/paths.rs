//! Where files are: status, configuration, caches and sibling programs.
//!
//! Paths are bytes. The values of environment variables are handed in, none for one that is unset.

use vstd::prelude::*;
use vstd::utf8::{encode_utf8, is_ascii_chars, is_ascii_chars_encode_utf8};

use crate::bytes::{append_bytes, copy_range};

verus! {

/// The separator between two parts of a path.
pub const SEPARATOR: u8 = 0x2f;

/// `base` extended by a path, with one separator between them. Nothing is put in front of a path
/// whose base is empty, and an absolute path takes the place of the base.
pub open spec fn joined(base: Seq<u8>, part: Seq<u8>) -> Seq<u8> {
    if part.len() > 0 && part[0] == SEPARATOR {
        part
    } else if base.len() == 0 || base.last() == SEPARATOR {
        base + part
    } else {
        base.push(SEPARATOR) + part
    }
}

/// `base` extended by a path that is a text.
pub open spec fn below(base: Seq<u8>, part: Seq<char>) -> Seq<u8> {
    joined(base, encode_utf8(part))
}

/// Extends a path.
pub fn join(base: &[u8], part: &str) -> (path: Vec<u8>)
    ensures
        path@ == below(base@, part@),
{
    let bytes = part.as_bytes();
    if bytes.len() > 0 && bytes[0] == SEPARATOR {
        let path = copy_range(bytes, 0, bytes.len());
        assert(path@ =~= bytes@);
        return path;
    }
    let len: usize = base.len();
    let mut path: Vec<u8> = copy_range(base, 0, len);
    assert(path@ =~= base@);
    if len > 0 && base[len - 1] != SEPARATOR {
        path.push(SEPARATOR);
    }
    append_bytes(&mut path, bytes);
    path
}

/// The contents of an optional path.
pub open spec fn path_view(p: Option<&[u8]>) -> Option<Seq<u8>> {
    match p {
        Some(p) => Some(p@),
        None => None,
    }
}

/// The contents of an optional path.
pub open spec fn owned_view(p: Option<Vec<u8>>) -> Option<Seq<u8>> {
    match p {
        Some(p) => Some(p@),
        None => None,
    }
}

/// Where the host publishes its status.
pub open spec fn status_file(runtime_dir: Option<Seq<u8>>) -> Seq<u8> {
    below(
        match runtime_dir {
            Some(dir) => dir,
            None => encode_utf8("/tmp"@),
        },
        "ferrite-status.json"@,
    )
}

/// Where the host publishes its status: in the user's runtime directory, or else in `/tmp`.
pub fn status_path(runtime_dir: Option<&[u8]>) -> (path: Vec<u8>)
    ensures
        path@ == status_file(path_view(runtime_dir)),
{
    match runtime_dir {
        Some(dir) => join(dir, "ferrite-status.json"),
        None => join("/tmp".as_bytes(), "ferrite-status.json"),
    }
}

/// A directory of the user: the one that is set, or else a directory in the home.
pub open spec fn user_dir(set: Option<Seq<u8>>, home: Option<Seq<u8>>, name: Seq<char>) -> Option<
    Seq<u8>,
> {
    match set {
        Some(dir) => Some(dir),
        None => match home {
            Some(home) => Some(below(home, name)),
            None => None,
        },
    }
}

fn find_user_dir(set: Option<&[u8]>, home: Option<&[u8]>, name: &str) -> (dir: Option<Vec<u8>>)
    ensures
        owned_view(dir) == user_dir(path_view(set), path_view(home), name@),
{
    match set {
        Some(dir) => {
            let copy = copy_range(dir, 0, dir.len());
            assert(copy@ =~= dir@);
            Some(copy)
        },
        None => match home {
            Some(home) => Some(join(home, name)),
            None => None,
        },
    }
}

/// Where the portal's grant is cached. None without a home.
pub fn portal_token_path(cache_home: Option<&[u8]>, home: Option<&[u8]>) -> (path: Option<Vec<u8>>)
    ensures
        owned_view(path) == (match user_dir(path_view(cache_home), path_view(home), ".cache"@) {
            Some(base) => Some(below(below(base, "ferrite"@), "portal_token"@)),
            None => None,
        }),
{
    match find_user_dir(cache_home, home, ".cache") {
        Some(base) => {
            let dir = join(base.as_slice(), "ferrite");
            Some(join(dir.as_slice(), "portal_token"))
        },
        None => None,
    }
}

/// Whether the portal's grant is cached: `exists` says whether there is a file at its path, none if
/// there is no path.
pub fn portal_token_present(exists: Option<bool>) -> (present: bool)
    ensures
        present == (exists == Some(true)),
{
    match exists {
        Some(exists) => exists,
        None => false,
    }
}

/// The compositor's device configuration below a configuration directory.
pub open spec fn input_devices_below(base: Seq<u8>) -> Seq<u8> {
    below(below(below(below(base, "cosmic"@), "com.system76.CosmicComp"@), "v1"@), "input_devices"@)
}

/// The compositor's device configuration. None without a home.
pub fn cosmic_input_devices_path(config_home: Option<&[u8]>, home: Option<&[u8]>) -> (path: Option<
    Vec<u8>,
>)
    ensures
        owned_view(path) == (match user_dir(path_view(config_home), path_view(home), ".config"@) {
            Some(base) => Some(input_devices_below(base)),
            None => None,
        }),
{
    match find_user_dir(config_home, home, ".config") {
        Some(base) => {
            let a = join(base.as_slice(), "cosmic");
            let b = join(a.as_slice(), "com.system76.CosmicComp");
            let c = join(b.as_slice(), "v1");
            Some(join(c.as_slice(), "input_devices"))
        },
        None => None,
    }
}

/// The compositor's device configuration as the host finds it, in the home. None without one.
pub fn host_input_devices_path(home: Option<&[u8]>) -> (path: Option<Vec<u8>>)
    ensures
        owned_view(path) == (match path_view(home) {
            Some(home) => Some(
                below(home, ".config/cosmic/com.system76.CosmicComp/v1/input_devices"@),
            ),
            None => None,
        }),
{
    match home {
        Some(home) => Some(
            join(home, ".config/cosmic/com.system76.CosmicComp/v1/input_devices"),
        ),
        None => None,
    }
}

/// The tray's configuration. None without a home.
pub fn config_path(config_home: Option<&[u8]>, home: Option<&[u8]>) -> (path: Option<Vec<u8>>)
    ensures
        owned_view(path) == (match user_dir(path_view(config_home), path_view(home), ".config"@) {
            Some(base) => Some(below(below(base, "ferrite"@), "tray.ron"@)),
            None => None,
        }),
{
    match find_user_dir(config_home, home, ".config") {
        Some(base) => {
            let dir = join(base.as_slice(), "ferrite");
            Some(join(dir.as_slice(), "tray.ron"))
        },
        None => None,
    }
}

/// Where the Android SDK keeps adb. None without a home.
pub fn sdk_adb_path(home: Option<&[u8]>) -> (path: Option<Vec<u8>>)
    ensures
        owned_view(path) == (match path_view(home) {
            Some(home) => Some(below(home, "Android/Sdk/platform-tools/adb"@)),
            None => None,
        }),
{
    match home {
        Some(home) => Some(join(home, "Android/Sdk/platform-tools/adb")),
        None => None,
    }
}

/// The adb to run: that of the SDK if it exists, otherwise the one that is found by name.
pub fn adb_path(sdk: Option<Vec<u8>>, exists: bool) -> (path: Vec<u8>)
    ensures
        path@ == (match owned_view(sdk) {
            Some(p) => if exists {
                p
            } else {
                encode_utf8("adb"@)
            },
            None => encode_utf8("adb"@),
        }),
{
    match sdk {
        Some(p) => if exists {
            p
        } else {
            join(&[], "adb")
        },
        None => join(&[], "adb"),
    }
}

/// A program in the same directory as this one, or one that is found by name if the directory is
/// not known.
pub fn sibling_exe(dir: Option<&[u8]>, name: &str) -> (path: Vec<u8>)
    ensures
        path@ == (match path_view(dir) {
            Some(dir) => below(dir, name@),
            None => encode_utf8(name@),
        }),
{
    match dir {
        Some(dir) => join(dir, name),
        None => join(&[], name),
    }
}

/// What a relative path is put behind.
spec fn ground(base: Seq<u8>) -> Seq<u8> {
    if base.len() == 0 || base.last() == SEPARATOR {
        base
    } else {
        base.push(SEPARATOR)
    }
}

/// A path that is extended by a plain name ends in that name.
proof fn below_name(base: Seq<u8>, name: Seq<char>)
    requires
        is_ascii_chars(name),
        name.len() > 0,
        name[0] != '/',
        name.last() != '/',
    ensures
        below(base, name) == ground(base) + encode_utf8(name),
        ground(below(base, name)) == ground(base) + encode_utf8(name).push(SEPARATOR),
{
    is_ascii_chars_encode_utf8(name);
    let bytes = encode_utf8(name);
    assert(bytes[0] == name[0] as u8 && bytes.last() == name.last() as u8);
    assert(below(base, name).last() == bytes.last());
    assert(ground(below(base, name)) =~= ground(base) + bytes.push(SEPARATOR));
}

/// Host and panel mean the same file as long as no other configuration directory is set.
pub proof fn host_and_panel_share_configuration(home: Seq<u8>)
    ensures
        below(home, ".config/cosmic/com.system76.CosmicComp/v1/input_devices"@)
            == input_devices_below(below(home, ".config"@)),
{
    let whole = ".config/cosmic/com.system76.CosmicComp/v1/input_devices"@;
    let (a, b, c, d, e) = (
        ".config"@,
        "cosmic"@,
        "com.system76.CosmicComp"@,
        "v1"@,
        "input_devices"@,
    );
    reveal_strlit(".config/cosmic/com.system76.CosmicComp/v1/input_devices");
    reveal_strlit(".config");
    reveal_strlit("cosmic");
    reveal_strlit("com.system76.CosmicComp");
    reveal_strlit("v1");
    reveal_strlit("input_devices");
    below_name(home, whole);
    below_name(home, a);
    let pa = below(home, a);
    below_name(pa, b);
    let pb = below(pa, b);
    below_name(pb, c);
    let pc = below(pb, c);
    below_name(pc, d);
    let pd = below(pc, d);
    below_name(pd, e);
    is_ascii_chars_encode_utf8(whole);
    is_ascii_chars_encode_utf8(a);
    is_ascii_chars_encode_utf8(b);
    is_ascii_chars_encode_utf8(c);
    is_ascii_chars_encode_utf8(d);
    is_ascii_chars_encode_utf8(e);
    let bytes = encode_utf8(a).push(SEPARATOR) + encode_utf8(b).push(SEPARATOR) + encode_utf8(
        c,
    ).push(SEPARATOR) + encode_utf8(d).push(SEPARATOR) + encode_utf8(e);
    assert(encode_utf8(whole) =~= bytes);
    assert(ground(home) + bytes =~= ground(home) + encode_utf8(a).push(SEPARATOR) + encode_utf8(
        b,
    ).push(SEPARATOR) + encode_utf8(c).push(SEPARATOR) + encode_utf8(d).push(SEPARATOR)
        + encode_utf8(e));
}

/// A name is put behind its directory with exactly one separator between them, whether or not the
/// directory ends in one.
pub proof fn one_separator_between(dir: Seq<u8>, name: Seq<u8>)
    requires
        dir.len() > 0,
        dir.last() != 0x2f,
        name.len() > 0,
        name[0] != 0x2f,
    ensures
        joined(dir, name) == dir + seq![0x2fu8] + name,
        joined(dir.push(0x2f), name) == dir + seq![0x2fu8] + name,
        joined(dir, seq![0x2fu8] + name) == seq![0x2fu8] + name,
{
    assert(joined(dir, name) =~= dir + seq![0x2fu8] + name);
    assert(joined(dir.push(0x2f), name) =~= dir + seq![0x2fu8] + name);
}

/// A directory that is set is taken as it is. Only where none is set the home decides, and without a
/// home there is none.
pub proof fn set_directory_wins(set: Seq<u8>, home: Option<Seq<u8>>, name: Seq<char>)
    ensures
        user_dir(Some(set), home, name) == Some(set),
        user_dir(None, None, name) is None,
        home matches Some(h) ==> user_dir(None, home, name) == Some(below(h, name)),
{
}

} // verus!
