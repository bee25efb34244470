//! Where files are kept. A path is the bytes of its name, as the environment gives them.

use vstd::prelude::*;
use vstd::utf8::encode_utf8;

use crate::bytes::append_range;

verus! {

/// `rel` below the directory `base`; an absolute `rel` stands for itself.
pub open spec fn below(base: Seq<u8>, rel: Seq<u8>) -> Seq<u8> {
    if rel.len() > 0 && rel[0] == 47 {
        rel
    } else if base.len() > 0 && base.last() != 47 {
        base.push(47) + rel
    } else {
        base + rel
    }
}

/// The bytes of an optional path.
pub open spec fn bytes_of(path: Option<&Vec<u8>>) -> Option<Seq<u8>> {
    match path {
        Some(p) => Some(p@),
        None => None,
    }
}

/// The home directory, or the directory for temporary files where there is none.
pub open spec fn home_or_tmp(home: Option<Seq<u8>>) -> Seq<u8> {
    match home {
        Some(h) => h,
        None => encode_utf8("/tmp"@),
    }
}

/// The path of `rel` below the home directory.
pub open spec fn in_home(home: Option<Seq<u8>>, rel: Seq<char>) -> Seq<u8> {
    below(home_or_tmp(home), encode_utf8(rel))
}

/// The path of `rel` below the directory `base`.
pub fn join(base: &Vec<u8>, rel: &str) -> (r: Vec<u8>)
    ensures
        r@ == below(base@, encode_utf8(rel@)),
{
    let mut tail = rel.as_bytes_vec();
    if tail.len() > 0 && tail[0] == 47 {
        return tail;
    }
    let mut r: Vec<u8> = Vec::new();
    append_range(&mut r, base.as_slice(), 0, base.len());
    assert(r@ =~= base@);
    if r.len() > 0 && r[r.len() - 1] != 47 {
        r.push(47);
    }
    r.append(&mut tail);
    r
}

/// The path of `rel` below the home directory, if that is known, else below `/tmp`.
pub fn join_home(home: Option<&Vec<u8>>, rel: &str) -> (r: Vec<u8>)
    ensures
        r@ == in_home(bytes_of(home), rel@),
{
    match home {
        Some(home) => join(home, rel),
        None => {
            let tmp = "/tmp".as_bytes_vec();
            join(&tmp, rel)
        },
    }
}

/// Where finished screenshots are kept for a day: below the runtime directory if there is one.
pub open spec fn scratch_path(runtime: Option<Seq<u8>>, home: Option<Seq<u8>>) -> Seq<u8> {
    match runtime {
        Some(rt) => below(rt, encode_utf8("rayshot"@)),
        None => in_home(home, ".cache/rayshot/scratch"@),
    }
}

/// Where screenshots are saved: the user's directory for pictures if there is one, else `/tmp`.
pub open spec fn saved_pictures_path(home: Option<Seq<u8>>, is_dir: bool) -> Seq<u8> {
    if is_dir {
        in_home(home, "Pictures"@)
    } else {
        encode_utf8("/tmp"@)
    }
}

/// Where finished screenshots are kept for a day.
pub fn scratch_dir(runtime: Option<&Vec<u8>>, home: Option<&Vec<u8>>) -> (r: Vec<u8>)
    ensures
        r@ == scratch_path(bytes_of(runtime), bytes_of(home)),
{
    match runtime {
        Some(rt) => join(rt, "rayshot"),
        None => join_home(home, ".cache/rayshot/scratch"),
    }
}

/// Where the last selection is kept.
pub fn last_selection_path(home: Option<&Vec<u8>>) -> (r: Vec<u8>)
    ensures
        r@ == in_home(bytes_of(home), ".cache/rayshot/last_selection"@),
{
    join_home(home, ".cache/rayshot/last_selection")
}

/// The marker file that says which settings are to be restored.
pub fn marker_path(home: Option<&Vec<u8>>) -> (r: Vec<u8>)
    ensures
        r@ == in_home(bytes_of(home), ".cache/rayshot/anim_restore"@),
{
    join_home(home, ".cache/rayshot/anim_restore")
}

/// Where the permission to record the screen is kept.
pub fn token_path(home: Option<&Vec<u8>>) -> (r: Vec<u8>)
    ensures
        r@ == in_home(bytes_of(home), ".config/rayshot/screencast.token"@),
{
    join_home(home, ".config/rayshot/screencast.token")
}

/// Where the shell's own binding of the Print key is kept.
pub fn print_backup_path(home: Option<&Vec<u8>>) -> (r: Vec<u8>)
    ensures
        r@ == in_home(bytes_of(home), ".config/rayshot/print_backup"@),
{
    join_home(home, ".config/rayshot/print_backup")
}

/// The file that starts the daemon at login.
pub fn autostart_path(home: Option<&Vec<u8>>) -> (r: Vec<u8>)
    ensures
        r@ == in_home(bytes_of(home), ".config/autostart/rayshot-daemon.desktop"@),
{
    join_home(home, ".config/autostart/rayshot-daemon.desktop")
}

/// The user's directory for pictures, which need not be there.
pub fn pictures_path(home: Option<&Vec<u8>>) -> (r: Vec<u8>)
    ensures
        r@ == in_home(bytes_of(home), "Pictures"@),
{
    join_home(home, "Pictures")
}

/// Where screenshots are saved; `is_dir` tells whether the user's directory for pictures is
/// there.
pub fn pictures_dir(home: Option<&Vec<u8>>, is_dir: bool) -> (r: Vec<u8>)
    ensures
        r@ == saved_pictures_path(bytes_of(home), is_dir),
{
    if is_dir {
        pictures_path(home)
    } else {
        "/tmp".as_bytes_vec()
    }
}

/// A relative path below a directory is the directory, a slash unless the directory is empty or
/// ends with one, and the path; an absolute path stands for itself. The number of the slash is
/// 47.
pub proof fn law_path_below_a_directory(base: Seq<u8>, rel: Seq<u8>)
    ensures
        ({
            let path = below(base, rel);
            let (b, r) = (base.len() as int, rel.len() as int);
            let absolute = r > 0 && rel[0] == 47;
            let closed = b == 0 || base[b - 1] == 47;
            &&& absolute ==> path == rel
            &&& !absolute && closed ==> path.len() == b + r && path.take(b) == base && path.skip(b)
                == rel
            &&& !absolute && !closed ==> path.len() == b + 1 + r && path.take(b) == base && path[b]
                == 47 && path.skip(b + 1) == rel
        }),
{
    let path = below(base, rel);
    let (b, r) = (base.len() as int, rel.len() as int);
    if !(r > 0 && rel[0] == 47) {
        assert(path.take(b) =~= base);
        if b == 0 || base[b - 1] == 47 {
            assert(path.skip(b) =~= rel);
        } else {
            assert(path.skip(b + 1) =~= rel);
        }
    }
}

/// The program's files lie below the home directory, and below the directory for temporary files
/// where that is not known. Finished screenshots lie below the runtime directory if there is one,
/// and saved ones in the directory for pictures if that is there.
pub proof fn law_where_files_are_kept(
    home: Seq<u8>,
    runtime: Seq<u8>,
    unknown: Option<Seq<u8>>,
    rel: Seq<char>,
)
    ensures
        in_home(Some(home), rel) == below(home, encode_utf8(rel)),
        in_home(None, rel) == below(encode_utf8("/tmp"@), encode_utf8(rel)),
        scratch_path(Some(runtime), unknown) == below(runtime, encode_utf8("rayshot"@)),
        scratch_path(None, Some(home)) == below(home, encode_utf8(".cache/rayshot/scratch"@)),
        scratch_path(None, None) == below(
            encode_utf8("/tmp"@),
            encode_utf8(".cache/rayshot/scratch"@),
        ),
        saved_pictures_path(Some(home), true) == below(home, encode_utf8("Pictures"@)),
        saved_pictures_path(unknown, false) == encode_utf8("/tmp"@),
{
}

} // verus!
