//! `wux dockersafe` / `wux dockerrun`: the mount path of the current directory
//! and the `docker run` arguments of the two sandboxes.
use crate::text::{append_str, ascii_lower, from_chars, to_chars};
use vstd::prelude::*;

verus! {

broadcast use vstd::string::group_string_axioms;

/// The lower-case mapping of `c` as `char::to_lowercase` gives it.
pub uninterp spec fn lowercase_of(c: char) -> Seq<char>;

/// `char::to_lowercase`, collected into a string. The contract claims that the
/// outcome is the named `lowercase_of(c)` and, as the Unicode mapping that the
/// documentation refers to gives it, that an ASCII character maps to its
/// ASCII lower case; of other characters it claims nothing more.
#[verifier::external_body]
fn char_to_lowercase(c: char) -> (r: String)
    ensures
        r@ == lowercase_of(c),
        c <= '\x7F' ==> r@ == seq![ascii_lower(c)],
{
    c.to_lowercase().collect()
}

/// The number of bytes of `c` in UTF-8.
pub open spec fn utf8_len(c: char) -> nat {
    if (c as u32) < 0x80 {
        1
    } else if (c as u32) < 0x800 {
        2
    } else if (c as u32) < 0x10000 {
        3
    } else {
        4
    }
}

/// `s` with every `from` replaced by `to`.
pub open spec fn replace_char(s: Seq<char>, from: char, to: char) -> Seq<char> {
    s.map_values(|c: char| if c == from { to } else { c })
}

/// A path that starts with a drive (`X:`) on Windows.
pub open spec fn is_drive_path(s: Seq<char>, windows: bool) -> bool {
    windows && s.len() >= 2 && s[1] == ':'
}

/// Docker's form of a host path: on Windows, `X:\\rest` becomes `/x/rest`
/// (drive letter lower-cased, the rest being what follows the second byte);
/// every `\\` of the path becomes `/`, with or without a drive.
pub open spec fn docker_path(s: Seq<char>, windows: bool) -> Seq<char> {
    if is_drive_path(s, windows) {
        let rest = if utf8_len(s[0]) == 1 {
            s.skip(2)
        } else {
            s.skip(1)
        };
        seq!['/'] + lowercase_of(s[0]) + replace_char(rest, '\\', '/')
    } else {
        replace_char(s, '\\', '/')
    }
}

/// An ASCII letter.
pub open spec fn is_ascii_letter(c: char) -> bool {
    ('A' <= c && c <= 'Z') || ('a' <= c && c <= 'z')
}

/// Appends `s[from..]` to `out` with every `\\` turned into `/`.
fn push_forward_slashes(out: &mut Vec<char>, s: &[char], from: usize)
    requires
        from <= s@.len(),
    ensures
        final(out)@ == old(out)@ + replace_char(s@.skip(from as int), '\\', '/'),
{
    let ghost rest = s@.skip(from as int);
    let mut i = from;
    while i < s.len()
        invariant
            from <= i <= s@.len(),
            rest == s@.skip(from as int),
            out@ == old(out)@ + replace_char(rest.take(i - from), '\\', '/'),
        decreases s@.len() - i,
    {
        let c = s[i];
        out.push(if c == '\\' {
            '/'
        } else {
            c
        });
        assert(replace_char(rest.take(i + 1 - from), '\\', '/') =~= replace_char(
            rest.take(i - from),
            '\\',
            '/',
        ).push(if c == '\\' {
            '/'
        } else {
            c
        }));
        i = i + 1;
    }
    assert(rest.take(i - from) =~= rest);
}

proof fn lemma_no_backslash(s: Seq<char>)
    ensures
        !replace_char(s, '\\', '/').contains('\\'),
{
    assert forall|k: int| 0 <= k < replace_char(s, '\\', '/').len() implies replace_char(
        s,
        '\\',
        '/',
    )[k] != '\\' by {}
}

/// The path under which Docker mounts the host directory `path`. A drive
/// letter must take at most two bytes: the rest is cut at the second byte.
pub fn to_docker_path(path: &str, windows: bool) -> (r: String)
    requires
        is_drive_path(path@, windows) ==> utf8_len(path@[0]) <= 2,
    ensures
        r@ == docker_path(path@, windows),
        // a path on a lettered drive becomes `/x/...`
        is_drive_path(path@, windows) && is_ascii_letter(path@[0]) ==> r@ == seq![
            '/',
            ascii_lower(path@[0]),
        ] + replace_char(path@.skip(2), '\\', '/'),
        // the result has forward slashes only, unless a non-letter stands for the drive
        !(is_drive_path(path@, windows) && !is_ascii_letter(path@[0])) ==> !r@.contains('\\'),
{
    let s = to_chars(path);
    let mut out: Vec<char> = Vec::new();
    if !(windows && s.len() >= 2 && s[1] == ':') {
        push_forward_slashes(&mut out, s.as_slice(), 0);
        assert(s@.skip(0) =~= s@);
        assert(out@ =~= replace_char(s@, '\\', '/'));
        proof {
            lemma_no_backslash(s@);
        }
        return from_chars(out.as_slice());
    }
    let drive = s[0];
    let lower = char_to_lowercase(drive);
    let start: usize = if (drive as u32) < 0x80 {
        2
    } else {
        1
    };
    out.push('/');
    append_str(&mut out, lower.as_str());
    push_forward_slashes(&mut out, s.as_slice(), start);
    proof {
        if is_ascii_letter(drive) {
            assert(out@ =~= seq!['/', ascii_lower(drive)] + replace_char(s@.skip(2), '\\', '/'));
            lemma_no_backslash(s@.skip(2));
            assert forall|k: int| 0 <= k < out@.len() implies out@[k] != '\\' by {
                if k >= 2 {
                    assert(out@[k] == replace_char(s@.skip(2), '\\', '/')[k - 2]);
                }
            }
        }
    }
    from_chars(out.as_slice())
}

/// The `docker run` arguments of the read-only, network-less sandbox.
pub open spec fn safe_args(mount: Seq<char>) -> Seq<Seq<char>> {
    seq![
        "run"@,
        "-it"@,
        "--rm"@,
        "--network"@,
        "none"@,
        "--cap-drop"@,
        "ALL"@,
        "--security-opt"@,
        "no-new-privileges"@,
        "-v"@,
        mount + ":/workspace:ro"@,
        "ubuntu:24.04"@,
        "bash"@,
    ]
}

/// The `docker run` arguments of the writable, networked sandbox.
pub open spec fn run_args(mount: Seq<char>) -> Seq<Seq<char>> {
    seq![
        "run"@,
        "-it"@,
        "--rm"@,
        "--cap-drop"@,
        "ALL"@,
        "--security-opt"@,
        "no-new-privileges"@,
        "-v"@,
        mount + ":/workspace:rw"@,
        "wux-sandbox"@,
        "bash"@,
    ]
}

fn volume(mount: &str, suffix: &str) -> (r: String)
    ensures
        r@ == mount@ + suffix@,
{
    let mut v: Vec<char> = Vec::new();
    append_str(&mut v, mount);
    append_str(&mut v, suffix);
    from_chars(v.as_slice())
}

/// The arguments of `docker run` for `wux dockersafe`, mounting `mount`
/// (a path as [`to_docker_path`] gives it) read-only.
pub fn dockersafe_args(mount: &str) -> (r: Vec<String>)
    ensures
        r@.map_values(|s: String| s@) == safe_args(mount@),
{
    let mut r: Vec<String> = Vec::new();
    r.push(String::from_str("run"));
    r.push(String::from_str("-it"));
    r.push(String::from_str("--rm"));
    r.push(String::from_str("--network"));
    r.push(String::from_str("none"));
    r.push(String::from_str("--cap-drop"));
    r.push(String::from_str("ALL"));
    r.push(String::from_str("--security-opt"));
    r.push(String::from_str("no-new-privileges"));
    r.push(String::from_str("-v"));
    r.push(volume(mount, ":/workspace:ro"));
    r.push(String::from_str("ubuntu:24.04"));
    r.push(String::from_str("bash"));
    assert(r@.map_values(|s: String| s@) =~= safe_args(mount@));
    r
}

/// The arguments of `docker run` for `wux dockerrun`, mounting `mount`
/// writable.
pub fn dockerrun_args(mount: &str) -> (r: Vec<String>)
    ensures
        r@.map_values(|s: String| s@) == run_args(mount@),
{
    let mut r: Vec<String> = Vec::new();
    r.push(String::from_str("run"));
    r.push(String::from_str("-it"));
    r.push(String::from_str("--rm"));
    r.push(String::from_str("--cap-drop"));
    r.push(String::from_str("ALL"));
    r.push(String::from_str("--security-opt"));
    r.push(String::from_str("no-new-privileges"));
    r.push(String::from_str("-v"));
    r.push(volume(mount, ":/workspace:rw"));
    r.push(String::from_str("wux-sandbox"));
    r.push(String::from_str("bash"));
    assert(r@.map_values(|s: String| s@) =~= run_args(mount@));
    r
}

/// The safe sandbox has no network and sees the directory read-only; both
/// sandboxes drop every capability and forbid gaining privileges.
pub proof fn sandboxes_are_confined(mount: Seq<char>)
    ensures
        safe_args(mount).contains("--network"@) && safe_args(mount)[4] == "none"@,
        safe_args(mount)[10] == mount + ":/workspace:ro"@,
        safe_args(mount)[5] == "--cap-drop"@ && safe_args(mount)[6] == "ALL"@,
        run_args(mount)[3] == "--cap-drop"@ && run_args(mount)[4] == "ALL"@,
        safe_args(mount)[8] == "no-new-privileges"@ && run_args(mount)[6] == "no-new-privileges"@,
{
    assert(safe_args(mount)[3] == "--network"@);
}

} // verus!
