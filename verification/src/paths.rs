//! Checks and joins of the paths that a run is given.

use crate::error::{Error, ErrorKind, ErrorView};
use crate::text::{ascii_lower, ascii_lower_spec, chars_of, contains_text, string_of};
use std::path::Path;
use vstd::prelude::*;

verus! {

/// `s` with every ASCII upper-case letter put in lower case.
pub open spec fn lower_case(s: Seq<char>) -> Seq<char> {
    Seq::new(s.len(), |i: int| ascii_lower_spec(s[i]))
}

/// Lower-cases the ASCII letters of `s`.
pub fn to_ascii_lowercase(s: &str) -> (lower: String)
    ensures
        lower@ == lower_case(s@),
{
    let chars = chars_of(s);
    let mut out: Vec<char> = Vec::new();
    let mut i: usize = 0;
    while i < chars.len()
        invariant
            i <= chars.len(),
            chars@ == s@,
            out@.len() == i,
            forall|j: int| 0 <= j < i ==> out@[j] == ascii_lower_spec(chars@[j]),
        decreases chars.len() - i,
    {
        out.push(ascii_lower(chars[i]));
        i += 1;
    }
    assert(out@ =~= lower_case(s@));
    string_of(&out)
}

/// Whether `c` parts the components of a path, or marks a drive, on some
/// platform.
pub open spec fn is_path_mark(c: char) -> bool {
    c == '/' || c == '\\' || c == ':'
}

/// Whether `path` holds no character that parts components or marks a
/// drive: on every platform such a path is one component at most.
pub open spec fn no_separator(path: Seq<char>) -> bool {
    forall|i: int| 0 <= i < path.len() ==> !is_path_mark(#[trigger] path[i])
}

/// Whether `name` is one plain component of a path: not empty, without a
/// character that parts components or marks a drive, and neither `.` nor
/// `..`.
pub open spec fn plain_name(name: Seq<char>) -> bool {
    name.len() > 0 && no_separator(name) && name != "."@ && name != ".."@
}

/// The position of the last dot of `name`; -1 where it has none.
pub open spec fn last_dot(name: Seq<char>) -> int
    decreases name.len(),
{
    if name.len() == 0 {
        -1
    } else if name.last() == '.' {
        name.len() - 1
    } else {
        last_dot(name.drop_last())
    }
}

/// The extension of a file name: the text after its last dot. None where it
/// has no dot, where its only dot stands in front, and where it is `..`.
pub open spec fn plain_extension(name: Seq<char>) -> Option<Seq<char>> {
    let dot = last_dot(name);
    if dot <= 0 || name == ".."@ {
        None
    } else {
        Some(name.skip(dot + 1))
    }
}

/// `Path::extension`: the extension of the file name of `path`. Claimed of
/// every platform: an extension holds no dot and follows a dot in the path;
/// a path without a dot has none; and a path that holds no character that
/// parts components or marks a drive is its own file name, so that its
/// extension is the text after its last dot.
#[verifier::external_body]
pub(crate) fn path_extension(path: &str) -> (extension: Option<String>)
    ensures
        extension matches Some(found) ==> !found@.contains('.') && contains_text(
            path@,
            seq!['.'] + found@,
        ),
        !path@.contains('.') ==> extension is None,
        no_separator(path@) ==> crate::pattern::view_of(extension) == plain_extension(path@),
{
    Path::new(path).extension().and_then(|found| found.to_str()).map(|found| found.to_string())
}

/// Whether `base` is a path that a plain name extends: it is not empty and
/// does not start with a backslash, so that it has no verbatim prefix, under
/// which a path is written anew when it is extended.
pub open spec fn extensible(base: Seq<char>) -> bool {
    base.len() > 0 && base[0] != '\\'
}

/// `Path::join`: `base` with the plain name `part` adjoined. Claimed of every
/// platform: the result ends with `part`, and where `base` has no verbatim
/// prefix the result starts with `base`, since a plain name replaces nothing
/// of the path it is pushed on.
#[verifier::external_body]
pub(crate) fn path_join(base: &str, part: &str) -> (joined: String)
    requires
        plain_name(part@),
    ensures
        part@.is_suffix_of(joined@),
        extensible(base@) ==> base@.is_prefix_of(joined@),
{
    Path::new(base).join(part).to_string_lossy().into_owned()
}

/// Whether a path with the extension `extension` is accepted where
/// `wanted` is asked for: it has none, or it has that one in whatever case.
pub open spec fn extension_accepted(extension: Option<Seq<char>>, wanted: Seq<char>) -> bool {
    match extension {
        Some(found) => lower_case(found) == wanted,
        None => true,
    }
}

/// Accepts a path by its extension: one without extension, or with the
/// extension `wanted` in whatever case. Another extension is an I/O error
/// that says `info`.
pub fn check_extension(extension: Option<String>, wanted: &str, info: &str) -> (r: Result<
    (),
    Error,
>)
    ensures
        r is Ok <==> extension_accepted(crate::pattern::view_of(extension), wanted@),
        r is Err ==> r.unwrap_err()@ == (ErrorView { kind: ErrorKind::Io, info: info@ }),
{
    match extension {
        Some(found) => {
            let lower = to_ascii_lowercase(found.as_str());
            let wanted = wanted.to_owned();
            if lower == wanted {
                Ok(())
            } else {
                Err(Error::new(ErrorKind::Io, info))
            }
        },
        None => Ok(()),
    }
}

/// What a refused manifest path is told.
pub open spec fn manifest_path_info() -> Seq<char> {
    "Manifest path must be a json file"@
}

/// Checks that the manifest path names a `JSON` file: a path whose file name
/// has an extension other than `json` is refused. Of a bare file name the
/// extension is the text after its last dot; of a path with directories or a
/// drive, the platform's path rules decide what it is.
pub fn check_manifest_path(manifest_path: &str) -> (r: Result<(), Error>)
    ensures
        !manifest_path@.contains('.') ==> r is Ok,
        no_separator(manifest_path@) ==> (r is Ok <==> extension_accepted(
            plain_extension(manifest_path@),
            "json"@,
        )),
        r is Err ==> r.unwrap_err()@ == (ErrorView {
            kind: ErrorKind::Io,
            info: manifest_path_info(),
        }),
{
    check_extension(path_extension(manifest_path), "json", "Manifest path must be a json file")
}

/// What a refused framework path is told.
pub open spec fn ascot_path_info() -> Seq<char> {
    "Ascot path must be a path to the .toml manifest."@
}

/// Checks that a framework path names a `.toml` manifest: a path whose file
/// name has an extension other than `toml` is refused.
pub fn check_ascot_path(ascot_path: &str) -> (r: Result<(), Error>)
    ensures
        !ascot_path@.contains('.') ==> r is Ok,
        no_separator(ascot_path@) ==> (r is Ok <==> extension_accepted(
            plain_extension(ascot_path@),
            "toml"@,
        )),
        r is Err ==> r.unwrap_err()@ == (ErrorView { kind: ErrorKind::Io, info: ascot_path_info() }),
{
    check_extension(
        path_extension(ascot_path),
        "toml",
        "Ascot path must be a path to the .toml manifest.",
    )
}

/// Whether a file with the extension `extension` is a source file: its
/// extension is `rs`.
pub fn is_source_extension(extension: Option<String>) -> (r: bool)
    ensures
        r == (crate::pattern::view_of(extension) == Some("rs"@)),
{
    match extension {
        Some(found) => {
            let wanted = "rs".to_owned();
            found == wanted
        },
        None => false,
    }
}

/// Whether `path` names a source file: the extension of its file name is
/// `rs`. A path without a dot names none, and a bare file name names one
/// where the text after its last dot is `rs`.
pub fn is_rust_file(path: &str) -> (r: bool)
    ensures
        !path@.contains('.') ==> !r,
        no_separator(path@) ==> r == (plain_extension(path@) == Some("rs"@)),
{
    is_source_extension(path_extension(path))
}

/// The names that are adjoined to the framework's root are plain names.
pub proof fn lemma_plain_names()
    ensures
        plain_name("ascot-axum"@),
        plain_name("src"@),
        plain_name("devices"@),
        plain_name("Cargo.toml"@),
{
    reveal_strlit("ascot-axum");
    reveal_strlit("src");
    reveal_strlit("devices");
    reveal_strlit("Cargo.toml");
    reveal_strlit(".");
    reveal_strlit("..");
}

/// A path that starts with an extensible path is extensible.
pub proof fn lemma_extended(base: Seq<char>, joined: Seq<char>)
    requires
        extensible(base),
        base.is_prefix_of(joined),
    ensures
        extensible(joined),
{
    assert(joined.subrange(0, base.len() as int)[0] == joined[0]);
}

/// The directory of the device sources below the framework's root: the
/// root, extended by three names of which `devices` is the last.
pub fn ascot_devices(ascot_firmware: String) -> (devices: String)
    ensures
        "devices"@.is_suffix_of(devices@),
        extensible(ascot_firmware@) ==> ascot_firmware@.is_prefix_of(devices@)
            && devices@.len() > ascot_firmware@.len(),
{
    proof {
        lemma_plain_names();
    }
    let axum = path_join(ascot_firmware.as_str(), "ascot-axum");
    let src = path_join(axum.as_str(), "src");
    let devices = path_join(src.as_str(), "devices");
    proof {
        if extensible(ascot_firmware@) {
            lemma_extended(ascot_firmware@, axum@);
            lemma_extended(axum@, src@);
            let root = ascot_firmware@;
            assert(root =~= axum@.subrange(0, root.len() as int));
            assert(axum@ =~= src@.subrange(0, axum@.len() as int));
            assert(src@ =~= devices@.subrange(0, src@.len() as int));
            assert(root =~= devices@.subrange(0, root.len() as int));
            // The last name is no part of the root it follows.
            reveal_strlit("ascot-axum");
            reveal_strlit("src");
            reveal_strlit("devices");
            if devices@.len() == root.len() {
                assert(devices@ =~= src@);
                assert(src@ =~= axum@);
                assert(axum@ =~= root);
                let tail = src@.subrange(src@.len() - 7, src@.len() as int);
                assert(tail == "devices"@);
                let end = src@.subrange(src@.len() - 3, src@.len() as int);
                assert(end == "src"@);
                assert(tail[6] == end[2]);
            }
        }
    }
    devices
}

/// Whether the framework has to be fetched: one of its two manifests has no
/// path of its own.
pub fn needs_ascot_firmware(library_path: &Option<String>, axum_path: &Option<String>) -> (r: bool)
    ensures
        r == (library_path is None || axum_path is None),
{
    library_path.is_none() || axum_path.is_none()
}

/// The paths of the two manifests of the framework: each is the path given
/// for it, and where none is given, the manifest below the framework's root
/// `ascot_firmware`.
pub fn ascot_paths(
    library_path: Option<String>,
    axum_path: Option<String>,
    ascot_firmware: &str,
) -> (paths: (String, String))
    ensures
        library_path matches Some(given) ==> paths.0 == given,
        library_path is None ==> "Cargo.toml"@.is_suffix_of(paths.0@),
        library_path is None && extensible(ascot_firmware@) ==> ascot_firmware@.is_prefix_of(
            paths.0@,
        ),
        axum_path matches Some(given) ==> paths.1 == given,
        axum_path is None ==> "Cargo.toml"@.is_suffix_of(paths.1@),
        axum_path is None && extensible(ascot_firmware@) ==> ascot_firmware@.is_prefix_of(
            paths.1@,
        ),
{
    proof {
        lemma_plain_names();
    }
    let library = match library_path {
        Some(given) => given,
        None => path_join(ascot_firmware, "Cargo.toml"),
    };
    let axum = match axum_path {
        Some(given) => given,
        None => {
            let directory = path_join(ascot_firmware, "ascot-axum");
            let manifest = path_join(directory.as_str(), "Cargo.toml");
            proof {
                if extensible(ascot_firmware@) {
                    lemma_extended(ascot_firmware@, directory@);
                    let root = ascot_firmware@;
                    assert(root =~= directory@.subrange(0, root.len() as int));
                    assert(directory@ =~= manifest@.subrange(0, directory@.len() as int));
                    assert(root =~= manifest@.subrange(0, root.len() as int));
                }
            }
            manifest
        },
    };
    (library, axum)
}

} // verus!
