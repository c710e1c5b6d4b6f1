//! Where the command line writes its results, and what `extract` writes.
use vstd::prelude::*;
use crate::cades::Cades;
use crate::error::CadesError;
use crate::oid::{id_data_arcs, id_signed_data_arcs, oid_content};
use crate::read::{accepted_attached, AttachedRead};

verus! {

/// What `std::path::Path::extension` gives for the path `path`.
pub uninterp spec fn path_extension(path: Seq<char>) -> Option<Seq<char>>;

/// What `std::path::Path::with_extension` gives for the path `path` and the extension `ext`.
pub uninterp spec fn path_with_extension(path: Seq<char>, ext: Seq<char>) -> Seq<char>;

/// What `std::path::Path::with_added_extension` gives for the path `path` and the extension `ext`.
pub uninterp spec fn path_with_added_extension(path: Seq<char>, ext: Seq<char>) -> Seq<char>;

/// Calls `std::path::Path::extension`. Trusted: the result is the extension
/// of the file name of `path` (named `path_extension`); the path is valid
/// UTF-8, so the conversion back to a `String` loses nothing.
#[verifier::external_body]
fn extension_of(path: &str) -> (r: Option<String>)
    ensures
        match r {
            Some(e) => path_extension(path@) == Some(e@),
            None => path_extension(path@) is None,
        },
{
    match std::path::Path::new(path).extension() {
        Some(e) => Some(e.to_string_lossy().into_owned()),
        None => None,
    }
}

/// Whether `ext` holds no path separator (`/`, or a backslash where paths use it),
/// as `Path::set_extension` asks of an extension.
pub open spec fn no_separator(ext: Seq<char>) -> bool {
    !ext.contains('/') && !ext.contains('\\')
}

/// Calls `std::path::Path::with_extension`. Trusted: the result is `path`
/// with the extension of its file name replaced by `ext` (named
/// `path_with_extension`); both are valid UTF-8, and so is the result. The
/// call panics on an extension that holds a path separator, which `requires`
/// leaves out.
#[verifier::external_body]
fn with_extension(path: &str, ext: &str) -> (r: String)
    requires
        no_separator(ext@),
    ensures
        r@ == path_with_extension(path@, ext@),
{
    std::path::Path::new(path).with_extension(ext).to_string_lossy().into_owned()
}

/// Calls `std::path::Path::with_added_extension`. Trusted: the result is
/// `path` with `ext` appended as one more extension of its file name (named
/// `path_with_added_extension`); both are valid UTF-8, and so is the result.
/// The call panics on an extension that holds a path separator, which
/// `requires` leaves out.
#[verifier::external_body]
fn with_added_extension(path: &str, ext: &str) -> (r: String)
    requires
        no_separator(ext@),
    ensures
        r@ == path_with_added_extension(path@, ext@),
{
    std::path::Path::new(path).with_added_extension(ext).to_string_lossy().into_owned()
}

/// The path of a signature of `input_path`: `output_path` when given, else
/// the input with the extension `p7s` added for a detached signature, `p7m`
/// for an attached one.
pub fn signed_output_path(input_path: &str, output_path: Option<String>, detach: bool) -> (r:
    String)
    ensures
        r@ == match output_path {
            Some(p) => p@,
            None => path_with_added_extension(
                input_path@,
                if detach {
                    "p7s"@
                } else {
                    "p7m"@
                },
            ),
        },
{
    proof {
        reveal_strlit("p7s");
        reveal_strlit("p7m");
    }
    match output_path {
        Some(p) => p,
        None => with_added_extension(
            input_path,
            if detach {
                "p7s"
            } else {
                "p7m"
            },
        ),
    }
}

/// The path that `extract` writes to, given what the paths of the input say:
/// `output_path` when given; else, for an input with the extension `p7m`, the
/// input without it (`without_extension`), beside the input; else the input
/// with the extension `out` added (`with_out`).
pub fn choose_extract_path(
    output_path: Option<String>,
    input_extension: Option<String>,
    without_extension: String,
    with_out: String,
) -> (r: String)
    ensures
        r@ == match output_path {
            Some(p) => p@,
            None => if input_extension matches Some(e) && e@ == "p7m"@ {
                without_extension@
            } else {
                with_out@
            },
        },
{
    match output_path {
        Some(p) => p,
        None => {
            let is_p7m = match &input_extension {
                Some(e) => *e == "p7m".to_owned(),
                None => false,
            };
            if is_p7m {
                without_extension
            } else {
                with_out
            }
        },
    }
}

/// The path that `extract` writes to, as `choose_extract_path` says, for the
/// input `input_path`.
pub fn extract_output_path(input_path: &str, output_path: Option<String>) -> (r: String)
    ensures
        r@ == match output_path {
            Some(p) => p@,
            None => if path_extension(input_path@) == Some("p7m"@) {
                path_with_extension(input_path@, ""@)
            } else {
                path_with_added_extension(input_path@, "out"@)
            },
        },
{
    proof {
        reveal_strlit("");
        reveal_strlit("out");
    }
    let ext = extension_of(input_path);
    let without = with_extension(input_path, "");
    let with_out = with_added_extension(input_path, "out");
    choose_extract_path(output_path, ext, without, with_out)
}

/// Extracts the content of the attached signature `signed`, read from
/// `input_path`: where to write it (as `extract_output_path` says) and the
/// content, or the error of `Cades::from_attached_signature`.
pub fn extract(input_path: &str, output_path: Option<String>, signed: &[u8]) -> (r: Result<
    (String, Vec<u8>),
    CadesError,
>)
    ensures
        match accepted_attached(
            signed@,
            oid_content(id_signed_data_arcs()),
            oid_content(id_data_arcs()),
        ) {
            AttachedRead::Parts(p, _, _) => r matches Ok((path, content)) && content@ == p
                && path@ == match output_path {
                Some(o) => o@,
                None => if path_extension(input_path@) == Some("p7m"@) {
                    path_with_extension(input_path@, ""@)
                } else {
                    path_with_added_extension(input_path@, "out"@)
                },
            },
            AttachedRead::Malformed => r matches Err(CadesError::Decode),
            AttachedRead::UnsupportedContentType(o) => r matches Err(
                CadesError::UnsupportedContentType(v),
            ) && v@ == o,
            AttachedRead::ContentMissing => r matches Err(CadesError::EncapsulatedContentMissing),
        },
{
    let path = extract_output_path(input_path, output_path);
    let cades = match Cades::from_attached_signature(signed) {
        Ok(c) => c,
        Err(e) => return Err(e),
    };
    let content = crate::order::copy_bytes(cades.get_payload());
    Ok((path, content))
}

} // verus!
