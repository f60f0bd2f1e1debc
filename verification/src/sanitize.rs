//! File names made safe for the file system, by the `sanitize-filename`
//! crate.

use vstd::prelude::*;

verus! {

/// The name that the sanitizer makes of `name` under the given options: with
/// or without the rules that hold on Windows only, cut or not to 255 bytes,
/// and with `replacement` put where something was taken out.
pub uninterp spec fn sanitized(
    name: Seq<char>,
    windows: bool,
    truncate: bool,
    replacement: Seq<char>,
) -> Seq<char>;

/// `sanitize_filename::sanitize_with_options`. It works on its arguments
/// alone, with patterns that are fixed in its source, so that equal arguments
/// give equal names; the contract says no more than that.
#[verifier::external_body]
pub(crate) fn sanitize_with_options(
    name: &str,
    windows: bool,
    truncate: bool,
    replacement: &str,
) -> (clean: String)
    ensures
        clean@ == sanitized(name@, windows, truncate, replacement@),
{
    sanitize_filename::sanitize_with_options(
        name,
        sanitize_filename::Options { windows, truncate, replacement },
    )
}

} // verus!
