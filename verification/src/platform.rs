//! Platform guidance for creating file symbolic links.

use vstd::prelude::*;

verus! {

/// What follows the error text in the Windows guidance.
pub open spec fn windows_guidance() -> Seq<char> {
    ". Windows file symlinks require Developer Mode or an elevated terminal. Enable Developer Mode in Settings > System > For developers, or run whitman from an Administrator terminal. Whitman does not copy profile files as a fallback."@
}

/// The message shown when Windows refuses to create a file symbolic link:
/// the error text, then how to enable symbolic links; profiles are never
/// copied instead.
pub fn windows_symlink_setup_instructions(error: &str) -> (r: String)
    ensures
        r@ == error@ + windows_guidance(),
{
    let s = String::from_str(error);
    s.concat(". Windows file symlinks require Developer Mode or an elevated terminal. Enable Developer Mode in Settings > System > For developers, or run whitman from an Administrator terminal. Whitman does not copy profile files as a fallback.")
}

} // verus!
