//! The bytes of the comment that marks a file taken over from `AGENTS.md`.

use vstd::prelude::*;
use vstd::utf8::encode_utf8;

verus! {

broadcast use vstd::string::group_string_axioms;

/// The UTF-8 bytes of `<!-- whitman: Converted from AGENTS.md -->` and a
/// line feed.
pub open spec fn old_profile_header() -> Seq<u8> {
    encode_utf8("<!-- whitman: Converted from AGENTS.md -->\n"@)
}

/// The header's bytes, in a fresh vector.
pub fn header_bytes() -> (r: Vec<u8>)
    ensures
        r@ == old_profile_header(),
{
    let text: &str = "<!-- whitman: Converted from AGENTS.md -->\n";
    let bytes = text.as_bytes();
    let mut out: Vec<u8> = Vec::new();
    let mut i: usize = 0;
    while i < bytes.len()
        invariant
            i <= bytes@.len(),
            bytes@ == encode_utf8(text@),
            out@ == bytes@.take(i as int),
        decreases bytes@.len() - i,
    {
        out.push(bytes[i]);
        i = i + 1;
        assert(out@ =~= bytes@.take(i as int));
    }
    assert(bytes@.take(bytes@.len() as int) =~= bytes@);
    out
}

} // verus!
