//! Decoding of annotation contents.

use encoding_rs::GB18030;
use vstd::prelude::*;

verus! {

/// The text that the bytes `raw` are decoded to: they are read as GB18030,
/// or as the encoding that a byte order mark at their start names.
pub uninterp spec fn gb18030_text(raw: Seq<u8>) -> Seq<char>;

/// Whether the contents `raw` are short enough to be decoded. The decoder
/// reserves up to three bytes of text for each byte of contents and a few
/// more, and may do so a second time while it runs; up to a sixteenth of the
/// address space these sizes stay within what can be reserved.
pub open spec fn decodable(raw: Seq<u8>) -> bool {
    raw.len() <= usize::MAX / 16
}

/// Decodes `raw` with `encoding_rs::GB18030.decode`, which replaces malformed
/// sequences and honours a byte order mark. Nothing is claimed of the text but
/// that it depends on the bytes alone. The decoder panics where the size of
/// its buffer overflows, so contents that are not `decodable` are left out.
#[verifier::external_body]
pub fn decode_gb18030(raw: &[u8]) -> (text: String)
    requires
        decodable(raw@),
    ensures
        text@ == gb18030_text(raw@),
{
    GB18030.decode(raw).0.to_string()
}

} // verus!
