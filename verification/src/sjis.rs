//! Decoding Shift_JIS pages, through `encoding_rs`.

use vstd::prelude::*;

verus! {

/// The text `encoding_rs::SHIFT_JIS.decode` makes of `bytes`.
pub uninterp spec fn shift_jis_text(bytes: Seq<u8>) -> Seq<char>;

/// Pages small enough for `Encoding::decode`, which panics only when the
/// size of its output buffer overflows `usize`.
pub open spec fn decodable(bytes: Seq<u8>) -> bool {
    bytes.len() <= usize::MAX / 8
}

/// `encoding_rs::SHIFT_JIS.decode(bytes)`: the text of a Shift_JIS page
/// (a byte-order mark switches to the encoding it names; malformed
/// sequences become U+FFFD). The contract names the text and states what
/// the documentation gives for ASCII-only input (Shift_JIS is
/// ASCII-compatible): each byte decodes to the same character.
#[verifier::external_body]
pub(crate) fn decode_shift_jis(bytes: &[u8]) -> (r: String)
    requires
        decodable(bytes@),
    ensures
        r@ == shift_jis_text(bytes@),
        (forall|i: int| 0 <= i < bytes@.len() ==> #[trigger] bytes@[i] < 0x80) ==> r@
            == bytes@.map_values(|b: u8| (b as u32) as char),
{
    encoding_rs::SHIFT_JIS.decode(bytes).0.into_owned()
}

} // verus!
