//! Content hashing.

use vstd::prelude::*;

use crate::json::hex_digit;
use crate::text::Text;

verus! {

/// The SHA-256 digest of `data`.
pub uninterp spec fn sha256(data: Seq<u8>) -> Seq<u8>;

/// Calls `sha2::Sha256::digest`. The result is named by `sha256` and is 32 bytes
/// long.
#[verifier::external_body]
pub(crate) fn sha256_bytes(data: &[u8]) -> (r: Vec<u8>)
    ensures
        r@ == sha256(data@),
        r@.len() == 32,
{
    <sha2::Sha256 as sha2::Digest>::digest(data).to_vec()
}

/// Bytes in hexadecimal: two lower-case digits for each, high half first.
pub open spec fn hex_text(data: Seq<u8>) -> Text
    decreases data.len(),
{
    if data.len() == 0 {
        Seq::empty()
    } else {
        seq![hex_digit(data[0] as int / 16), hex_digit(data[0] as int % 16)] + hex_text(
            data.drop_first(),
        )
    }
}

/// Is a character a lower-case hexadecimal digit?
pub open spec fn is_hex(c: char) -> bool {
    48 <= c as int <= 57 || 97 <= c as int <= 102
}

proof fn lemma_hex_digit(d: int)
    requires
        0 <= d < 16,
    ensures
        is_hex(hex_digit(d)),
{
}

/// Bytes in hexadecimal are twice as many digits.
pub proof fn lemma_hex_text(data: Seq<u8>)
    ensures
        hex_text(data).len() == 2 * data.len(),
        forall|i: int| 0 <= i < hex_text(data).len() ==> is_hex(#[trigger] hex_text(data)[i]),
    decreases data.len(),
{
    if data.len() > 0 {
        let rest = hex_text(data.drop_first());
        let text = hex_text(data);
        lemma_hex_text(data.drop_first());
        lemma_hex_digit(data[0] as int / 16);
        lemma_hex_digit(data[0] as int % 16);
        assert forall|i: int| 0 <= i < text.len() implies is_hex(#[trigger] text[i]) by {
            if i >= 2 {
                assert(text[i] == rest[i - 2]);
            }
        }
    }
}

/// Calls `hex::encode`: two lower-case hexadecimal digits for each byte, high
/// half first.
#[verifier::external_body]
pub(crate) fn hex_encode(data: &[u8]) -> (r: String)
    ensures
        r@ == hex_text(data@),
{
    hex::encode(data)
}

} // verus!
