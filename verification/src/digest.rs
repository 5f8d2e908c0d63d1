//! BLAKE3 checksums as the lowercase hexadecimal strings that the manifest holds.

use vstd::prelude::*;
use crate::text::str_eq;

verus! {

/// The 32-byte BLAKE3 digest of `data`, as computed by `blake3::hash`.
pub uninterp spec fn blake3_digest(data: Seq<u8>) -> Seq<u8>;

/// The lowercase hexadecimal digit for a nibble `n < 16`.
pub open spec fn hex_digit(n: int) -> char {
    if n < 10 {
        (n + 48) as char
    } else {
        (n - 10 + 97) as char
    }
}

/// Lowercase hexadecimal encoding: two digits per byte, high nibble first.
pub open spec fn lower_hex(bytes: Seq<u8>) -> Seq<char>
    decreases bytes.len(),
{
    if bytes.len() == 0 {
        Seq::empty()
    } else {
        seq![hex_digit(bytes[0] as int / 16), hex_digit(bytes[0] as int % 16)] + lower_hex(bytes.drop_first())
    }
}

/// The checksum string of `data`: the lowercase hex form of its BLAKE3 digest.
pub open spec fn checksum_of(data: Seq<u8>) -> Seq<char> {
    lower_hex(blake3_digest(data))
}

/// Calls `blake3::hash` and renders the `Hash` with its `Display` impl.
/// Claimed: the text is the 64-digit lowercase hexadecimal form of the digest
/// (blake3's `Display` goes through `Hash::to_hex`, which writes each byte as
/// two lowercase digits, high nibble first). The digest itself is only named.
#[verifier::external_body]
pub(crate) fn blake3_hex(data: &[u8]) -> (res: String)
    ensures
        res@ == lower_hex(blake3_digest(data@)) && res@.len() == 64,
{
    blake3::hash(data).to_string()
}

/// The checksum the manifest records for a file with these contents (see `checksum_of`).
pub fn file_checksum(contents: &[u8]) -> (res: String)
    ensures
        res@ == checksum_of(contents@),
        res@.len() == 64,
{
    blake3_hex(contents)
}

/// Whether a file's contents are the ones the manifest records: their checksum is
/// `expected_hash`. Used on cached and freshly downloaded files alike.
pub fn contents_match_checksum(contents: &[u8], expected_hash: &str) -> (res: bool)
    ensures
        res == (checksum_of(contents@) == expected_hash@),
{
    let h = file_checksum(contents);
    str_eq(h.as_str(), expected_hash)
}

} // verus!
