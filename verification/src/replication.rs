//! Replication: the snapshot that a master hands to a new replica.
use vstd::pervasive::unreached;
use vstd::prelude::*;
use vstd::string::StringSliceAdditionalSpecFns;
use vstd::utf8::encode_utf8;

verus! {

/// Why a text is not the hexadecimal form of a byte sequence.
#[derive(Debug, Clone, Copy)]
pub enum HexError {
    /// The byte at `index`, shown as the character `c`, is no hexadecimal
    /// digit.
    InvalidHexCharacter { c: char, index: usize },
    /// The text has an odd number of digits.
    OddLength,
    /// The text does not have the length that the destination needs.
    InvalidStringLength,
}

/// Whether `b` is a hexadecimal digit, in either case.
pub open spec fn is_hex_digit(b: u8) -> bool {
    ||| 48 <= b <= 57
    ||| 65 <= b <= 70
    ||| 97 <= b <= 102
}

/// The value of the hexadecimal digit `b`.
pub open spec fn hex_digit_value(b: u8) -> int {
    if 48 <= b <= 57 {
        b - 48
    } else if 65 <= b <= 70 {
        b - 65 + 10
    } else {
        b - 97 + 10
    }
}

/// The number of hexadecimal digits at the front of `text`.
pub open spec fn hex_run(text: Seq<u8>) -> nat
    decreases text.len(),
{
    if text.len() > 0 && is_hex_digit(text[0]) {
        1 + hex_run(text.drop_first())
    } else {
        0
    }
}

/// The bytes that the hexadecimal digits `text` denote, two digits to a
/// byte, the high one first.
pub open spec fn hex_bytes(text: Seq<u8>) -> Seq<u8> {
    Seq::new(
        text.len() / 2,
        |i: int| (hex_digit_value(text[2 * i]) * 16 + hex_digit_value(text[2 * i + 1])) as u8,
    )
}

/// What decoding `text` gives: the bytes, for an even number of hexadecimal
/// digits; the odd length, or else the first byte that is no digit.
pub open spec fn hex_decoded(text: Seq<u8>) -> Result<Seq<u8>, HexError> {
    if text.len() % 2 != 0 {
        Err(HexError::OddLength)
    } else if hex_run(text) < text.len() {
        Err(
            HexError::InvalidHexCharacter {
                c: text[hex_run(text) as int] as char,
                index: hex_run(text) as usize,
            },
        )
    } else {
        Ok(hex_bytes(text))
    }
}

/// Decodes hexadecimal text with `hex::decode`, which refuses a text of odd
/// length, then reports the first byte that is no hexadecimal digit, and
/// otherwise gives one byte for each two digits.
#[verifier::external_body]
fn hex_decode(text: &[u8]) -> (result: Result<Vec<u8>, HexError>)
    ensures
        match result {
            Ok(bytes) => hex_decoded(text@) == Ok::<Seq<u8>, HexError>(bytes@),
            Err(error) => hex_decoded(text@) == Err::<Seq<u8>, HexError>(error),
        },
{
    match hex::decode(text) {
        Ok(bytes) => Ok(bytes),
        Err(hex::FromHexError::InvalidHexCharacter { c, index }) => Err(
            HexError::InvalidHexCharacter { c, index },
        ),
        Err(hex::FromHexError::OddLength) => Err(HexError::OddLength),
        Err(hex::FromHexError::InvalidStringLength) => Err(HexError::InvalidStringLength),
    }
}

/// The hexadecimal form of an empty snapshot.
pub open spec fn empty_rdb_hex() -> Seq<char> {
    "524544495330303131fa0972656469732d76657205372e322e30fa0a72656469732d62697473c040fa056374696d65c26d08bc65fa08757365642d6d656dc2b0c41000fa08616f662d62617365c000fff06e3bfec0ff5aa2"@
}

/// The bytes of an empty snapshot.
pub open spec fn empty_rdb() -> Seq<u8> {
    hex_bytes(encode_utf8(empty_rdb_hex()))
}

/// The hex run of `text` is at least as long as any run of hexadecimal
/// digits at its front.
proof fn lemma_hex_run_all(text: Seq<u8>, k: nat)
    requires
        k <= text.len(),
        forall|j: int| 0 <= j < k ==> is_hex_digit(#[trigger] text[j]),
    ensures
        hex_run(text) >= k,
    decreases k,
{
    if k > 0 {
        let rest = text.drop_first();
        assert forall|j: int| 0 <= j < k - 1 implies is_hex_digit(#[trigger] rest[j]) by {
            assert(rest[j] == text[j + 1]);
        }
        lemma_hex_run_all(rest, (k - 1) as nat);
    }
}

/// The hex run of `text` is no longer than `text`.
proof fn lemma_hex_run_bound(text: Seq<u8>)
    ensures
        hex_run(text) <= text.len(),
    decreases text.len(),
{
    if text.len() > 0 && is_hex_digit(text[0]) {
        lemma_hex_run_bound(text.drop_first());
    }
}

/// The snapshot that a master sends to a replica that asks for a full
/// resynchronisation: an empty one.
pub fn empty_snapshot() -> (rdb: Vec<u8>)
    ensures
        rdb@ == empty_rdb(),
        rdb@.len() == 88,
{
    let text = "524544495330303131fa0972656469732d76657205372e322e30fa0a72656469732d62697473c040fa056374696d65c26d08bc65fa08757365642d6d656dc2b0c41000fa08616f662d62617365c000fff06e3bfec0ff5aa2";
    proof {
        reveal_strlit(
            "524544495330303131fa0972656469732d76657205372e322e30fa0a72656469732d62697473c040fa056374696d65c26d08bc65fa08757365642d6d656dc2b0c41000fa08616f662d62617365c000fff06e3bfec0ff5aa2",
        );
        assert(text.is_ascii());
        let bytes = text.spec_bytes();
        assert(bytes.len() == 176);
        assert forall|j: int| 0 <= j < 176 implies is_hex_digit(#[trigger] bytes[j]) by {
            assert(bytes[j] == text@[j] as u8);
        }
        lemma_hex_run_all(bytes, 176);
        lemma_hex_run_bound(bytes);
    }
    match hex_decode(text.as_bytes()) {
        Ok(bytes) => bytes,
        Err(_) => unreached(),
    }
}

} // verus!
