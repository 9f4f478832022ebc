//! The symmetric half of the scheme: a key derived from a group element,
//! and the stream cipher that the key drives.
//!
//! The key is the SHA-256 digest of the element's encoding. The `sha256`
//! crate hands the digest out as hexadecimal text, which `hex` turns back
//! into bytes. The cipher is ChaCha20 under a fixed nonce: every key is used
//! for one message only.

use chacha20::cipher::{KeyIvInit, StreamCipher, StreamCipherError};
use chacha20::ChaCha20;
use hex::FromHexError;
use vstd::prelude::*;

verus! {

/// The lower-case hexadecimal text of the SHA-256 digest of `data`.
pub uninterp spec fn sha256_hex(data: Seq<u8>) -> Seq<char>;

/// The first `length` bytes of the ChaCha20 keystream for a key and a nonce.
pub uninterp spec fn chacha20_keystream(key: Seq<u8>, nonce: Seq<u8>, length: nat) -> Seq<u8>;

/// The longest input that one ChaCha20 keystream covers: its block counter
/// has 32 bits and a block has 64 bytes.
pub open spec fn max_stream_len() -> nat {
    0xffff_ffff * 64
}

/// The nonce of every encryption, the ASCII text `secret nonce`.
pub open spec fn stream_nonce() -> Seq<u8> {
    seq![0x73u8, 0x65, 0x63, 0x72, 0x65, 0x74, 0x20, 0x6e, 0x6f, 0x6e, 0x63, 0x65]
}

/// The value of a hexadecimal digit, or -1 for any other character.
pub open spec fn hex_digit_value(c: char) -> int {
    let code = c as int;
    if 48 <= code <= 57 {
        code - 48
    } else if 97 <= code <= 102 {
        code - 87
    } else if 65 <= code <= 70 {
        code - 55
    } else {
        -1
    }
}

/// Whether a text is an even number of hexadecimal digits.
pub open spec fn is_hex(text: Seq<char>) -> bool {
    &&& text.len() % 2 == 0
    &&& forall|i: int| 0 <= i < text.len() ==> hex_digit_value(#[trigger] text[i]) >= 0
}

/// The bytes that a hexadecimal text denotes, two digits to the byte.
pub open spec fn hex_bytes(text: Seq<char>) -> Seq<u8> {
    Seq::new(
        text.len() / 2,
        |i: int| (16 * hex_digit_value(text[2 * i]) + hex_digit_value(text[2 * i + 1])) as u8,
    )
}

/// Each byte of `data` combined by exclusive or with the byte of `stream` at
/// the same position.
pub open spec fn xor_bytes(data: Seq<u8>, stream: Seq<u8>) -> Seq<u8> {
    Seq::new(data.len(), |i: int| data[i] ^ stream[i])
}

/// The symmetric key that belongs to an encoded group element.
pub open spec fn symmetric_key(element: Seq<u8>) -> Seq<u8> {
    hex_bytes(sha256_hex(element))
}

/// What the stream cipher makes of `data` under `key`. Applying it twice
/// gives `data` back: see `lemma_stream_round_trip`.
pub open spec fn stream_xor(key: Seq<u8>, data: Seq<u8>) -> Seq<u8> {
    xor_bytes(data, chacha20_keystream(key, stream_nonce(), data.len()))
}

/// The error of `hex::decode`.
#[verifier::external_type_specification]
#[verifier::external_body]
pub struct ExFromHexError(FromHexError);

/// The error of a stream cipher whose keystream is exhausted.
#[verifier::external_type_specification]
#[verifier::external_body]
pub struct ExStreamCipherError(StreamCipherError);

/// Calls `sha256::digest`, which returns the digest of the input as 64
/// lower-case hexadecimal digits.
#[verifier::external_body]
fn sha256_digest(data: &[u8]) -> (text: String)
    ensures
        text@ == sha256_hex(data@),
        text@.len() == 64,
        forall|i: int| 0 <= i < 64 ==> hex_digit_value(#[trigger] text@[i]) >= 0,
{
    sha256::digest(data)
}

/// Calls `hex::decode`, which accepts an even number of hexadecimal digits
/// of either case and returns the bytes they denote.
#[verifier::external_body]
fn hex_decode(text: &str) -> (decoded: Result<Vec<u8>, FromHexError>)
    ensures
        decoded is Ok <==> is_hex(text@),
        decoded matches Ok(bytes) ==> bytes@ == hex_bytes(text@),
{
    hex::decode(text)
}

/// Calls `KeyIvInit::new_from_slices` and `StreamCipher::try_apply_keystream`
/// of ChaCha20: the data is combined by exclusive or with the keystream of
/// the key and the nonce, unless it is longer than the keystream, in which
/// case it is left as it was.
#[verifier::external_body]
fn chacha20_apply(key: &[u8], nonce: &[u8], data: &mut Vec<u8>) -> (outcome: Result<
    (),
    StreamCipherError,
>)
    requires
        key@.len() == 32,
        nonce@.len() == 12,
    ensures
        outcome is Ok <==> old(data)@.len() <= max_stream_len(),
        outcome is Ok ==> final(data)@ == xor_bytes(
            old(data)@,
            chacha20_keystream(key@, nonce@, old(data)@.len()),
        ),
        outcome is Err ==> final(data)@ == old(data)@,
{
    let mut cipher = ChaCha20::new_from_slices(key, nonce).unwrap();
    cipher.try_apply_keystream(data)
}

/// Applying the stream cipher twice under one key restores the data.
pub proof fn lemma_stream_round_trip(key: Seq<u8>, data: Seq<u8>)
    ensures
        stream_xor(key, stream_xor(key, data)) == data,
{
    let stream = chacha20_keystream(key, stream_nonce(), data.len());
    let once = stream_xor(key, data);
    assert(once.len() == data.len());
    let twice = stream_xor(key, once);
    assert forall|i: int| 0 <= i < data.len() implies twice[i] == data[i] by {
        let d = data[i];
        let s = stream[i];
        assert((d ^ s) ^ s == d) by (bit_vector);
    }
    assert(twice =~= data);
}

/// The symmetric key for a group element, from the element's encoding.
pub fn derive_key(element: &[u8]) -> (key: Vec<u8>)
    ensures
        key@ == symmetric_key(element@),
        key@.len() == 32,
{
    let text = sha256_digest(element);
    proof {
        assert(is_hex(text@));
    }
    match hex_decode(text.as_str()) {
        Ok(key) => key,
        Err(_) => {
            proof {
                assert(false);
            }
            Vec::new()
        },
    }
}

/// Encrypts or decrypts `data` under a key of 32 bytes. `None` means that
/// the data is longer than the keystream.
pub fn apply_stream(key: &[u8], data: &[u8]) -> (output: Option<Vec<u8>>)
    requires
        key@.len() == 32,
    ensures
        output is Some <==> data@.len() <= max_stream_len(),
        output matches Some(bytes) ==> bytes@ == stream_xor(key@, data@),
{
    let nonce: [u8; 12] = [0x73, 0x65, 0x63, 0x72, 0x65, 0x74, 0x20, 0x6e, 0x6f, 0x6e, 0x63, 0x65];
    let mut buffer = vstd::slice::slice_to_vec(data);
    assert(nonce@ =~= stream_nonce());
    match chacha20_apply(key, nonce.as_slice(), &mut buffer) {
        Ok(_) => Some(buffer),
        Err(_) => None,
    }
}

} // verus!
