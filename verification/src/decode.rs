//! The byte decoder: turns the raw bytes of a transcript into text.
//!
//! Strict UTF-8 is tried first. Bytes that open with a UTF-16 byte-order mark
//! are then read as UTF-16, and whatever is left falls back to Windows-1257.

use encoding::all::UTF_16BE;
use encoding::all::UTF_16LE;
use encoding::all::WINDOWS_1257;
use encoding::DecoderTrap;
use encoding::Encoding;
use vstd::prelude::*;
use vstd::slice::slice_subrange;
use vstd::string::*;
use vstd::utf8::*;

verus! {

/// What strict Windows-1257 decoding makes of `bytes`: the text, or the
/// decoder's description of the failure.
pub uninterp spec fn windows_1257_decoding(bytes: Seq<u8>) -> Result<Seq<char>, Seq<char>>;

/// What strict UTF-16 little-endian decoding makes of `bytes`: the text, or
/// the decoder's description of the failure.
pub uninterp spec fn utf16_le_decoding(bytes: Seq<u8>) -> Result<Seq<char>, Seq<char>>;

/// What strict UTF-16 big-endian decoding makes of `bytes`: the text, or the
/// decoder's description of the failure.
pub uninterp spec fn utf16_be_decoding(bytes: Seq<u8>) -> Result<Seq<char>, Seq<char>>;

/// Whether a call's outcome is the one that a decoding names.
pub open spec fn agrees(outcome: Result<String, String>, decoding: Result<Seq<char>, Seq<char>>) -> bool {
    match outcome {
        Ok(text) => decoding == Ok::<Seq<char>, Seq<char>>(text@),
        Err(cause) => decoding == Err::<Seq<char>, Seq<char>>(cause@),
    }
}

/// Calls `encoding::all::WINDOWS_1257.decode` with `DecoderTrap::Strict`.
/// The contract only names the outcome: the decoder is a table lookup byte by
/// byte, a function of the bytes alone.
#[verifier::external_body]
fn windows_1257_strict(bytes: &[u8]) -> (outcome: Result<String, String>)
    ensures
        agrees(outcome, windows_1257_decoding(bytes@)),
{
    match WINDOWS_1257.decode(bytes, DecoderTrap::Strict) {
        Ok(text) => Ok(text),
        Err(cause) => Err(cause.into_owned()),
    }
}

/// Calls `encoding::all::UTF_16LE.decode` with `DecoderTrap::Strict`.
/// The contract only names the outcome, a function of the bytes alone.
#[verifier::external_body]
fn utf16_le_strict(bytes: &[u8]) -> (outcome: Result<String, String>)
    ensures
        agrees(outcome, utf16_le_decoding(bytes@)),
{
    match UTF_16LE.decode(bytes, DecoderTrap::Strict) {
        Ok(text) => Ok(text),
        Err(cause) => Err(cause.into_owned()),
    }
}

/// Calls `encoding::all::UTF_16BE.decode` with `DecoderTrap::Strict`.
/// The contract only names the outcome, a function of the bytes alone.
#[verifier::external_body]
fn utf16_be_strict(bytes: &[u8]) -> (outcome: Result<String, String>)
    ensures
        agrees(outcome, utf16_be_decoding(bytes@)),
{
    match UTF_16BE.decode(bytes, DecoderTrap::Strict) {
        Ok(text) => Ok(text),
        Err(cause) => Err(cause.into_owned()),
    }
}

/// Calls `std::str::from_utf8`, which accepts exactly the well-formed UTF-8
/// byte sequences and reads them as the text they encode.
#[verifier::external_body]
fn utf8_strict(bytes: &[u8]) -> (text: Option<&str>)
    ensures
        text is Some <==> valid_utf8(bytes@),
        text matches Some(t) ==> t@ == decode_utf8(bytes@),
{
    match std::str::from_utf8(bytes) {
        Ok(text) => Some(text),
        Err(_) => None,
    }
}

/// The message of a failed decoding: which codec was tried, and the decoder's
/// description of the failure in double quotes.
pub open spec fn failure_message(codec: Seq<char>, cause: Seq<char>) -> Seq<char> {
    "Failed to read bytes as "@ + codec + ": \""@ + cause + "\""@
}

/// What a decoding gives once a failure is reported under the codec's name.
pub open spec fn reported(codec: Seq<char>, decoding: Result<Seq<char>, Seq<char>>) -> Result<
    Seq<char>,
    Seq<char>,
> {
    match decoding {
        Ok(text) => Ok(text),
        Err(cause) => Err(failure_message(codec, cause)),
    }
}

fn report(codec: &str, outcome: Result<String, String>) -> (r: Result<String, String>)
    ensures
        forall|decoding: Result<Seq<char>, Seq<char>>|
            agrees(outcome, decoding) ==> agrees(r, reported(codec@, decoding)),
{
    match outcome {
        Ok(text) => Ok(text),
        Err(cause) => {
            let mut message = "Failed to read bytes as ".to_owned();
            message.append(codec);
            message.append(": \"");
            message.append(cause.as_str());
            message.append("\"");
            Err(message)
        },
    }
}

/// Reads `bytes` as Windows-1257, strictly.
pub fn decode_windows_1257(bytes: &[u8]) -> (r: Result<String, String>)
    ensures
        agrees(r, reported("Windows 1257"@, windows_1257_decoding(bytes@))),
{
    report("Windows 1257", windows_1257_strict(bytes))
}

/// Reads `bytes` as UTF-16 little-endian, strictly.
pub fn decode_utf16_le(bytes: &[u8]) -> (r: Result<String, String>)
    ensures
        agrees(r, reported("UTF_16LE"@, utf16_le_decoding(bytes@))),
{
    report("UTF_16LE", utf16_le_strict(bytes))
}

/// Reads `bytes` as UTF-16 big-endian, strictly.
pub fn decode_utf16_be(bytes: &[u8]) -> (r: Result<String, String>)
    ensures
        agrees(r, reported("UTF_16BE"@, utf16_be_decoding(bytes@))),
{
    report("UTF_16BE", utf16_be_strict(bytes))
}

/// Whether `bytes` opens with the two bytes `first`, `second`.
pub open spec fn opens_with(bytes: Seq<u8>, first: u8, second: u8) -> bool {
    bytes.len() >= 2 && bytes[0] == first && bytes[1] == second
}

/// The text of a transcript file with the content `bytes`, or the message of
/// the last codec that was tried.
pub open spec fn transcript_text(bytes: Seq<u8>) -> Result<Seq<char>, Seq<char>> {
    if valid_utf8(bytes) {
        Ok(decode_utf8(bytes))
    } else if opens_with(bytes, 0xFF, 0xFE) && utf16_le_decoding(bytes.skip(2)) is Ok {
        utf16_le_decoding(bytes.skip(2))
    } else if opens_with(bytes, 0xFE, 0xFF) && utf16_be_decoding(bytes.skip(2)) is Ok {
        utf16_be_decoding(bytes.skip(2))
    } else {
        reported("Windows 1257"@, windows_1257_decoding(bytes))
    }
}

/// Decodes the content of a transcript file.
pub fn decode_transcript(bytes: &[u8]) -> (r: Result<String, String>)
    ensures
        agrees(r, transcript_text(bytes@)),
{
    if let Some(text) = utf8_strict(bytes) {
        return Ok(text.to_owned());
    }
    let n = bytes.len();
    if n >= 2 && bytes[0] == 0xFF && bytes[1] == 0xFE {
        assert(bytes@.subrange(2, n as int) == bytes@.skip(2));
        if let Ok(text) = decode_utf16_le(slice_subrange(bytes, 2, n)) {
            return Ok(text);
        }
    } else if n >= 2 && bytes[0] == 0xFE && bytes[1] == 0xFF {
        assert(bytes@.subrange(2, n as int) == bytes@.skip(2));
        if let Ok(text) = decode_utf16_be(slice_subrange(bytes, 2, n)) {
            return Ok(text);
        }
    }
    decode_windows_1257(bytes)
}

/// Bytes that open with the UTF-16 little-endian byte-order mark and go on as
/// well-formed UTF-16 decode to the text that follows the mark.
pub proof fn lemma_utf16_le_mark_is_honoured(bytes: Seq<u8>, text: Seq<char>)
    requires
        opens_with(bytes, 0xFF, 0xFE),
        utf16_le_decoding(bytes.skip(2)) == Ok::<Seq<char>, Seq<char>>(text),
    ensures
        transcript_text(bytes) == Ok::<Seq<char>, Seq<char>>(text),
{
    lemma_byte_order_mark_is_not_utf8(bytes);
}

/// Bytes that open with the UTF-16 big-endian byte-order mark and go on as
/// well-formed UTF-16 decode to the text that follows the mark.
pub proof fn lemma_utf16_be_mark_is_honoured(bytes: Seq<u8>, text: Seq<char>)
    requires
        opens_with(bytes, 0xFE, 0xFF),
        utf16_be_decoding(bytes.skip(2)) == Ok::<Seq<char>, Seq<char>>(text),
    ensures
        transcript_text(bytes) == Ok::<Seq<char>, Seq<char>>(text),
{
    lemma_byte_order_mark_is_not_utf8(bytes);
}

/// Bytes that are not UTF-8 and open with neither byte-order mark are read as
/// Windows-1257: they decode without error exactly if that codec holds them.
pub proof fn lemma_unmarked_bytes_fall_back(bytes: Seq<u8>)
    requires
        !valid_utf8(bytes),
        !opens_with(bytes, 0xFF, 0xFE),
        !opens_with(bytes, 0xFE, 0xFF),
    ensures
        transcript_text(bytes) == reported("Windows 1257"@, windows_1257_decoding(bytes)),
        transcript_text(bytes) is Ok <==> windows_1257_decoding(bytes) is Ok,
{
}

/// No UTF-8 text starts with the byte 0xFE or 0xFF.
pub proof fn lemma_byte_order_mark_is_not_utf8(bytes: Seq<u8>)
    requires
        bytes.len() >= 1,
        bytes[0] == 0xFE || bytes[0] == 0xFF,
    ensures
        !valid_utf8(bytes),
{
    let b = bytes[0];
    assert(!is_leading_byte_width_1(b) && !is_leading_byte_width_2(b) && !is_leading_byte_width_3(b)
        && !is_leading_byte_width_4(b)) by (bit_vector)
        requires
            b == 0xFE || b == 0xFF,
    ;
}

} // verus!
