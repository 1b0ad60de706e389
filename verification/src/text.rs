//! Length-prefixed UTF-8 text, in three framings: the byte length as a varint,
//! in four bytes or in two bytes, little endian and unsigned, then the bytes.

use vstd::prelude::*;
use vstd::slice::{slice_subrange, slice_to_vec};
use vstd::utf8::{
    decode_utf8, encode_utf8, encode_utf8_decode_utf8, encode_utf8_valid_utf8, valid_utf8,
};
use crate::error::{ReadError, WriteError};
use crate::fixed::{
    le_bytes, le_decoding, lemma_le_bytes_len, lemma_le_round_trip, lemma_le_value_bound,
    lemma_radix_values, read_le, write_le,
};
use crate::varint::{
    decode_varint, encode_varint, lemma_varint_len, lemma_varint_round_trip, varint_bytes,
    varint_decoding,
};

verus! {

/// The error of `String::from_utf8`, of which nothing is read.
#[verifier::external_type_specification]
#[verifier::external_body]
pub struct ExFromUtf8Error(std::string::FromUtf8Error);

/// `String::from_utf8` of the standard library: it succeeds exactly on
/// well-formed UTF-8, and the string it returns is made of the bytes given.
pub assume_specification[ String::from_utf8 ](vec: Vec<u8>) -> (r: Result<
    String,
    std::string::FromUtf8Error,
>)
    ensures
        r is Ok <==> valid_utf8(vec@),
        r matches Ok(s) ==> encode_utf8(s@) == vec@,
;

/// The greatest byte length that a two-byte prefix can announce.
pub const SHORT_STRING_MAX: usize = 0xffff;

/// The greatest byte length that a four-byte prefix can announce.
pub const LITTLE_STRING_MAX: usize = 0xffff_ffff;

/// A declared length as the `usize` that an error carries: the length itself
/// where it fits, which it always does where `usize` has 64 bits, and else
/// what is left of it modulo the number of values of `usize`.
pub open spec fn reported_length(declared: nat) -> usize {
    if declared <= usize::MAX {
        declared as usize
    } else {
        (declared % (usize::MAX + 1) as nat) as usize
    }
}

/// What the bytes after a length prefix yield: `start` is where they begin,
/// `declared` the length that the prefix announces, `header` the size of the prefix.
///
/// The error for a text that overruns the buffer carries the number of bytes
/// left after the prefix and the declared length.
pub open spec fn text_body(bytes: Seq<u8>, start: int, declared: nat, header: int) -> Result<
    (Seq<char>, usize),
    ReadError,
> {
    let remaining = bytes.len() - start;
    let body = bytes.subrange(start, start + declared);
    if declared > remaining {
        Err(ReadError::MissingCharacters(remaining as usize, reported_length(declared)))
    } else if !valid_utf8(body) {
        Err(ReadError::InvalidUtf8)
    } else {
        Ok((decode_utf8(body), (header + declared) as usize))
    }
}

/// What reading a varint-prefixed string at `offset` of `bytes` yields.
pub open spec fn string_decoding(bytes: Seq<u8>, offset: int) -> Result<
    (Seq<char>, usize),
    ReadError,
> {
    match varint_decoding(bytes, offset) {
        Ok((declared, header)) => text_body(bytes, offset + header, declared as nat, header as int),
        Err(e) => Err(e),
    }
}

/// What reading a string with a four-byte prefix at `offset` of `bytes`
/// yields. The prefix is an unsigned number.
pub open spec fn little_string_decoding(bytes: Seq<u8>, offset: int) -> Result<
    (Seq<char>, usize),
    ReadError,
> {
    match le_decoding(bytes, offset, 4) {
        Ok(prefix) => text_body(bytes, offset + 4, prefix as nat, 4),
        Err(e) => Err(e),
    }
}

/// What reading a string with a two-byte prefix at `offset` of `bytes`
/// yields. The prefix is an unsigned number.
pub open spec fn short_string_decoding(bytes: Seq<u8>, offset: int) -> Result<
    (Seq<char>, usize),
    ReadError,
> {
    match le_decoding(bytes, offset, 2) {
        Ok(prefix) => text_body(bytes, offset + 2, prefix as nat, 2),
        Err(e) => Err(e),
    }
}

/// The wire form of `text` with a varint prefix.
pub open spec fn string_bytes(text: Seq<char>) -> Seq<u8> {
    varint_bytes(encode_utf8(text).len() as u64) + encode_utf8(text)
}

/// The wire form, with a four-byte prefix, of a `text` whose length the
/// prefix can announce: its length in four bytes, then its bytes.
pub open spec fn little_string_bytes(text: Seq<char>) -> Seq<u8> {
    le_bytes(encode_utf8(text).len(), 4) + encode_utf8(text)
}

/// The wire form, with a two-byte prefix, of a `text` whose length the
/// prefix can announce: its length in two bytes, then its bytes.
pub open spec fn short_string_bytes(text: Seq<char>) -> Seq<u8> {
    le_bytes(encode_utf8(text).len(), 2) + encode_utf8(text)
}

/// What writing a text of `len` bytes returns, behind a prefix of `header`
/// bytes that can announce `limit` at most: the number of bytes written, or
/// the refusal of a text that is too long.
pub open spec fn prefixed_size(len: nat, header: nat, limit: nat) -> Result<usize, WriteError> {
    if len <= limit {
        Ok((header + len) as usize)
    } else {
        Err(WriteError::StringTooLong(len as usize, limit as usize))
    }
}

/// A read result with the string replaced by the characters it holds.
pub open spec fn text_view(r: Result<(String, usize), ReadError>) -> Result<
    (Seq<char>, usize),
    ReadError,
> {
    match r {
        Ok((s, size)) => Ok((s@, size)),
        Err(e) => Err(e),
    }
}

/// Reads the bytes from `start` up to `end` as text that follows a prefix of `header` bytes.
fn take_text(buf: &[u8], start: usize, end: usize, header: usize) -> (r: Result<
    (String, usize),
    ReadError,
>)
    requires
        header <= start <= end <= buf@.len(),
    ensures
        text_view(r) == text_body(buf@, start as int, (end - start) as nat, header as int),
{
    let body = slice_to_vec(slice_subrange(buf, start, end));
    match String::from_utf8(body) {
        Ok(s) => {
            proof {
                encode_utf8_decode_utf8(s@);
            }
            Ok((s, header + (end - start)))
        },
        Err(_) => Err(ReadError::InvalidUtf8),
    }
}

/// Reads the varint-prefixed string at `offset`: the text and the number of
/// bytes that prefix and text occupy.
pub fn decode_string(buf: &[u8], offset: usize) -> (r: Result<(String, usize), ReadError>)
    ensures
        text_view(r) == string_decoding(buf@, offset as int),
{
    match decode_varint(buf, offset) {
        Ok((declared, header)) => {
            let len = buf.len();
            let start = offset + header;
            let remaining = len - start;
            if declared > remaining as u64 {
                let reported = if declared <= usize::MAX as u64 {
                    declared as usize
                } else {
                    (declared % (usize::MAX as u64 + 1)) as usize
                };
                Err(ReadError::MissingCharacters(remaining, reported))
            } else {
                take_text(buf, start, start + declared as usize, header)
            }
        },
        Err(e) => Err(e),
    }
}

/// Reads the string with a four-byte prefix at `offset`: the text and the
/// number of bytes that prefix and text occupy.
pub fn decode_little_string(buf: &[u8], offset: usize) -> (r: Result<(String, usize), ReadError>)
    ensures
        text_view(r) == little_string_decoding(buf@, offset as int),
{
    match read_le(buf, offset, 4) {
        Ok(prefix) => {
            proof {
                lemma_le_value_bound(buf@.subrange(offset as int, offset + 4));
                lemma_radix_values();
            }
            let declared = prefix as usize;
            let len = buf.len();
            let start = offset + 4;
            let remaining = len - start;
            if declared > remaining {
                Err(ReadError::MissingCharacters(remaining, declared))
            } else {
                take_text(buf, start, start + declared, 4)
            }
        },
        Err(e) => Err(e),
    }
}

/// Reads the string with a two-byte prefix at `offset`: the text and the
/// number of bytes that prefix and text occupy.
pub fn decode_short_string(buf: &[u8], offset: usize) -> (r: Result<(String, usize), ReadError>)
    ensures
        text_view(r) == short_string_decoding(buf@, offset as int),
{
    match read_le(buf, offset, 2) {
        Ok(prefix) => {
            proof {
                lemma_le_value_bound(buf@.subrange(offset as int, offset + 2));
                lemma_radix_values();
            }
            let declared = prefix as usize;
            let len = buf.len();
            let start = offset + 2;
            let remaining = len - start;
            if declared > remaining {
                Err(ReadError::MissingCharacters(remaining, declared))
            } else {
                take_text(buf, start, start + declared, 2)
            }
        },
        Err(e) => Err(e),
    }
}

/// Appends `value` with a varint prefix; returns the number of bytes written.
/// It never fails: a varint announces every length.
pub fn encode_string(buf: &mut Vec<u8>, value: &str) -> (r: Result<usize, WriteError>)
    ensures
        final(buf)@ == old(buf)@ + string_bytes(value@),
        r matches Ok(written) && written == string_bytes(value@).len(),
{
    let bytes = value.as_bytes();
    let before = buf.len();
    let _ = encode_varint(buf, bytes.len() as u64);
    buf.extend_from_slice(bytes);
    Ok(buf.len() - before)
}

/// Appends `value` with a four-byte prefix and returns the number of bytes
/// written, or refuses a text longer than the prefix can announce and
/// leaves the buffer as it was.
pub fn encode_little_string(buf: &mut Vec<u8>, value: &str) -> (r: Result<usize, WriteError>)
    ensures
        r == prefixed_size(encode_utf8(value@).len(), 4, LITTLE_STRING_MAX as nat),
            r matches Ok(written) ==> final(buf)@ == old(buf)@ + little_string_bytes(value@)
            && written == little_string_bytes(value@).len(),
        r is Err ==> final(buf)@ == old(buf)@,
{
    let bytes = value.as_bytes();
    let len = bytes.len();
    if len > LITTLE_STRING_MAX {
        return Err(WriteError::StringTooLong(len, LITTLE_STRING_MAX));
    }
    let before = buf.len();
    proof {
        lemma_le_bytes_len(bytes@.len(), 4);
    }
    write_le(buf, len as u64, 4);
    buf.extend_from_slice(bytes);
    Ok(buf.len() - before)
}

/// Appends `value` with a two-byte prefix and returns the number of bytes
/// written, or refuses a text longer than the prefix can announce and
/// leaves the buffer as it was.
pub fn encode_short_string(buf: &mut Vec<u8>, value: &str) -> (r: Result<usize, WriteError>)
    ensures
        r == prefixed_size(encode_utf8(value@).len(), 2, SHORT_STRING_MAX as nat),
            r matches Ok(written) ==> final(buf)@ == old(buf)@ + short_string_bytes(value@)
            && written == short_string_bytes(value@).len(),
        r is Err ==> final(buf)@ == old(buf)@,
{
    let bytes = value.as_bytes();
    let len = bytes.len();
    if len > SHORT_STRING_MAX {
        return Err(WriteError::StringTooLong(len, SHORT_STRING_MAX));
    }
    let before = buf.len();
    proof {
        lemma_le_bytes_len(bytes@.len(), 2);
    }
    write_le(buf, len as u64, 2);
    buf.extend_from_slice(bytes);
    Ok(buf.len() - before)
}

/// A string that was read lies inside the buffer, prefix and text.
pub proof fn lemma_string_decoding_in_bounds(bytes: Seq<u8>, offset: int)
    requires
        0 <= offset,
        bytes.len() <= usize::MAX,
    ensures
        string_decoding(bytes, offset) matches Ok((_, size)) ==> offset + size <= bytes.len(),
        little_string_decoding(bytes, offset) matches Ok((_, size)) ==> offset + size
            <= bytes.len(),
        short_string_decoding(bytes, offset) matches Ok((_, size)) ==> offset + size
            <= bytes.len(),
{
}

/// Reading a varint-prefixed string that was written gives the text back,
/// and as many bytes are read as were written, for every text whose length
/// is a 64-bit number, as that of every string in memory is.
pub proof fn lemma_string_round_trip(text: Seq<char>, before: Seq<u8>, after: Seq<u8>)
    requires
        encode_utf8(text).len() <= u64::MAX,
    ensures
        string_decoding(before + string_bytes(text) + after, before.len() as int) == Ok::<
            (Seq<char>, usize),
            ReadError,
        >((text, string_bytes(text).len() as usize)),
{
    let body = encode_utf8(text);
    let declared = body.len() as u64;
    let prefix = varint_bytes(declared);
    let bytes = before + string_bytes(text) + after;
    lemma_varint_len(declared);
    lemma_varint_round_trip(declared, before, body + after);
    assert(before + prefix + (body + after) =~= bytes);
    lemma_text_body(text, before + prefix, after, prefix.len() as int);
    assert(before + prefix + body + after =~= bytes);
}

/// Reading a string with a four-byte prefix that was written gives the text
/// back, and as many bytes are read as were written, for every text that
/// the write accepts.
pub proof fn lemma_little_string_round_trip(text: Seq<char>, before: Seq<u8>, after: Seq<u8>)
    requires
        encode_utf8(text).len() <= LITTLE_STRING_MAX,
    ensures
        little_string_decoding(before + little_string_bytes(text) + after, before.len() as int)
            == Ok::<(Seq<char>, usize), ReadError>(
            (text, little_string_bytes(text).len() as usize),
        ),
{
    let body = encode_utf8(text);
    let prefix = le_bytes(body.len(), 4);
    let bytes = before + little_string_bytes(text) + after;
    lemma_radix_values();
    lemma_le_bytes_len(body.len(), 4);
    lemma_le_round_trip(body.len(), 4);
    assert(bytes.subrange(before.len() as int, before.len() as int + 4) =~= prefix);
    lemma_text_body(text, before + prefix, after, 4);
    assert(before + prefix + body + after =~= bytes);
}

/// Reading a string with a two-byte prefix that was written gives the text
/// back, and as many bytes are read as were written, for every text that
/// the write accepts.
pub proof fn lemma_short_string_round_trip(text: Seq<char>, before: Seq<u8>, after: Seq<u8>)
    requires
        encode_utf8(text).len() <= SHORT_STRING_MAX,
    ensures
        short_string_decoding(before + short_string_bytes(text) + after, before.len() as int)
            == Ok::<(Seq<char>, usize), ReadError>(
            (text, short_string_bytes(text).len() as usize),
        ),
{
    let body = encode_utf8(text);
    let prefix = le_bytes(body.len(), 2);
    let bytes = before + short_string_bytes(text) + after;
    lemma_radix_values();
    lemma_le_bytes_len(body.len(), 2);
    lemma_le_round_trip(body.len(), 2);
    assert(bytes.subrange(before.len() as int, before.len() as int + 2) =~= prefix);
    lemma_text_body(text, before + prefix, after, 2);
    assert(before + prefix + body + after =~= bytes);
}

/// What follows a prefix that announces the length of `text`, where the
/// bytes of `text` come next, is read back as `text`.
proof fn lemma_text_body(text: Seq<char>, head: Seq<u8>, after: Seq<u8>, header: int)
    requires
        0 <= header <= head.len(),
    ensures
        text_body(
            head + encode_utf8(text) + after,
            head.len() as int,
            encode_utf8(text).len(),
            header,
        ) == Ok::<(Seq<char>, usize), ReadError>(
            (text, (header + encode_utf8(text).len()) as usize),
        ),
{
    let body = encode_utf8(text);
    let bytes = head + body + after;
    assert(bytes.subrange(head.len() as int, (head.len() + body.len()) as int) =~= body);
    encode_utf8_valid_utf8(text);
    encode_utf8_decode_utf8(text);
}

} // verus!
