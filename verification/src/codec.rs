//! The executable codec: hex-digit lookup, pairing, and the two entry
//! points `decode` and `encode`, each verified against the model.

use vstd::prelude::*;

use crate::model::byte_of_pair;
use crate::model::clean_len;
use crate::model::decoded_bytes;
use crate::model::garbage_free;
use crate::model::hex_digit_value;
use crate::model::hex_digits;
use crate::model::hex_encoding;
use crate::model::hex_upper_char;
use crate::model::is_garbage;
use crate::model::is_hex_digit;
use crate::model::is_whitespace_byte;
use crate::model::lemma_clean_digits_without_whitespace;
use crate::model::lemma_clean_len_at;
use crate::model::lemma_digits_without_whitespace;
use crate::model::lemma_encoding_decodes;
use crate::model::lemma_hex_digits_push;
use crate::model::lemma_hex_encoding_push;
use crate::model::lemma_pair_up_push;
use crate::model::pair_up;
use crate::model::without_whitespace;

verus! {

/// Why a decode failed.
#[derive(Clone, Copy, Debug, PartialEq, Eq, Structural)]
pub enum DecodeError {
    /// A non-whitespace character outside the hex alphabet was read while
    /// garbage was not being ignored.
    NotHex,
    /// The stream ended with an unpaired trailing hex digit; every
    /// completed pair had already been written out.
    OddLength,
}

/// Converts one character to its nibble value, if it is a hex digit.
pub fn to_hex_value(c: u8) -> (r: Option<u8>)
    ensures
        r == (if is_hex_digit(c) {
            Some(hex_digit_value(c))
        } else {
            None::<u8>
        }),
{
    if 0x30 <= c && c <= 0x39 {
        Some(c - 0x30)
    } else if 0x61 <= c && c <= 0x66 {
        Some(c - 0x61 + 10)
    } else if 0x41 <= c && c <= 0x46 {
        Some(c - 0x41 + 10)
    } else {
        None
    }
}

/// Converts a pair of characters to the byte they spell, high nibble
/// first, if both are hex digits.
pub fn pair_to_hex(pair: &[u8; 2]) -> (r: Option<u8>)
    ensures
        r == (if is_hex_digit(pair[0]) && is_hex_digit(pair[1]) {
            Some(byte_of_pair(pair[0], pair[1]))
        } else {
            None::<u8>
        }),
{
    let hi = to_hex_value(pair[0]);
    let lo = to_hex_value(pair[1]);
    match (hi, lo) {
        (Some(h), Some(l)) => Some(h * 16 + l),
        _ => None,
    }
}

/// What a decode of stream `s` returns: `NotHex` when a garbage byte is
/// read in strict mode, otherwise `OddLength` when the stream's hex digits
/// do not pair up evenly, otherwise success.
pub open spec fn decode_result(s: Seq<u8>, ignore_garbage: bool) -> Result<(), DecodeError> {
    if !ignore_garbage && !garbage_free(s) {
        Err(DecodeError::NotHex)
    } else if hex_digits(s).len() % 2 == 1 {
        Err(DecodeError::OddLength)
    } else {
        Ok(())
    }
}

/// The decode cursor is faithful to the digits read so far: it is empty
/// after an even number of hex digits, and after an odd number it holds
/// the nibble value of the last one, the pending high nibble.
spec fn cursor_matches(pending: Option<u8>, d: Seq<u8>) -> bool {
    match pending {
        Some(hv) => d.len() % 2 == 1 && is_hex_digit(d.last()) && hv == hex_digit_value(d.last()),
        None => d.len() % 2 == 0,
    }
}

/// Tests whether a byte reads as a whitespace character: ASCII whitespace,
/// next-line (0x85) or no-break space (0xA0).
fn is_whitespace(b: u8) -> (r: bool)
    ensures
        r == is_whitespace_byte(b),
{
    b == 0x09 || b == 0x0a || b == 0x0b || b == 0x0c || b == 0x0d || b == 0x20 || b == 0x85
        || b == 0xa0
}

/// Decodes hex text back into bytes, appending each completed pair to
/// `dst` as it is read. Whitespace is always skipped; other non-hex bytes
/// are skipped when `ignore_garbage` is set and otherwise stop the decode
/// with `NotHex`, after every pair completed so far has been written. A
/// stream whose hex digits do not pair up evenly yields `OddLength`, again
/// with every completed pair already written.
pub fn decode(src: &Vec<u8>, dst: &mut Vec<u8>, ignore_garbage: bool) -> (r: Result<
    (),
    DecodeError,
>)
    ensures
        final(dst)@ == old(dst)@ + decoded_bytes(src@, ignore_garbage),
        r == decode_result(src@, ignore_garbage),
{
    let mut i: usize = 0;
    let mut pending: Option<u8> = None;
    while i < src.len()
        invariant
            i <= src.len(),
            dst@ == old(dst)@ + pair_up(hex_digits(src@.take(i as int))),
            cursor_matches(pending, hex_digits(src@.take(i as int))),
            !ignore_garbage ==> forall|j: int| 0 <= j < i ==> !is_garbage(src@[j]),
        decreases src.len() - i,
    {
        let b = src[i];
        proof {
            assert(src@.take(i as int + 1) =~= src@.take(i as int).push(b));
            lemma_hex_digits_push(src@.take(i as int), b);
        }
        if is_whitespace(b) {
            // Whitespace is transparent: the digits read so far are unchanged.
        } else {
            match to_hex_value(b) {
                Some(v) => {
                    proof {
                        lemma_pair_up_push(hex_digits(src@.take(i as int)), b);
                    }
                    match pending {
                        None => {
                            pending = Some(v);
                        },
                        Some(hv) => {
                            proof {
                                let d = hex_digits(src@.take(i as int));
                                assert((old(dst)@ + pair_up(d)).push(byte_of_pair(d.last(), b))
                                    =~= old(dst)@ + pair_up(d).push(byte_of_pair(d.last(), b)));
                            }
                            dst.push(hv * 16 + v);
                            pending = None;
                        },
                    }
                },
                None => {
                    if !ignore_garbage {
                        proof {
                            lemma_clean_len_at(src@, i as int);
                            assert(!garbage_free(src@)) by {
                                assert(is_garbage(src@[i as int]));
                            }
                        }
                        return Err(DecodeError::NotHex);
                    }
                    // Garbage is dropped: it never counts toward pairing.
                },
            }
        }
        i = i + 1;
    }
    proof {
        assert(src@.take(src@.len() as int) =~= src@);
        if !ignore_garbage {
            assert(garbage_free(src@));
            lemma_clean_len_at(src@, src@.len() as int);
            assert(src@.take(clean_len(src@)) == src@);
        }
    }
    match pending {
        Some(_) => Err(DecodeError::OddLength),
        None => Ok(()),
    }
}

/// The uppercase hex character of a nibble value.
fn to_hex_upper(v: u8) -> (r: u8)
    requires
        v < 16,
    ensures
        r == hex_upper_char(v),
{
    if v < 10 {
        v + 0x30
    } else {
        v - 10 + 0x41
    }
}

/// Encodes a byte stream as hex text: each byte of `src` becomes exactly
/// two uppercase hex characters appended to `dst`, high nibble first, with
/// no separators. An empty source appends nothing.
pub fn encode(src: &Vec<u8>, dst: &mut Vec<u8>)
    ensures
        final(dst)@ == old(dst)@ + hex_encoding(src@),
{
    let mut i: usize = 0;
    while i < src.len()
        invariant
            i <= src.len(),
            dst@ == old(dst)@ + hex_encoding(src@.take(i as int)),
        decreases src.len() - i,
    {
        let b = src[i];
        proof {
            assert(src@.take(i + 1 as int) =~= src@.take(i as int).push(b));
            lemma_hex_encoding_push(src@.take(i as int), b);
        }
        dst.push(to_hex_upper(b / 16));
        dst.push(to_hex_upper(b % 16));
        i = i + 1;
    }
    proof {
        assert(src@.take(src@.len() as int) =~= src@);
    }
}

/// Law: a decode always gives back what an encode produced, with success,
/// whatever the ignore-garbage setting: the encoder emits nothing but an
/// even run of hex digits.
pub proof fn lemma_round_trip(b: Seq<u8>, ignore_garbage: bool)
    ensures
        decoded_bytes(hex_encoding(b), ignore_garbage) == b,
        decode_result(hex_encoding(b), ignore_garbage) == Ok::<(), DecodeError>(()),
{
    let e = hex_encoding(b);
    lemma_encoding_decodes(b);
    if !ignore_garbage {
        lemma_clean_len_at(e, e.len() as int);
        assert(e.take(clean_len(e)) == e);
    }
}

/// Law: whitespace is transparent to decoding, whatever the
/// ignore-garbage setting: a stream and the same stream with its
/// whitespace removed yield the same bytes and the same result.
pub proof fn lemma_whitespace_transparent(s: Seq<u8>, ignore_garbage: bool)
    ensures
        decoded_bytes(without_whitespace(s), ignore_garbage) == decoded_bytes(s, ignore_garbage),
        decode_result(without_whitespace(s), ignore_garbage) == decode_result(s, ignore_garbage),
{
    lemma_digits_without_whitespace(s);
    if !ignore_garbage {
        lemma_clean_digits_without_whitespace(s);
    }
}

/// Law: decoding carries no state from one call to the next; the bytes
/// written are a function of the input stream and the flag alone, so
/// decoding the same input twice yields identical output.
pub proof fn lemma_decode_deterministic(
    s: Seq<u8>,
    ignore_garbage: bool,
    first: Seq<u8>,
    second: Seq<u8>,
)
    requires
        first == decoded_bytes(s, ignore_garbage),
        second == decoded_bytes(s, ignore_garbage),
    ensures
        first == second,
{
}

} // verus!
