//! The CBOR data items that the `.mnir` wire format is built from: their
//! canonical byte forms, how a reader takes one item from a position of a
//! byte string, and the writer and reader of the `minicbor` crate that do
//! the work.
use vstd::prelude::*;
use vstd::string::StringSliceAdditionalSpecFns;
use vstd::utf8::valid_utf8;

use minicbor::{Decoder, Encoder};

use crate::ids::be_value_of;

verus! {

/// The big-endian bytes of the low `n` bytes of `value`.
pub open spec fn be_bytes(value: u64, n: nat) -> Seq<u8>
    decreases n,
{
    if n == 0 {
        Seq::empty()
    } else {
        be_bytes((value / 256) as u64, (n - 1) as nat).push((value % 256) as u8)
    }
}

/// The shortest CBOR head of major type `major` with argument `arg`:
/// the initial byte, then the argument in one, two, four or eight
/// big-endian bytes where it does not fit the initial byte.
pub open spec fn head(major: u8, arg: u64) -> Seq<u8> {
    let m: int = major * 32;
    if arg < 24 {
        seq![(m + arg) as u8]
    } else if arg < 0x100 {
        seq![(m + 24) as u8] + be_bytes(arg, 1)
    } else if arg < 0x1_0000 {
        seq![(m + 25) as u8] + be_bytes(arg, 2)
    } else if arg < 0x1_0000_0000 {
        seq![(m + 26) as u8] + be_bytes(arg, 4)
    } else {
        seq![(m + 27) as u8] + be_bytes(arg, 8)
    }
}

/// The CBOR encoding of a signed integer: major type 0 for values from
/// zero up, major type 1 with argument `-1 - value` below zero.
pub open spec fn signed_item(value: int) -> Seq<u8> {
    if value >= 0 {
        head(0, value as u64)
    } else {
        head(1, (-1 - value) as u64)
    }
}

/// The CBOR encoding of a boolean: the simple values `0xf5` and `0xf4`.
pub open spec fn bool_item(value: bool) -> Seq<u8> {
    seq![if value { 0xf5u8 } else { 0xf4u8 }]
}

/// A definite-length byte string item.
pub open spec fn bytes_item(content: Seq<u8>) -> Seq<u8> {
    head(2, content.len() as u64) + content
}

/// A definite-length text string item, by its UTF-8 bytes.
pub open spec fn text_item(utf8: Seq<u8>) -> Seq<u8> {
    head(3, utf8.len() as u64) + utf8
}

/// The argument that follows an initial byte whose additional information
/// is `info`, read from position `pos`, with the position after it. Widths
/// of one, two, four and eight bytes are all read, whether or not they are
/// the shortest; additional information from 28 up carries no argument.
pub open spec fn argument_at(b: Seq<u8>, pos: int, info: u8) -> Option<(u64, int)> {
    if info < 24 {
        Some((info as u64, pos))
    } else if info <= 27 {
        let width: int = if info == 24 {
            1
        } else if info == 25 {
            2
        } else if info == 26 {
            4
        } else {
            8
        };
        if 0 <= pos && pos + width <= b.len() {
            Some((be_value_of(b.subrange(pos, pos + width)) as u64, pos + width))
        } else {
            None
        }
    } else {
        None
    }
}

/// An unsigned integer item at `pos`: its value and the position after it.
pub open spec fn unsigned_at(b: Seq<u8>, pos: int) -> Option<(u64, int)> {
    if 0 <= pos < b.len() && b[pos] <= 0x1b {
        argument_at(b, pos + 1, b[pos])
    } else {
        None
    }
}

/// A signed integer item at `pos` whose value fits an `i64`.
pub open spec fn signed_at(b: Seq<u8>, pos: int) -> Option<(i64, int)> {
    if 0 <= pos < b.len() && b[pos] <= 0x1b {
        match argument_at(b, pos + 1, b[pos]) {
            Some((v, q)) => if v <= i64::MAX {
                Some((v as i64, q))
            } else {
                None
            },
            None => None,
        }
    } else if 0 <= pos < b.len() && 0x20 <= b[pos] <= 0x3b {
        match argument_at(b, pos + 1, (b[pos] - 0x20) as u8) {
            Some((v, q)) => if v <= i64::MAX {
                Some(((-1 - v) as i64, q))
            } else {
                None
            },
            None => None,
        }
    } else {
        None
    }
}

/// A boolean item at `pos`.
pub open spec fn bool_at(b: Seq<u8>, pos: int) -> Option<(bool, int)> {
    if 0 <= pos < b.len() && b[pos] == 0xf5 {
        Some((true, pos + 1))
    } else if 0 <= pos < b.len() && b[pos] == 0xf4 {
        Some((false, pos + 1))
    } else {
        None
    }
}

/// The content of a definite-length string item of major type `major`
/// at `pos`, and the position after it.
pub open spec fn string_at(b: Seq<u8>, pos: int, major: u8) -> Option<(Seq<u8>, int)> {
    if 0 <= pos < b.len() && b[pos] / 32 == major && b[pos] % 32 != 31 {
        match argument_at(b, pos + 1, (b[pos] % 32) as u8) {
            Some((len, q)) => if len <= usize::MAX && q + len <= b.len() {
                Some((b.subrange(q, q + len), q + len))
            } else {
                None
            },
            None => None,
        }
    } else {
        None
    }
}

/// A byte string item at `pos`.
pub open spec fn bytes_at(b: Seq<u8>, pos: int) -> Option<(Seq<u8>, int)> {
    string_at(b, pos, 2)
}

/// A text string item at `pos` whose content is valid UTF-8.
pub open spec fn text_at(b: Seq<u8>, pos: int) -> Option<(Seq<u8>, int)> {
    match string_at(b, pos, 3) {
        Some((content, q)) => if valid_utf8(content) {
            Some((content, q))
        } else {
            None
        },
        None => None,
    }
}

/// An array head at `pos`: its declared length (`None` for an indefinite
/// array) and the position after it.
pub open spec fn array_at(b: Seq<u8>, pos: int) -> Option<(Option<u64>, int)> {
    if 0 <= pos < b.len() && b[pos] / 32 == 4 {
        if b[pos] % 32 == 31 {
            Some((None, pos + 1))
        } else {
            match argument_at(b, pos + 1, (b[pos] % 32) as u8) {
                Some((n, q)) => Some((Some(n), q)),
                None => None,
            }
        }
    } else {
        None
    }
}

/// The result of a reader, with the position as a `usize`.
pub open spec fn at_usize<T>(r: Option<(T, int)>) -> Option<(T, usize)> {
    match r {
        Some((v, q)) => Some((v, q as usize)),
        None => None,
    }
}

/// Appends an array head with `len` elements: `Encoder::array` of
/// `minicbor`, which writes the shortest head of major type 4. Writing to a
/// `Vec` cannot fail.
#[verifier::external_body]
pub(crate) fn put_array(out: &mut Vec<u8>, len: u64)
    ensures
        final(out)@ == old(out)@ + head(4, len),
{
    let _ = Encoder::new(out).array(len);
}

/// Appends an unsigned integer: `Encoder::u64`, the shortest head of major
/// type 0.
#[verifier::external_body]
pub(crate) fn put_u64(out: &mut Vec<u8>, value: u64)
    ensures
        final(out)@ == old(out)@ + head(0, value),
{
    let _ = Encoder::new(out).u64(value);
}

/// Appends a small unsigned integer: `Encoder::u8`, one byte below 24 and
/// two bytes from 24 up.
#[verifier::external_body]
pub(crate) fn put_u8(out: &mut Vec<u8>, value: u8)
    ensures
        final(out)@ == old(out)@ + head(0, value as u64),
{
    let _ = Encoder::new(out).u8(value);
}

/// Appends a 32-bit signed integer: `Encoder::i32`.
#[verifier::external_body]
pub(crate) fn put_i32(out: &mut Vec<u8>, value: i32)
    ensures
        final(out)@ == old(out)@ + signed_item(value as int),
{
    let _ = Encoder::new(out).i32(value);
}

/// Appends a 64-bit signed integer: `Encoder::i64`.
#[verifier::external_body]
pub(crate) fn put_i64(out: &mut Vec<u8>, value: i64)
    ensures
        final(out)@ == old(out)@ + signed_item(value as int),
{
    let _ = Encoder::new(out).i64(value);
}

/// Appends a boolean: `Encoder::bool`.
#[verifier::external_body]
pub(crate) fn put_bool(out: &mut Vec<u8>, value: bool)
    ensures
        final(out)@ == old(out)@ + bool_item(value),
{
    let _ = Encoder::new(out).bool(value);
}

/// Appends a byte string: `Encoder::bytes`, a head of major type 2 with the
/// length, then the bytes.
#[verifier::external_body]
pub(crate) fn put_bytes(out: &mut Vec<u8>, content: &[u8])
    ensures
        final(out)@ == old(out)@ + bytes_item(content@),
{
    let _ = Encoder::new(out).bytes(content);
}

/// Appends a text string: `Encoder::str`, a head of major type 3 with the
/// length in bytes, then the UTF-8 bytes.
#[verifier::external_body]
pub(crate) fn put_str(out: &mut Vec<u8>, text: &str)
    ensures
        final(out)@ == old(out)@ + text_item(text.spec_bytes()),
{
    let _ = Encoder::new(out).str(text);
}

/// Reads an unsigned integer at `pos`: `Decoder::u64` of `minicbor`, which
/// accepts an initial byte up to `0x1b` and its argument in any width.
#[verifier::external_body]
pub(crate) fn take_u64(bytes: &[u8], pos: usize) -> (r: Option<(u64, usize)>)
    ensures
        r == at_usize(unsigned_at(bytes@, pos as int)),
{
    let mut decoder = Decoder::new(bytes);
    decoder.set_position(pos);
    match decoder.u64() {
        Ok(value) => Some((value, decoder.position())),
        Err(_) => None,
    }
}

/// Reads a signed integer at `pos`: `Decoder::i64`, which accepts major
/// types 0 and 1 where the value fits an `i64`.
#[verifier::external_body]
pub(crate) fn take_i64(bytes: &[u8], pos: usize) -> (r: Option<(i64, usize)>)
    ensures
        r == at_usize(signed_at(bytes@, pos as int)),
{
    let mut decoder = Decoder::new(bytes);
    decoder.set_position(pos);
    match decoder.i64() {
        Ok(value) => Some((value, decoder.position())),
        Err(_) => None,
    }
}

/// Reads a boolean at `pos`: `Decoder::bool`.
#[verifier::external_body]
pub(crate) fn take_bool(bytes: &[u8], pos: usize) -> (r: Option<(bool, usize)>)
    ensures
        r == at_usize(bool_at(bytes@, pos as int)),
{
    let mut decoder = Decoder::new(bytes);
    decoder.set_position(pos);
    match decoder.bool() {
        Ok(value) => Some((value, decoder.position())),
        Err(_) => None,
    }
}

/// Reads a definite-length byte string at `pos`: `Decoder::bytes`, which
/// borrows the content from the input.
#[verifier::external_body]
pub(crate) fn take_bytes<'a>(bytes: &'a [u8], pos: usize) -> (r: Option<(&'a [u8], usize)>)
    ensures
        match bytes_at(bytes@, pos as int) {
            Some((content, q)) => r is Some && r.unwrap().0@ == content && r.unwrap().1 == q,
            None => r is None,
        },
{
    let mut decoder = Decoder::new(bytes);
    decoder.set_position(pos);
    match decoder.bytes() {
        Ok(content) => Some((content, decoder.position())),
        Err(_) => None,
    }
}

/// Reads a definite-length text string at `pos`: `Decoder::str`, which
/// fails where the content is not UTF-8.
#[verifier::external_body]
pub(crate) fn take_str<'a>(bytes: &'a [u8], pos: usize) -> (r: Option<(&'a str, usize)>)
    ensures
        match text_at(bytes@, pos as int) {
            Some((content, q)) => r is Some && r.unwrap().0.spec_bytes() == content && r.unwrap().1 == q,
            None => r is None,
        },
{
    let mut decoder = Decoder::new(bytes);
    decoder.set_position(pos);
    match decoder.str() {
        Ok(text) => Some((text, decoder.position())),
        Err(_) => None,
    }
}

/// Reads an array head at `pos`: `Decoder::array`, whose length is `None`
/// for an indefinite array.
#[verifier::external_body]
pub(crate) fn take_array(bytes: &[u8], pos: usize) -> (r: Option<(Option<u64>, usize)>)
    ensures
        r == at_usize(array_at(bytes@, pos as int)),
{
    let mut decoder = Decoder::new(bytes);
    decoder.set_position(pos);
    match decoder.array() {
        Ok(len) => Some((len, decoder.position())),
        Err(_) => None,
    }
}

/// Whether `bytes` are valid UTF-8: `std::str::from_utf8` succeeds exactly
/// on such input.
#[verifier::external_body]
pub(crate) fn is_utf8(bytes: &[u8]) -> (r: bool)
    ensures
        r == valid_utf8(bytes@),
{
    std::str::from_utf8(bytes).is_ok()
}

} // verus!
