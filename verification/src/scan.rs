//! The canonical CBOR profile of the `.mnir` payload, checked before any
//! schema is read: shortest heads, definite lengths, UTF-8 text, the only
//! simple values `false` and `true`, and the resource limits on item size,
//! collection count, and nesting depth.
use vstd::prelude::*;
use vstd::slice::slice_subrange;
use vstd::utf8::valid_utf8;

use crate::cbor::is_utf8;
use crate::format::{DecodeError, MAX_COLLECTION_COUNT, MAX_DEPTH, MAX_ITEM_SIZE};
use crate::ids::be_value_of;

verus! {

/// The argument of a head whose additional information is `info`, read at
/// `pos`, with the position after it. An argument that a shorter head could
/// carry is not canonical; a truncated one is malformed.
pub open spec fn scanned_argument(b: Seq<u8>, pos: int, info: u8) -> Result<(u64, int), DecodeError> {
    if info < 24 {
        Ok((info as u64, pos))
    } else if info <= 27 {
        let width: int = if info == 24 {
            1
        } else if info == 25 {
            2
        } else if info == 26 {
            4
        } else {
            8
        };
        let smallest: int = if info == 24 {
            24
        } else if info == 25 {
            0x100
        } else if info == 26 {
            0x1_0000
        } else {
            0x1_0000_0000
        };
        if pos + width > b.len() {
            Err(DecodeError::MalformedEncoding)
        } else {
            let value = be_value_of(b.subrange(pos, pos + width));
            if value < smallest {
                Err(DecodeError::NonCanonicalEncoding)
            } else {
                Ok((value as u64, pos + width))
            }
        }
    } else {
        Err(DecodeError::NonCanonicalEncoding)
    }
}

/// How deep a scan may still nest below `depth`.
pub open spec fn depth_room(depth: int) -> int {
    if depth <= MAX_DEPTH + 1 {
        MAX_DEPTH + 2 - depth
    } else {
        0
    }
}

/// Scanning one data item at `pos`, nested at `depth`: the position after
/// it, or the first violation of the canonical profile.
pub open spec fn scanned_item(b: Seq<u8>, pos: int, depth: int) -> Result<int, DecodeError>
    decreases depth_room(depth), 0int,
{
    if depth > MAX_DEPTH {
        Err(DecodeError::ResourceLimitExceeded)
    } else if !(0 <= pos < b.len()) {
        Err(DecodeError::MalformedEncoding)
    } else {
        let major = b[pos] / 32;
        let info = (b[pos] % 32) as u8;
        if major <= 1 {
            match scanned_argument(b, pos + 1, info) {
                Ok((_, q)) => Ok(q),
                Err(e) => Err(e),
            }
        } else if major <= 3 {
            match scanned_argument(b, pos + 1, info) {
                Ok((len, q)) => if len > MAX_ITEM_SIZE {
                    Err(DecodeError::ResourceLimitExceeded)
                } else if q + len > b.len() {
                    Err(DecodeError::MalformedEncoding)
                } else if major == 3 && !valid_utf8(b.subrange(q, q + len)) {
                    Err(DecodeError::MalformedEncoding)
                } else {
                    Ok(q + len)
                },
                Err(e) => Err(e),
            }
        } else if major == 4 {
            match scanned_argument(b, pos + 1, info) {
                Ok((count, q)) => if count > MAX_COLLECTION_COUNT {
                    Err(DecodeError::ResourceLimitExceeded)
                } else {
                    scanned_items(b, q, depth + 1, count as int)
                },
                Err(e) => Err(e),
            }
        } else if major == 7 && (info == 20 || info == 21) {
            Ok(pos + 1)
        } else {
            Err(DecodeError::NonCanonicalEncoding)
        }
    }
}

/// Scanning `count` consecutive data items at `pos`, each nested at
/// `depth`.
pub open spec fn scanned_items(b: Seq<u8>, pos: int, depth: int, count: int) -> Result<int, DecodeError>
    decreases depth_room(depth), count + 1,
{
    if count <= 0 {
        Ok(pos)
    } else {
        match scanned_item(b, pos, depth) {
            Ok(q) => scanned_items(b, q, depth, count - 1),
            Err(e) => Err(e),
        }
    }
}

/// The canonical profile of a payload: exactly one top-level data item at
/// depth one, and nothing after it.
pub open spec fn canonical_check(b: Seq<u8>) -> Result<(), DecodeError> {
    match scanned_item(b, 0, 1) {
        Ok(end) => if end == b.len() {
            Ok(())
        } else {
            Err(DecodeError::MalformedEncoding)
        },
        Err(e) => Err(e),
    }
}

/// The limit on a Text or Bytes item: accepted up to [`MAX_ITEM_SIZE`]
/// bytes inclusive.
pub fn validate_item_length(len: u64) -> (r: Result<(), DecodeError>)
    ensures
        r == (if len > MAX_ITEM_SIZE {
            Err(DecodeError::ResourceLimitExceeded)
        } else {
            Ok(())
        }),
{
    if len > MAX_ITEM_SIZE {
        Err(DecodeError::ResourceLimitExceeded)
    } else {
        Ok(())
    }
}

/// The limit on the elements of a collection: accepted up to
/// [`MAX_COLLECTION_COUNT`] inclusive.
pub fn validate_collection_count(count: u64) -> (r: Result<(), DecodeError>)
    ensures
        r == (if count > MAX_COLLECTION_COUNT {
            Err(DecodeError::ResourceLimitExceeded)
        } else {
            Ok(())
        }),
{
    if count > MAX_COLLECTION_COUNT {
        Err(DecodeError::ResourceLimitExceeded)
    } else {
        Ok(())
    }
}

fn read_be(bytes: &[u8], pos: usize, width: usize) -> (value: u64)
    requires
        width <= 8,
        pos + width <= bytes@.len(),
    ensures
        value == be_value_of(bytes@.subrange(pos as int, pos + width)),
{
    let n = bytes.len();
    let mut value: u64 = 0;
    let mut i: usize = 0;
    while i < width
        invariant
            n == bytes@.len(),
            i <= width,
            width <= 8,
            pos + width <= bytes@.len(),
            value == be_value_of(bytes@.subrange(pos as int, pos + i)),
            value < crate::ids::pow256(i as nat),
        decreases width - i,
    {
        let byte = bytes[pos + i];
        proof {
            assert(bytes@.subrange(pos as int, pos + i + 1).drop_last() =~= bytes@.subrange(pos as int, pos + i));
            assert(crate::ids::pow256((i + 1) as nat) == 256 * crate::ids::pow256(i as nat));
            assert(crate::ids::pow256(8) == 0x1_0000_0000_0000_0000) by {
                reveal_with_fuel(crate::ids::pow256, 9);
            }
            crate::ids::lemma_pow256_monotone((i + 1) as nat, 8);
            assert(value * 256 + byte < crate::ids::pow256((i + 1) as nat)) by (nonlinear_arith)
                requires
                    value < crate::ids::pow256(i as nat),
                    byte < 256,
                    crate::ids::pow256((i + 1) as nat) == crate::ids::pow256(i as nat) * 256,
            ;
            assert(value * 256 + byte < 0x1_0000_0000_0000_0000);
        }
        value = value * 256 + byte as u64;
        i = i + 1;
    }
    value
}

fn scan_argument(bytes: &[u8], pos: usize, info: u8) -> (r: Result<(u64, usize), DecodeError>)
    requires
        pos <= bytes@.len(),
    ensures
        match scanned_argument(bytes@, pos as int, info) {
            Ok((v, q)) => r is Ok && r.unwrap().0 == v && r.unwrap().1 as int == q,
            Err(e) => r == Err::<(u64, usize), DecodeError>(e),
        },
{
    if info < 24 {
        return Ok((info as u64, pos));
    }
    if info > 27 {
        return Err(DecodeError::NonCanonicalEncoding);
    }
    let width: usize = if info == 24 {
        1
    } else if info == 25 {
        2
    } else if info == 26 {
        4
    } else {
        8
    };
    let smallest: u64 = if info == 24 {
        24
    } else if info == 25 {
        0x100
    } else if info == 26 {
        0x1_0000
    } else {
        0x1_0000_0000
    };
    if width > bytes.len() - pos {
        return Err(DecodeError::MalformedEncoding);
    }
    let value = read_be(bytes, pos, width);
    if value < smallest {
        return Err(DecodeError::NonCanonicalEncoding);
    }
    Ok((value, pos + width))
}

/// Scans one data item at `pos`, nested at `depth`: [`scanned_item`].
fn scan_item(bytes: &[u8], pos: usize, depth: u8) -> (r: Result<usize, DecodeError>)
    requires
        pos <= bytes@.len(),
        depth <= MAX_DEPTH + 1,
    ensures
        match scanned_item(bytes@, pos as int, depth as int) {
            Ok(q) => r is Ok && r.unwrap() as int == q && q <= bytes@.len(),
            Err(e) => r == Err::<usize, DecodeError>(e),
        },
    decreases MAX_DEPTH + 1 - depth,
{
    if depth > MAX_DEPTH {
        return Err(DecodeError::ResourceLimitExceeded);
    }
    if pos >= bytes.len() {
        return Err(DecodeError::MalformedEncoding);
    }
    let initial = bytes[pos];
    let major = initial / 32;
    let info = initial % 32;
    if major <= 1 {
        match scan_argument(bytes, pos + 1, info) {
            Ok((_, q)) => Ok(q),
            Err(e) => Err(e),
        }
    } else if major <= 3 {
        match scan_argument(bytes, pos + 1, info) {
            Ok((len, q)) => {
                if let Err(e) = validate_item_length(len) {
                    return Err(e);
                }
                if len > (bytes.len() - q) as u64 {
                    return Err(DecodeError::MalformedEncoding);
                }
                let end = q + len as usize;
                if major == 3 && !is_utf8(slice_subrange(bytes, q, end)) {
                    return Err(DecodeError::MalformedEncoding);
                }
                Ok(end)
            },
            Err(e) => Err(e),
        }
    } else if major == 4 {
        match scan_argument(bytes, pos + 1, info) {
            Ok((count, q)) => {
                if let Err(e) = validate_collection_count(count) {
                    return Err(e);
                }
                let mut cursor = q;
                let mut left = count;
                assert(scanned_item(bytes@, pos as int, depth as int) == scanned_items(bytes@, q as int, depth + 1, count as int));
                while left > 0
                    invariant
                        cursor <= bytes@.len(),
                        scanned_item(bytes@, pos as int, depth as int) == scanned_items(bytes@, q as int, depth + 1, count as int),
                        depth + 1 <= MAX_DEPTH + 1,
                        left <= count,
                        scanned_items(bytes@, q as int, depth + 1, count as int) == scanned_items(
                            bytes@,
                            cursor as int,
                            depth + 1,
                            left as int,
                        ),
                    decreases left,
                {
                    match scan_item(bytes, cursor, depth + 1) {
                        Ok(next) => {
                            cursor = next;
                        },
                        Err(e) => {
                            return Err(e);
                        },
                    }
                    left = left - 1;
                }
                Ok(cursor)
            },
            Err(e) => Err(e),
        }
    } else if major == 7 && (info == 20 || info == 21) {
        Ok(pos + 1)
    } else {
        Err(DecodeError::NonCanonicalEncoding)
    }
}

/// Checks the canonical CBOR profile of a payload: [`canonical_check`].
pub fn validate_canonical_cbor(bytes: &[u8]) -> (r: Result<(), DecodeError>)
    ensures
        r == canonical_check(bytes@),
{
    match scan_item(bytes, 0, 1) {
        Ok(end) => if end == bytes.len() {
            Ok(())
        } else {
            Err(DecodeError::MalformedEncoding)
        },
        Err(e) => Err(e),
    }
}

} // verus!
