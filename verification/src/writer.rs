//! The payload writer: the pieces that describe what it writes, and the
//! emitters that append each CBOR item to the payload within its limit.
use vstd::prelude::*;
use vstd::string::StringSliceAdditionalSpecFns;

use crate::cbor::{
    bool_item, bytes_item, head, put_array, put_bool, put_bytes, put_i32, put_i64, put_str,
    put_u64, put_u8, signed_item, text_item,
};
use crate::format::{EncodeError, MAX_COLLECTION_COUNT, MAX_ITEM_SIZE, PAYLOAD_LIMIT};

verus! {

/// One step of the writer: bytes it appends, or a check that fails.
pub enum Piece {
    Bytes(Seq<u8>),
    Fail(EncodeError),
}

/// What writing `pieces` after `used` bytes of payload gives: the bytes
/// appended, or the first failure. A write that would take the payload
/// past [`PAYLOAD_LIMIT`] fails with `ResourceLimitExceeded`.
pub open spec fn outcome(pieces: Seq<Piece>, used: int) -> Result<Seq<u8>, EncodeError>
    decreases pieces.len(),
{
    if pieces.len() == 0 {
        Ok(Seq::empty())
    } else {
        match pieces[0] {
            Piece::Bytes(b) => if used + b.len() > PAYLOAD_LIMIT {
                Err(EncodeError::ResourceLimitExceeded)
            } else {
                match outcome(pieces.drop_first(), used + b.len()) {
                    Ok(rest) => Ok(b + rest),
                    Err(e) => Err(e),
                }
            },
            Piece::Fail(e) => Err(e),
        }
    }
}

/// Writing `pieces` took the output from `before` to `after` with result
/// `r`.
#[verifier::opaque]
pub open spec fn wrote(before: Seq<u8>, after: Seq<u8>, r: Result<(), EncodeError>, pieces: Seq<Piece>) -> bool {
    match outcome(pieces, before.len() as int) {
        Ok(b) => r is Ok && after =~= before + b && after.len() <= PAYLOAD_LIMIT,
        Err(e) => r == Err::<(), EncodeError>(e),
    }
}

/// Writing two piece sequences one after the other.
pub broadcast proof fn lemma_outcome_concat(p: Seq<Piece>, q: Seq<Piece>, used: int)
    ensures
        #[trigger] outcome(p + q, used) == match outcome(p, used) {
            Ok(a) => match outcome(q, used + a.len()) {
                Ok(b) => Ok(a + b),
                Err(e) => Err(e),
            },
            Err(e) => Err(e),
        },
    decreases p.len(),
{
    if p.len() == 0 {
        assert(p + q =~= q);
        match outcome(q, used) {
            Ok(b) => assert(Seq::<u8>::empty() + b =~= b),
            Err(_) => {},
        }
    } else {
        assert((p + q).drop_first() =~= p.drop_first() + q);
        assert((p + q)[0] == p[0]);
        match p[0] {
            Piece::Bytes(b) => {
                lemma_outcome_concat(p.drop_first(), q, used + b.len());
                match outcome(p.drop_first(), used + b.len()) {
                    Ok(a) => match outcome(q, used + b.len() + a.len()) {
                        Ok(c) => assert(b + (a + c) =~= (b + a) + c),
                        Err(_) => {},
                    },
                    Err(_) => {},
                }
            },
            Piece::Fail(_) => {},
        }
    }
}

/// Writing a single run of bytes.
pub broadcast proof fn lemma_outcome_bytes(b: Seq<u8>, used: int)
    ensures
        #[trigger] outcome(seq![Piece::Bytes(b)], used) == if used + b.len() > PAYLOAD_LIMIT {
            Err::<Seq<u8>, EncodeError>(EncodeError::ResourceLimitExceeded)
        } else {
            Ok(b)
        },
{
    reveal_with_fuel(outcome, 2);
    assert(seq![Piece::Bytes(b)].drop_first() =~= Seq::<Piece>::empty());
    assert(b + Seq::<u8>::empty() =~= b);
}

/// A collection: the head with its element count, then each element.
pub open spec fn pieces_list(len: int, parts: Seq<Seq<Piece>>) -> Seq<Piece> {
    pieces_count(len) + parts.flatten()
}

/// The head of a collection is written: no element yet.
pub(crate) proof fn lemma_list_start(o0: Seq<u8>, o1: Seq<u8>, r: Result<(), EncodeError>, c: Seq<Piece>, parts: Seq<Seq<Piece>>)
    requires
        wrote(o0, o1, r, c),
        r is Ok,
    ensures
        wrote(o0, o1, Ok(()), c + parts.take(0).flatten()),
{
    broadcast use lemma_outcome_concat;

    reveal(wrote);
    assert(parts.take(0) =~= Seq::<Seq<Piece>>::empty());
    assert(c + parts.take(0).flatten() =~= c);
}

/// One more element of a collection: what the writer has done after the
/// head and the first `i` parts continues with part `i`; a failure in it
/// fails the whole collection.
pub(crate) proof fn lemma_list_step(
    o0: Seq<u8>,
    o1: Seq<u8>,
    o2: Seq<u8>,
    r: Result<(), EncodeError>,
    c: Seq<Piece>,
    parts: Seq<Seq<Piece>>,
    i: int,
)
    requires
        0 <= i < parts.len(),
        wrote(o0, o1, Ok(()), c + parts.take(i).flatten()),
        wrote(o1, o2, r, parts[i]),
    ensures
        r is Ok ==> wrote(o0, o2, Ok(()), c + parts.take(i + 1).flatten()),
        r is Err ==> wrote(o0, o2, r, c + parts.flatten()),
{
    broadcast use lemma_outcome_concat;

    reveal(wrote);
    crate::inventory::lemma_flatten_take_step(parts, i);
    assert(parts =~= parts.take(i + 1) + parts.skip(i + 1));
    vstd::seq_lib::lemma_flatten_concat(parts.take(i + 1), parts.skip(i + 1));
    let a = c + parts.take(i).flatten();
    assert(c + parts.take(i + 1).flatten() =~= a + parts[i]);
    assert(c + parts.flatten() =~= (a + parts[i]) + parts.skip(i + 1).flatten());
    match outcome(a, o0.len() as int) {
        Ok(x) => {
            assert(o1.len() == o0.len() + x.len());
            match outcome(parts[i], o1.len() as int) {
                Ok(y) => {
                    assert(o0 + (x + y) =~= (o0 + x) + y);
                },
                Err(_) => {},
            }
        },
        Err(_) => {},
    }
}

/// The writer has written every element of a collection.
pub(crate) proof fn lemma_list_end(o0: Seq<u8>, o1: Seq<u8>, c: Seq<Piece>, parts: Seq<Seq<Piece>>)
    requires
        wrote(o0, o1, Ok(()), c + parts.take(parts.len() as int).flatten()),
    ensures
        wrote(o0, o1, Ok(()), c + parts.flatten()),
{
    assert(parts.take(parts.len() as int) =~= parts);
}

/// Writing one piece sequence, then another.
pub broadcast proof fn lemma_wrote_then(
    o0: Seq<u8>,
    o1: Seq<u8>,
    o2: Seq<u8>,
    r1: Result<(), EncodeError>,
    r: Result<(), EncodeError>,
    p: Seq<Piece>,
    q: Seq<Piece>,
)
    requires
        #[trigger] wrote(o0, o1, r1, p),
        r1 is Ok,
        #[trigger] wrote(o1, o2, r, q),
    ensures
        wrote(o0, o2, r, p + q),
{
    broadcast use lemma_outcome_concat;

    reveal(wrote);
    match outcome(p, o0.len() as int) {
        Ok(x) => {
            assert(o1.len() == o0.len() + x.len());
            match outcome(q, o1.len() as int) {
                Ok(y) => {
                    assert(o0 + (x + y) =~= (o0 + x) + y);
                },
                Err(_) => {},
            }
        },
        Err(_) => {},
    }
}

/// A failure while writing a piece sequence fails whatever follows it.
pub broadcast proof fn lemma_wrote_stop(o0: Seq<u8>, o1: Seq<u8>, r: Result<(), EncodeError>, p: Seq<Piece>, q: Seq<Piece>)
    requires
        wrote(o0, o1, r, p),
        r is Err,
    ensures
        #[trigger] wrote(o0, o1, r, p + q),
{
    broadcast use lemma_outcome_concat;

    reveal(wrote);
}

/// A successful write leaves the payload within its limit.
pub broadcast proof fn lemma_wrote_within_limit(o0: Seq<u8>, o1: Seq<u8>, r: Result<(), EncodeError>, p: Seq<Piece>)
    requires
        #[trigger] wrote(o0, o1, r, p),
        r is Ok,
    ensures
        o1.len() <= PAYLOAD_LIMIT,
{
    reveal(wrote);
}

/// A check that fails, writing nothing.
pub broadcast proof fn lemma_wrote_fail(o0: Seq<u8>, o1: Seq<u8>, e: EncodeError)
    requires
        o0 == o1,
    ensures
        #[trigger] wrote(o0, o1, Err(e), seq![Piece::Fail(e)]),
{
    reveal(wrote);
}

/// An array head.
pub open spec fn pieces_array(len: u64) -> Seq<Piece> {
    seq![Piece::Bytes(head(4, len))]
}

/// An unsigned integer.
pub open spec fn pieces_u64(value: u64) -> Seq<Piece> {
    seq![Piece::Bytes(head(0, value))]
}

/// A signed integer.
pub open spec fn pieces_signed(value: int) -> Seq<Piece> {
    seq![Piece::Bytes(signed_item(value))]
}

/// A boolean.
pub open spec fn pieces_bool(value: bool) -> Seq<Piece> {
    seq![Piece::Bytes(bool_item(value))]
}

/// A byte string.
pub open spec fn pieces_bytes(content: Seq<u8>) -> Seq<Piece> {
    seq![Piece::Bytes(bytes_item(content))]
}

/// A text string, by its UTF-8 bytes.
pub open spec fn pieces_text(utf8: Seq<u8>) -> Seq<Piece> {
    seq![Piece::Bytes(text_item(utf8))]
}

/// The check that a Text or Bytes item of `len` bytes is within the limit.
pub open spec fn pieces_item_check(len: int) -> Seq<Piece> {
    if len > MAX_ITEM_SIZE {
        seq![Piece::Fail(EncodeError::ResourceLimitExceeded)]
    } else {
        Seq::empty()
    }
}

/// The head of a collection of `len` elements, within the limit.
pub open spec fn pieces_count(len: int) -> Seq<Piece> {
    if len > MAX_COLLECTION_COUNT {
        seq![Piece::Fail(EncodeError::ResourceLimitExceeded)]
    } else {
        pieces_array(len as u64)
    }
}

// ---------------------------------------------------------------------
// The emitters.
// ---------------------------------------------------------------------

fn within_limit(out: &Vec<u8>) -> (r: Result<(), EncodeError>)
    ensures
        r == (if out.len() > PAYLOAD_LIMIT {
            Err::<(), EncodeError>(EncodeError::ResourceLimitExceeded)
        } else {
            Ok(())
        }),
{
    if out.len() > PAYLOAD_LIMIT {
        Err(EncodeError::ResourceLimitExceeded)
    } else {
        Ok(())
    }
}

pub(crate) fn emit_array(out: &mut Vec<u8>, len: u64) -> (r: Result<(), EncodeError>)
    requires
        old(out).len() <= PAYLOAD_LIMIT,
    ensures
        wrote(old(out)@, final(out)@, r, pieces_array(len)),
{
    broadcast use lemma_outcome_concat, lemma_outcome_bytes;

    reveal(wrote);

    put_array(out, len);
    within_limit(out)
}

pub(crate) fn emit_u64(out: &mut Vec<u8>, value: u64) -> (r: Result<(), EncodeError>)
    requires
        old(out).len() <= PAYLOAD_LIMIT,
    ensures
        wrote(old(out)@, final(out)@, r, pieces_u64(value)),
{
    broadcast use lemma_outcome_concat, lemma_outcome_bytes;

    reveal(wrote);

    put_u64(out, value);
    within_limit(out)
}

pub(crate) fn emit_u8(out: &mut Vec<u8>, value: u8) -> (r: Result<(), EncodeError>)
    requires
        old(out).len() <= PAYLOAD_LIMIT,
    ensures
        wrote(old(out)@, final(out)@, r, pieces_u64(value as u64)),
{
    broadcast use lemma_outcome_concat, lemma_outcome_bytes;

    reveal(wrote);

    put_u8(out, value);
    within_limit(out)
}

pub(crate) fn emit_i32(out: &mut Vec<u8>, value: i32) -> (r: Result<(), EncodeError>)
    requires
        old(out).len() <= PAYLOAD_LIMIT,
    ensures
        wrote(old(out)@, final(out)@, r, pieces_signed(value as int)),
{
    broadcast use lemma_outcome_concat, lemma_outcome_bytes;

    reveal(wrote);

    put_i32(out, value);
    within_limit(out)
}

pub(crate) fn emit_i64(out: &mut Vec<u8>, value: i64) -> (r: Result<(), EncodeError>)
    requires
        old(out).len() <= PAYLOAD_LIMIT,
    ensures
        wrote(old(out)@, final(out)@, r, pieces_signed(value as int)),
{
    broadcast use lemma_outcome_concat, lemma_outcome_bytes;

    reveal(wrote);

    put_i64(out, value);
    within_limit(out)
}

pub(crate) fn emit_bool(out: &mut Vec<u8>, value: bool) -> (r: Result<(), EncodeError>)
    requires
        old(out).len() <= PAYLOAD_LIMIT,
    ensures
        wrote(old(out)@, final(out)@, r, pieces_bool(value)),
{
    broadcast use lemma_outcome_concat, lemma_outcome_bytes;

    reveal(wrote);

    put_bool(out, value);
    within_limit(out)
}

pub(crate) fn emit_bytes(out: &mut Vec<u8>, content: &[u8]) -> (r: Result<(), EncodeError>)
    requires
        old(out).len() <= PAYLOAD_LIMIT,
        content@.len() <= MAX_ITEM_SIZE,
    ensures
        wrote(old(out)@, final(out)@, r, pieces_bytes(content@)),
{
    broadcast use lemma_outcome_concat, lemma_outcome_bytes;

    reveal(wrote);

    put_bytes(out, content);
    within_limit(out)
}

pub(crate) fn emit_text(out: &mut Vec<u8>, text: &str) -> (r: Result<(), EncodeError>)
    requires
        old(out).len() <= PAYLOAD_LIMIT,
        text.spec_bytes().len() <= MAX_ITEM_SIZE,
    ensures
        wrote(old(out)@, final(out)@, r, pieces_text(text.spec_bytes())),
{
    broadcast use lemma_outcome_concat, lemma_outcome_bytes;

    reveal(wrote);

    put_str(out, text);
    within_limit(out)
}

pub(crate) fn check_item_len(out: &Vec<u8>, len: usize) -> (r: Result<(), EncodeError>)
    requires
        out.len() <= PAYLOAD_LIMIT,
    ensures
        r is Ok ==> len <= MAX_ITEM_SIZE,
        wrote(out@, out@, r, pieces_item_check(len as int)),
{
    broadcast use lemma_outcome_concat, lemma_outcome_bytes;

    reveal(wrote);

    if len as u64 > MAX_ITEM_SIZE {
        Err(EncodeError::ResourceLimitExceeded)
    } else {
        assert(out@ + Seq::<u8>::empty() =~= out@);
        Ok(())
    }
}

pub(crate) fn encode_count(out: &mut Vec<u8>, len: usize) -> (r: Result<(), EncodeError>)
    requires
        old(out).len() <= PAYLOAD_LIMIT,
    ensures
        wrote(old(out)@, final(out)@, r, pieces_count(len as int)),
{
    broadcast use lemma_outcome_concat, lemma_outcome_bytes;

    reveal(wrote);

    if len as u64 > MAX_COLLECTION_COUNT {
        return Err(EncodeError::ResourceLimitExceeded);
    }
    emit_array(out, len as u64)
}

} // verus!
