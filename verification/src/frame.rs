use vstd::prelude::*;

use crate::checksum::{checksum, crc16};
use crate::errors::LensError;
use crate::wire::{u16_from_le, u16_lo, u16_hi, u16_of_bytes, u16_to_le, lemma_u16_bytes_roundtrip};

verus! {

/// The frame transmitted for a payload: the payload followed by its CRC-16 in
/// little-endian order. The checksum covers the payload bytes alone.
pub open spec fn frame_for(payload: Seq<u8>) -> Seq<u8> {
    payload + seq![u16_lo(crc16(payload)), u16_hi(crc16(payload))]
}

/// The response terminator bytes, `\r\n`.
pub open spec fn terminator() -> Seq<u8> {
    seq![13u8, 10u8]
}

/// What decoding a raw response yields, given the expected payload length and
/// whether the framing variant in use demands the fixed two-byte terminator
/// after the checksum.
///
/// The response is rejected as too short before anything else; an exchange
/// whose checksum disagrees is never accepted; the terminator is checked only
/// for framing variants that require one.
pub open spec fn decode_spec(raw: Seq<u8>, n: nat, require_terminator: bool) -> Result<
    Seq<u8>,
    LensError,
> {
    let needed: nat = n + if require_terminator {
        4nat
    } else {
        2nat
    };
    if raw.len() < needed {
        Err(LensError::ShortResponse)
    } else {
        let data = raw.subrange(0, n as int);
        if u16_of_bytes(raw[n as int], raw[n + 1 as int]) != crc16(data) {
            Err(LensError::CrcError)
        } else if require_terminator && (raw[n + 2 as int] != 13 || raw[n + 3 as int] != 10) {
            Err(LensError::UnexpectedResponse)
        } else {
            Ok(data)
        }
    }
}

/// Builds the outgoing frame for `payload`: the payload bytes followed by
/// their CRC-16, little-endian.
pub fn encode(payload: &[u8]) -> (r: Vec<u8>)
    ensures
        r@ == frame_for(payload@),
{
    let mut out: Vec<u8> = Vec::new();
    let mut i: usize = 0;
    while i < payload.len()
        invariant
            0 <= i <= payload@.len(),
            out@ == payload@.subrange(0, i as int),
        decreases payload@.len() - i,
    {
        out.push(payload[i]);
        proof {
            assert(out@ =~= payload@.subrange(0, i + 1 as int));
        }
        i = i + 1;
    }
    proof {
        assert(out@ =~= payload@);
    }
    let crc = checksum(payload);
    let (lo, hi) = u16_to_le(crc);
    out.push(lo);
    out.push(hi);
    proof {
        assert(out@ =~= frame_for(payload@));
    }
    out
}

/// Parses and validates a raw response: the first `n` bytes are the payload,
/// the next two its little-endian CRC-16, and, when `require_terminator` is
/// set, the two after that must be `\r\n`. Returns the payload exactly when
/// `decode_spec` accepts the response.
pub fn decode(raw: &[u8], n: usize, require_terminator: bool) -> (r: Result<Vec<u8>, LensError>)
    ensures
        match r {
            Ok(v) => decode_spec(raw@, n as nat, require_terminator) == Ok::<Seq<u8>, LensError>(
                v@,
            ),
            Err(e) => decode_spec(raw@, n as nat, require_terminator) == Err::<Seq<u8>, LensError>(
                e,
            ),
        },
{
    let tail: usize = if require_terminator {
        4
    } else {
        2
    };
    if raw.len() < n || raw.len() - n < tail {
        return Err(LensError::ShortResponse);
    }
    let mut data: Vec<u8> = Vec::new();
    let mut i: usize = 0;
    while i < n
        invariant
            0 <= i <= n,
            n <= raw@.len(),
            data@ == raw@.subrange(0, i as int),
        decreases n - i,
    {
        data.push(raw[i]);
        proof {
            assert(data@ =~= raw@.subrange(0, i + 1 as int));
        }
        i = i + 1;
    }
    let received = u16_from_le(raw[n], raw[n + 1]);
    let computed = checksum(data.as_slice());
    if received != computed {
        return Err(LensError::CrcError);
    }
    if require_terminator && (raw[n + 2] != 13 || raw[n + 3] != 10) {
        return Err(LensError::UnexpectedResponse);
    }
    Ok(data)
}

/// Validates a read-until-timeout reply: whatever arrived must hold at least
/// the four trailing checksum-and-sentinel bytes (anything shorter is a
/// `ShortResponse`); the payload is everything before them, accepted exactly
/// when its checksum matches.
pub fn decode_variable(raw: &[u8]) -> (r: Result<Vec<u8>, LensError>)
    ensures
        raw@.len() < 4 ==> r == Err::<Vec<u8>, LensError>(LensError::ShortResponse),
        raw@.len() >= 4 ==> match r {
            Ok(v) => decode_spec(raw@, (raw@.len() - 4) as nat, false) == Ok::<Seq<u8>, LensError>(
                v@,
            ),
            Err(e) => decode_spec(raw@, (raw@.len() - 4) as nat, false) == Err::<
                Seq<u8>,
                LensError,
            >(e),
        },
{
    if raw.len() < 4 {
        return Err(LensError::ShortResponse);
    }
    decode(raw, raw.len() - 4, false)
}

/// Round-trip law of the frame codec: a frame built for a payload decodes back
/// to that payload when the matching expected length is supplied — bare for
/// the terminator-free variant, and with the fixed terminator appended for
/// the terminated variant.
pub proof fn lemma_decode_encode(payload: Seq<u8>)
    ensures
        decode_spec(frame_for(payload), payload.len(), false) == Ok::<Seq<u8>, LensError>(payload),
        decode_spec(frame_for(payload) + terminator(), payload.len(), true) == Ok::<
            Seq<u8>,
            LensError,
        >(payload),
{
    let n = payload.len();
    let bare = frame_for(payload);
    let terminated = frame_for(payload) + terminator();
    lemma_u16_bytes_roundtrip(crc16(payload));
    assert(bare.subrange(0, n as int) =~= payload);
    assert(terminated.subrange(0, n as int) =~= payload);
}

} // verus!
