//! The liveness probe of the link: a fixed header, the probe's sequence
//! number and the time since the connection was started.

use vstd::prelude::*;
use vstd::bytes::{
    lemma_auto_spec_u128_to_from_le_bytes, lemma_auto_spec_u32_to_from_le_bytes,
    spec_u128_from_le_bytes, spec_u128_to_le_bytes, spec_u32_from_le_bytes, spec_u32_to_le_bytes,
    u128_from_le_bytes, u128_to_le_bytes, u32_from_le_bytes, u32_to_le_bytes,
};
use vstd::slice::slice_subrange;

verus! {

/// Seconds between two probes.
pub const PING_INTERVAL_SEC: u64 = 10;

/// Length of the header that opens every probe.
pub const PING_HEADER_LENGTH: usize = 4;

/// Length of a probe after its header: four bytes of sequence number and
/// sixteen of elapsed time.
pub const PING_LENGTH: usize = 20;

/// The header that opens every probe: the letters `snop`.
pub open spec fn ping_header() -> Seq<u8> {
    seq![0x73u8, 0x6eu8, 0x6fu8, 0x70u8]
}

/// The bytes of the probe with this sequence number and elapsed time: the
/// header, then both numbers little-endian.
pub open spec fn ping_bytes(sequence: u32, elapsed_micros: u128) -> Seq<u8> {
    ping_header() + spec_u32_to_le_bytes(sequence) + spec_u128_to_le_bytes(elapsed_micros)
}

/// Whether `payload` opens with the probe header.
pub open spec fn has_ping_header(payload: Seq<u8>) -> bool {
    payload.len() >= PING_HEADER_LENGTH && payload.subrange(0, PING_HEADER_LENGTH as int)
        == ping_header()
}

/// Why an acknowledgement is discarded.
#[derive(Clone, Copy, Debug, PartialEq, Eq, Structural)]
pub enum PongError {
    /// It does not open with the probe header.
    BadHeader,
    /// What follows the header is not of the probe's length.
    BadLength,
    /// It answers another probe than the last one sent.
    BadSequence,
}

/// What becomes of an acknowledgement when the last probe sent had the
/// sequence number `expected`: the elapsed time it carries, or the first
/// fault found, looking at header, length and sequence number in this order.
pub open spec fn pong_verdict(payload: Seq<u8>, expected: u32) -> Result<u128, PongError> {
    if !has_ping_header(payload) {
        Err(PongError::BadHeader)
    } else if payload.len() != PING_HEADER_LENGTH + PING_LENGTH {
        Err(PongError::BadLength)
    } else if spec_u32_from_le_bytes(payload.subrange(4, 8)) != expected {
        Err(PongError::BadSequence)
    } else {
        Ok(spec_u128_from_le_bytes(payload.subrange(8, 24)))
    }
}

/// Builds the probe with this sequence number and elapsed time.
pub fn ping_payload(sequence: u32, elapsed_micros: u128) -> (payload: Vec<u8>)
    ensures
        payload@ == ping_bytes(sequence, elapsed_micros),
        payload@.len() == PING_HEADER_LENGTH + PING_LENGTH,
{
    let mut payload: Vec<u8> = Vec::new();
    payload.push(0x73u8);
    payload.push(0x6eu8);
    payload.push(0x6fu8);
    payload.push(0x70u8);
    assert(payload@ =~= ping_header());
    let number = u32_to_le_bytes(sequence);
    payload.extend_from_slice(number.as_slice());
    assert(payload@ =~= ping_header() + spec_u32_to_le_bytes(sequence));
    let elapsed = u128_to_le_bytes(elapsed_micros);
    payload.extend_from_slice(elapsed.as_slice());
    assert(payload@ =~= ping_bytes(sequence, elapsed_micros));
    payload
}

/// Checks an acknowledgement against the sequence number of the last probe
/// sent.
pub fn check_pong(payload: &[u8], expected: u32) -> (r: Result<u128, PongError>)
    ensures
        r == pong_verdict(payload@, expected),
{
    if payload.len() < PING_HEADER_LENGTH || payload[0] != 0x73u8 || payload[1] != 0x6eu8
        || payload[2] != 0x6fu8 || payload[3] != 0x70u8 {
        proof {
            if payload@.len() >= PING_HEADER_LENGTH {
                let head = payload@.subrange(0, PING_HEADER_LENGTH as int);
                assert(head[0] == payload@[0] && head[1] == payload@[1] && head[2] == payload@[2]
                    && head[3] == payload@[3]);
            }
        }
        return Err(PongError::BadHeader);
    }
    assert(payload@.subrange(0, PING_HEADER_LENGTH as int) =~= ping_header());
    if payload.len() - PING_HEADER_LENGTH != PING_LENGTH {
        return Err(PongError::BadLength);
    }
    let sequence = u32_from_le_bytes(slice_subrange(payload, 4, 8));
    if sequence != expected {
        return Err(PongError::BadSequence);
    }
    Ok(u128_from_le_bytes(slice_subrange(payload, 8, 24)))
}

/// The sequence number that follows `sequence`; after the last one the
/// count starts again at zero.
pub open spec fn spec_next_sequence(sequence: u32) -> u32 {
    if sequence == u32::MAX {
        0
    } else {
        (sequence + 1) as u32
    }
}

pub fn next_sequence(sequence: u32) -> (r: u32)
    ensures
        r == spec_next_sequence(sequence),
{
    if sequence == u32::MAX {
        0
    } else {
        sequence + 1
    }
}

/// A probe comes back accepted, with its elapsed time, when it is checked
/// against its own sequence number.
pub proof fn lemma_ping_accepted(sequence: u32, elapsed_micros: u128)
    ensures
        pong_verdict(ping_bytes(sequence, elapsed_micros), sequence) == Ok::<u128, PongError>(
            elapsed_micros,
        ),
{
    lemma_auto_spec_u32_to_from_le_bytes();
    lemma_auto_spec_u128_to_from_le_bytes();
    let p = ping_bytes(sequence, elapsed_micros);
    assert(spec_u32_to_le_bytes(sequence).len() == 4);
    assert(spec_u128_to_le_bytes(elapsed_micros).len() == 16);
    assert(p.subrange(0, 4) =~= ping_header());
    assert(p.subrange(4, 8) =~= spec_u32_to_le_bytes(sequence));
    assert(p.subrange(8, 24) =~= spec_u128_to_le_bytes(elapsed_micros));
}

/// The acknowledgements accepted for a sequence number are exactly the
/// probes with that number: a payload with another header, another length
/// or another number is discarded.
pub proof fn lemma_accepted_are_pings(payload: Seq<u8>, expected: u32)
    ensures
        pong_verdict(payload, expected).is_ok() <==> exists|elapsed: u128|
            payload == #[trigger] ping_bytes(expected, elapsed),
{
    lemma_auto_spec_u32_to_from_le_bytes();
    lemma_auto_spec_u128_to_from_le_bytes();
    if pong_verdict(payload, expected).is_ok() {
        let elapsed = spec_u128_from_le_bytes(payload.subrange(8, 24));
        assert(payload.subrange(4, 8).len() == 4);
        assert(payload.subrange(8, 24).len() == 16);
        assert(spec_u32_to_le_bytes(expected) == payload.subrange(4, 8));
        assert(spec_u128_to_le_bytes(elapsed) == payload.subrange(8, 24));
        assert(payload =~= payload.subrange(0, 4) + payload.subrange(4, 8) + payload.subrange(
            8,
            24,
        ));
        assert(payload == ping_bytes(expected, elapsed));
    }
    if exists|elapsed: u128| payload == #[trigger] ping_bytes(expected, elapsed) {
        let elapsed = choose|elapsed: u128| payload == #[trigger] ping_bytes(expected, elapsed);
        lemma_ping_accepted(expected, elapsed);
    }
}

} // verus!
