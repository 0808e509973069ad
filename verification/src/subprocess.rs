//! The backdoor channel's replies.
//!
//! Beside the judge traffic, the engine can keep a confined helper that
//! runs a shell on request over its own framed socket.  The socket and
//! the spawning happen outside the library; the reply for every spawn
//! outcome is decided here, and the frames travel through the same codec
//! as the sandbox requests.

use crate::wire::{
    decode_i32, decode_u32, encode_i32, encode_u32, spec_decode_i32, spec_decode_u32,
    spec_encode_i32,
};
use vstd::bytes::spec_u32_to_le_bytes;
use vstd::prelude::*;

verus! {

/// How spawning and waiting on the backdoor shell went, as the host
/// observed it.
#[derive(Clone, Copy, Debug, PartialEq, Eq, Structural)]
pub enum SpawnOutcome {
    /// The shell ran and exited with this status.
    Exited(i32),
    /// The shell ended without an exit status: a signal took it.
    NoExitStatus,
    /// The shell could not be spawned at all.
    SpawnFailed,
    /// The wait on the spawned shell failed.
    WaitFailed,
}

/// The reply sent back over the backdoor socket.
#[derive(Clone, Copy, Debug, PartialEq, Eq, Structural)]
pub enum BackdoorResult {
    Exited(i32),
    Signaled,
    SpawnError,
    WaitError,
}

/// One request to the confined helper.
#[derive(Clone, Copy, Debug, PartialEq, Eq, Structural)]
pub enum BackdoorRequest {
    /// Run a shell and report how it went.
    Backdoor,
    /// Acknowledge and exit.
    Close,
}

pub open spec fn spec_encode_backdoor_request(r: BackdoorRequest) -> Seq<u8> {
    match r {
        BackdoorRequest::Backdoor => spec_u32_to_le_bytes(0),
        BackdoorRequest::Close => spec_u32_to_le_bytes(1),
    }
}

pub open spec fn spec_decode_backdoor_request(s: Seq<u8>) -> Option<(BackdoorRequest, int)> {
    match spec_decode_u32(s) {
        None => None,
        Some((t, k)) => {
            if t == 0 {
                Some((BackdoorRequest::Backdoor, k))
            } else if t == 1 {
                Some((BackdoorRequest::Close, k))
            } else {
                None
            }
        },
    }
}

/// Renders a helper request as a frame payload.
pub fn encode_backdoor_request(r: BackdoorRequest) -> (out: Vec<u8>)
    ensures
        out@ == spec_encode_backdoor_request(r),
{
    let mut out: Vec<u8> = Vec::new();
    match r {
        BackdoorRequest::Backdoor => encode_u32(&mut out, 0),
        BackdoorRequest::Close => encode_u32(&mut out, 1),
    }
    proof {
        assert(out@ =~= spec_encode_backdoor_request(r));
    }
    out
}

/// Reads a helper request back out of a frame payload, whole.
pub fn decode_backdoor_request(payload: &[u8]) -> (r: Option<BackdoorRequest>)
    ensures
        match spec_decode_backdoor_request(payload@) {
            Some((v, n)) => {
                if n == payload@.len() {
                    r == Some(v)
                } else {
                    r is None
                }
            },
            None => r is None,
        },
{
    proof {
        assert(payload@.skip(0) =~= payload@);
    }
    match decode_u32(payload, 0) {
        None => None,
        Some((t, k)) => {
            if k != payload.len() {
                None
            } else if t == 0 {
                Some(BackdoorRequest::Backdoor)
            } else if t == 1 {
                Some(BackdoorRequest::Close)
            } else {
                None
            }
        },
    }
}

pub open spec fn spec_encode_backdoor_result(r: BackdoorResult) -> Seq<u8> {
    match r {
        BackdoorResult::Exited(code) => spec_u32_to_le_bytes(0) + spec_encode_i32(code),
        BackdoorResult::Signaled => spec_u32_to_le_bytes(1),
        BackdoorResult::SpawnError => spec_u32_to_le_bytes(2),
        BackdoorResult::WaitError => spec_u32_to_le_bytes(3),
    }
}

pub open spec fn spec_decode_backdoor_result(s: Seq<u8>) -> Option<(BackdoorResult, int)> {
    match spec_decode_u32(s) {
        None => None,
        Some((t, k)) => {
            if t == 0 {
                match spec_decode_i32(s.skip(k)) {
                    None => None,
                    Some((code, m)) => Some((BackdoorResult::Exited(code), k + m)),
                }
            } else if t == 1 {
                Some((BackdoorResult::Signaled, k))
            } else if t == 2 {
                Some((BackdoorResult::SpawnError, k))
            } else if t == 3 {
                Some((BackdoorResult::WaitError, k))
            } else {
                None
            }
        },
    }
}

/// Renders a helper reply as a frame payload.
pub fn encode_backdoor_result(r: BackdoorResult) -> (out: Vec<u8>)
    ensures
        out@ == spec_encode_backdoor_result(r),
{
    let mut out: Vec<u8> = Vec::new();
    match r {
        BackdoorResult::Exited(code) => {
            encode_u32(&mut out, 0);
            encode_i32(&mut out, code);
        },
        BackdoorResult::Signaled => encode_u32(&mut out, 1),
        BackdoorResult::SpawnError => encode_u32(&mut out, 2),
        BackdoorResult::WaitError => encode_u32(&mut out, 3),
    }
    proof {
        assert(out@ =~= spec_encode_backdoor_result(r));
    }
    out
}

/// Reads a helper reply back out of a frame payload, whole.
pub fn decode_backdoor_result(payload: &[u8]) -> (r: Option<BackdoorResult>)
    ensures
        match spec_decode_backdoor_result(payload@) {
            Some((v, n)) => {
                if n == payload@.len() {
                    r == Some(v)
                } else {
                    r is None
                }
            },
            None => r is None,
        },
{
    proof {
        assert(payload@.skip(0) =~= payload@);
    }
    match decode_u32(payload, 0) {
        None => None,
        Some((t, k)) => {
            proof {
                assert(payload@.skip(0).skip(k as int) =~= payload@.skip(k as int));
            }
            if t == 0 {
                match decode_i32(payload, k) {
                    None => None,
                    Some((code, end)) => {
                        if end == payload.len() {
                            Some(BackdoorResult::Exited(code))
                        } else {
                            None
                        }
                    },
                }
            } else if k != payload.len() {
                None
            } else if t == 1 {
                Some(BackdoorResult::Signaled)
            } else if t == 2 {
                Some(BackdoorResult::SpawnError)
            } else if t == 3 {
                Some(BackdoorResult::WaitError)
            } else {
                None
            }
        },
    }
}

/// Decoding a helper request's encoding yields the request back.
pub proof fn lemma_backdoor_request_round_trip(r: BackdoorRequest)
    ensures
        spec_decode_backdoor_request(spec_encode_backdoor_request(r)) == Some::<
            (BackdoorRequest, int),
        >((r, spec_encode_backdoor_request(r).len() as int)),
{
    crate::wire::lemma_u32_round_trip(0, Seq::<u8>::empty());
    crate::wire::lemma_u32_round_trip(1, Seq::<u8>::empty());
    match r {
        BackdoorRequest::Backdoor => {
            assert(spec_u32_to_le_bytes(0) + Seq::<u8>::empty() =~= spec_u32_to_le_bytes(0));
        },
        BackdoorRequest::Close => {
            assert(spec_u32_to_le_bytes(1) + Seq::<u8>::empty() =~= spec_u32_to_le_bytes(1));
        },
    }
}

/// Decoding a helper reply's encoding yields the reply back.
pub proof fn lemma_backdoor_result_round_trip(r: BackdoorResult)
    ensures
        spec_decode_backdoor_result(spec_encode_backdoor_result(r)) == Some::<
            (BackdoorResult, int),
        >((r, spec_encode_backdoor_result(r).len() as int)),
{
    match r {
        BackdoorResult::Exited(code) => {
            let whole = spec_encode_backdoor_result(r);
            crate::wire::lemma_u32_round_trip(0, spec_encode_i32(code) + Seq::<u8>::empty());
            assert(whole =~= spec_u32_to_le_bytes(0) + (spec_encode_i32(code)
                + Seq::<u8>::empty()));
            assert(whole.skip(4) =~= spec_encode_i32(code) + Seq::<u8>::empty());
            crate::wire::lemma_i32_round_trip(code, Seq::<u8>::empty());
            assert(spec_encode_i32(code) + Seq::<u8>::empty() =~= spec_encode_i32(code));
        },
        BackdoorResult::Signaled => {
            crate::wire::lemma_u32_round_trip(1, Seq::<u8>::empty());
            assert(spec_u32_to_le_bytes(1) + Seq::<u8>::empty() =~= spec_u32_to_le_bytes(1));
        },
        BackdoorResult::SpawnError => {
            crate::wire::lemma_u32_round_trip(2, Seq::<u8>::empty());
            assert(spec_u32_to_le_bytes(2) + Seq::<u8>::empty() =~= spec_u32_to_le_bytes(2));
        },
        BackdoorResult::WaitError => {
            crate::wire::lemma_u32_round_trip(3, Seq::<u8>::empty());
            assert(spec_u32_to_le_bytes(3) + Seq::<u8>::empty() =~= spec_u32_to_le_bytes(3));
        },
    }
}

/// Translates a spawn outcome into the wire reply, one for one.
pub fn backdoor_reply(outcome: SpawnOutcome) -> (r: BackdoorResult)
    ensures
        match outcome {
            SpawnOutcome::Exited(code) => r == BackdoorResult::Exited(code),
            SpawnOutcome::NoExitStatus => r == BackdoorResult::Signaled,
            SpawnOutcome::SpawnFailed => r == BackdoorResult::SpawnError,
            SpawnOutcome::WaitFailed => r == BackdoorResult::WaitError,
        },
{
    match outcome {
        SpawnOutcome::Exited(code) => BackdoorResult::Exited(code),
        SpawnOutcome::NoExitStatus => BackdoorResult::Signaled,
        SpawnOutcome::SpawnFailed => BackdoorResult::SpawnError,
        SpawnOutcome::WaitFailed => BackdoorResult::WaitError,
    }
}

} // verus!
