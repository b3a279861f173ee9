use vstd::prelude::*;

use crate::codec::read_transaction;
use crate::frame::{
    extract_frame_payload, frame_parses, frame_is_udp, payload_offset, spec_extract,
    spec_extract_failure,
};
use crate::record::{DecodeFailure, TransactionDetails, TransactionModel, wf_transaction};
use crate::text::{base58_of, describe_instruction, encode_base58, instruction_desc};
use crate::wire::{enc_transaction, parse_transaction, lemma_transaction_round_trip};

verus! {

/// The details that a parsed transaction is reported with: the base58
/// text of each signature, in order, and a description of each
/// instruction, in order.
pub open spec fn details_match(t: TransactionModel, det: TransactionDetails) -> bool {
    &&& det.signatures.deep_view() == Seq::new(
        t.signatures.len(),
        |k: int| base58_of(t.signatures[k]),
    )
    &&& det.instructions.deep_view() == Seq::new(
        t.message.instructions.len(),
        |k: int| instruction_desc(t.message.instructions[k]),
    )
}

/// Decodes a payload into reportable details.  Succeeds exactly when
/// the bytes are a complete encoding of a transaction; any other byte
/// sequence is rejected as not a record, and never causes a panic.
pub fn decode_transaction(data: &[u8]) -> (r: Result<TransactionDetails, DecodeFailure>)
    ensures
        match r {
            Ok(det) => parse_transaction(data@) matches Some(t) && details_match(t, det),
            Err(e) => parse_transaction(data@) is None && e == DecodeFailure::NotARecord,
        },
{
    let t = match read_transaction(data) {
        None => { return Err(DecodeFailure::NotARecord); },
        Some(t) => t,
    };
    let ghost tm = t@;
    let mut signatures: Vec<String> = Vec::new();
    let mut k: usize = 0;
    while k < t.signatures.len()
        invariant
            k <= t.signatures@.len(),
            tm == t@,
            signatures.deep_view() == Seq::new(
                k as nat,
                |j: int| base58_of(tm.signatures[j]),
            ),
        decreases t.signatures@.len() - k,
    {
        let s = encode_base58(t.signatures[k].as_slice());
        let ghost prev = signatures.deep_view();
        signatures.push(s);
        k = k + 1;
        proof {
            assert(signatures.deep_view() =~= prev.push(s@));
            assert(t.signatures@[k - 1].deep_view() =~= t.signatures@[k - 1]@);
            assert(signatures.deep_view() =~= Seq::new(
                k as nat,
                |j: int| base58_of(tm.signatures[j]),
            ));
        }
    }
    let mut instructions: Vec<String> = Vec::new();
    let mut k2: usize = 0;
    while k2 < t.message.instructions.len()
        invariant
            k2 <= t.message.instructions@.len(),
            tm == t@,
            instructions.deep_view() == Seq::new(
                k2 as nat,
                |j: int| instruction_desc(tm.message.instructions[j]),
            ),
        decreases t.message.instructions@.len() - k2,
    {
        let s = describe_instruction(&t.message.instructions[k2]);
        let ghost prev = instructions.deep_view();
        instructions.push(s);
        k2 = k2 + 1;
        proof {
            assert(instructions.deep_view() =~= prev.push(s@));
            assert(instructions.deep_view() =~= Seq::new(
                k2 as nat,
                |j: int| instruction_desc(tm.message.instructions[j]),
            ));
        }
    }
    Ok(TransactionDetails { signatures, instructions })
}

/// Whether a payload yields a reportable record: the bytes parse as a
/// transaction and both of its lists are non-empty.
pub open spec fn emitted(d: Seq<u8>) -> Option<TransactionModel> {
    match parse_transaction(d) {
        Some(t) => if t.signatures.len() > 0 && t.message.instructions.len() > 0 {
            Some(t)
        } else {
            None
        },
        None => None,
    }
}

/// Decodes a UDP payload and surfaces only complete, non-empty
/// records: a payload that is not a record, or whose signature or
/// instruction list is empty, yields `None`.
pub fn process_udp_payload(udp_payload: &[u8]) -> (r: Option<TransactionDetails>)
    ensures
        match r {
            Some(det) => {
                &&& emitted(udp_payload@) matches Some(t) && details_match(t, det)
                &&& det.signatures@.len() > 0
                &&& det.instructions@.len() > 0
            },
            None => emitted(udp_payload@) is None,
        },
{
    match decode_transaction(udp_payload) {
        Ok(det) => {
            proof {
                if let Some(t) = parse_transaction(udp_payload@) {
                    assert(det.signatures@.len() == det.signatures.deep_view().len());
                    assert(det.instructions@.len() == det.instructions.deep_view().len());
                    assert(det.signatures.deep_view().len() == t.signatures.len());
                    assert(det.instructions.deep_view().len() == t.message.instructions.len());
                }
            }
            if det.signatures.len() > 0 && det.instructions.len() > 0 {
                Some(det)
            } else {
                None
            }
        },
        Err(_) => None,
    }
}

/// The reason a frame produced no record, assuming one of the
/// rejection paths was taken.
pub open spec fn spec_process_failure(d: Seq<u8>) -> DecodeFailure {
    match spec_extract(d) {
        None => spec_extract_failure(d),
        Some(p) => if parse_transaction(p) is None {
            DecodeFailure::NotARecord
        } else {
            DecodeFailure::EmptyRecord
        },
    }
}

/// Runs the whole pipeline on one raw frame: either the decoded,
/// non-empty record, or the exact reason the frame was skipped.
pub fn process_frame(data: &[u8]) -> (r: Result<TransactionDetails, DecodeFailure>)
    ensures
        match r {
            Ok(det) => {
                &&& spec_extract(data@) matches Some(p) && emitted(p) matches Some(t)
                    && details_match(t, det)
                &&& det.signatures@.len() > 0
                &&& det.instructions@.len() > 0
            },
            Err(e) => {
                &&& spec_extract(data@) matches Some(p) ==> emitted(p) is None
                &&& e == spec_process_failure(data@)
            },
        },
{
    let payload = match extract_frame_payload(data) {
        Err(e) => { return Err(e); },
        Ok(p) => p,
    };
    match process_udp_payload(payload) {
        Some(det) => Ok(det),
        None => {
            match decode_transaction(payload) {
                Ok(_) => Err(DecodeFailure::EmptyRecord),
                Err(e) => Err(e),
            }
        },
    }
}

/// Processes a single raw frame, silently skipping everything that is
/// not a frame around a complete, non-empty record.
pub fn process_packet(data: &[u8]) -> (r: Option<TransactionDetails>)
    ensures
        match r {
            Some(det) => spec_extract(data@) matches Some(p) && emitted(p) matches Some(t)
                && details_match(t, det),
            None => (spec_extract(data@) matches Some(p) ==> emitted(p) is None),
        },
{
    match process_frame(data) {
        Ok(det) => Some(det),
        Err(_) => None,
    }
}

/// Round trip: a well-formed record with at least one signature and
/// one instruction, embedded as the UDP payload of a valid frame, is
/// extracted and decoded back to exactly that record.
pub proof fn lemma_pipeline_round_trip(d: Seq<u8>, t: TransactionModel)
    requires
        wf_transaction(t),
        t.signatures.len() > 0,
        t.message.instructions.len() > 0,
        frame_parses(d),
        frame_is_udp(d),
        d.len() > payload_offset(d),
        d.subrange(payload_offset(d), d.len() as int) == enc_transaction(t),
    ensures
        spec_extract(d) == Some(enc_transaction(t)),
        emitted(enc_transaction(t)) == Some(t),
{
    lemma_transaction_round_trip(t);
}

/// A record encoded with no signatures or with no instructions parses
/// structurally, yet is never surfaced as a decoded record.
pub proof fn lemma_empty_record_skipped(t: TransactionModel)
    requires
        wf_transaction(t),
        t.signatures.len() == 0 || t.message.instructions.len() == 0,
    ensures
        parse_transaction(enc_transaction(t)) is Some,
        emitted(enc_transaction(t)) is None,
{
    lemma_transaction_round_trip(t);
}

} // verus!
