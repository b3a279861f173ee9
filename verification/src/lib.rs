//! Recovers structured transaction records from raw Ethernet frames.
//!
//! The pipeline peels Ethernet, IPv4 and UDP headers off an untrusted
//! byte buffer (`frame`), reads the payload as a binary transaction
//! encoding (`wire`, `codec`), and renders complete, non-empty records
//! into a reportable form (`text`, `pipeline`).  Every rejection path
//! is classified, and no input can cause a panic or an out-of-bounds
//! read.

pub mod codec;
pub mod frame;
pub mod pipeline;
pub mod record;
pub mod text;
pub mod wire;

pub use codec::{encode_transaction, read_transaction};
pub use frame::{extract_frame_payload, extract_udp_payload, extract_udp_payload_from_packet};
pub use pipeline::{decode_transaction, process_frame, process_packet, process_udp_payload};
pub use record::{
    DecodeFailure, Instruction, Message, MessageHeader, Transaction, TransactionDetails,
};
pub use text::describe_instruction;
