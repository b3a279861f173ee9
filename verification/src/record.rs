use vstd::prelude::*;

verus! {

/// Why a frame or a payload was rejected. Every rejection path of the
/// pipeline reports exactly one of these; none of them is fatal.
#[derive(Clone, Copy, Debug, PartialEq, Eq, Structural)]
pub enum DecodeFailure {
    /// Header parsing failed: bad ethertype, unsupported IP version,
    /// or an invalid header-length field.
    FrameMalformed,
    /// The transport layer is present but is not UDP.
    NotUdp,
    /// The computed payload offset is at or beyond the end of the buffer.
    PayloadTruncated,
    /// The payload bytes do not deserialize into the record format.
    NotARecord,
    /// Deserialization succeeded but the signature or instruction list
    /// is empty, so no record is surfaced.
    EmptyRecord,
}

impl DecodeFailure {
    /// The diagnostic text for this rejection.
    pub open spec fn spec_message(self) -> Seq<char> {
        match self {
            DecodeFailure::FrameMalformed => "malformed frame headers, ignored"@,
            DecodeFailure::NotUdp => "non-UDP packet received"@,
            DecodeFailure::PayloadTruncated => "truncated or empty UDP payload"@,
            DecodeFailure::NotARecord => "given data packet is not a transaction"@,
            DecodeFailure::EmptyRecord => "transaction with empty signatures or instructions, skipping"@,
        }
    }

    /// A distinguishable diagnostic message for each rejection reason.
    pub fn message(&self) -> (r: &'static str)
        ensures
            r@ == self.spec_message(),
    {
        match self {
            DecodeFailure::FrameMalformed => "malformed frame headers, ignored",
            DecodeFailure::NotUdp => "non-UDP packet received",
            DecodeFailure::PayloadTruncated => "truncated or empty UDP payload",
            DecodeFailure::NotARecord => "given data packet is not a transaction",
            DecodeFailure::EmptyRecord => "transaction with empty signatures or instructions, skipping",
        }
    }
}

/// The fixed header of a message: three one-byte counters.
#[derive(Clone, Copy, Debug, PartialEq, Eq, Structural)]
pub struct MessageHeader {
    pub num_required_signatures: u8,
    pub num_readonly_signed_accounts: u8,
    pub num_readonly_unsigned_accounts: u8,
}

/// One compiled instruction: a program index into the account keys,
/// the indices of the accounts it touches, and opaque instruction data.
#[derive(Clone, Debug, PartialEq, Eq)]
pub struct Instruction {
    pub program_id_index: u8,
    pub accounts: Vec<u8>,
    pub data: Vec<u8>,
}

/// The message section of a transaction.
#[derive(Clone, Debug, PartialEq, Eq)]
pub struct Message {
    pub header: MessageHeader,
    /// Account keys, each exactly 32 bytes.
    pub account_keys: Vec<Vec<u8>>,
    /// A 32-byte hash.
    pub recent_blockhash: Vec<u8>,
    pub instructions: Vec<Instruction>,
}

/// A transaction as read off the wire: a list of 64-byte signatures
/// followed by a message.
#[derive(Clone, Debug, PartialEq, Eq)]
pub struct Transaction {
    /// Signatures, each exactly 64 bytes.
    pub signatures: Vec<Vec<u8>>,
    pub message: Message,
}

/// Mathematical model of an instruction.
#[verifier::ext_equal]
pub ghost struct InstructionModel {
    pub program_id_index: u8,
    pub accounts: Seq<u8>,
    pub data: Seq<u8>,
}

/// Mathematical model of a message.
#[verifier::ext_equal]
pub ghost struct MessageModel {
    pub header: MessageHeader,
    pub account_keys: Seq<Seq<u8>>,
    pub recent_blockhash: Seq<u8>,
    pub instructions: Seq<InstructionModel>,
}

/// Mathematical model of a transaction.
#[verifier::ext_equal]
pub ghost struct TransactionModel {
    pub signatures: Seq<Seq<u8>>,
    pub message: MessageModel,
}

impl View for Instruction {
    type V = InstructionModel;

    open spec fn view(&self) -> InstructionModel {
        InstructionModel {
            program_id_index: self.program_id_index,
            accounts: self.accounts@,
            data: self.data@,
        }
    }
}

impl DeepView for Instruction {
    type V = InstructionModel;

    open spec fn deep_view(&self) -> InstructionModel {
        self.view()
    }
}

impl View for Message {
    type V = MessageModel;

    open spec fn view(&self) -> MessageModel {
        MessageModel {
            header: self.header,
            account_keys: self.account_keys.deep_view(),
            recent_blockhash: self.recent_blockhash@,
            instructions: self.instructions.deep_view(),
        }
    }
}

impl View for Transaction {
    type V = TransactionModel;

    open spec fn view(&self) -> TransactionModel {
        TransactionModel {
            signatures: self.signatures.deep_view(),
            message: self.message@,
        }
    }
}

/// An instruction is encodable: both of its lists fit a compact length.
pub open spec fn wf_instruction(i: InstructionModel) -> bool {
    &&& i.accounts.len() <= 0xffff
    &&& i.data.len() <= 0xffff
}

/// A message is encodable: list lengths fit a compact length, every
/// account key is 32 bytes and the blockhash is 32 bytes.
pub open spec fn wf_message(m: MessageModel) -> bool {
    &&& m.account_keys.len() <= 0xffff
    &&& forall|k: int| 0 <= k < m.account_keys.len() ==> (#[trigger] m.account_keys[k]).len() == 32
    &&& m.recent_blockhash.len() == 32
    &&& m.instructions.len() <= 0xffff
    &&& forall|k: int| 0 <= k < m.instructions.len() ==> wf_instruction(#[trigger] m.instructions[k])
}

/// A transaction is encodable: the signature count fits a compact
/// length, every signature is 64 bytes and the message is encodable.
pub open spec fn wf_transaction(t: TransactionModel) -> bool {
    &&& t.signatures.len() <= 0xffff
    &&& forall|k: int| 0 <= k < t.signatures.len() ==> (#[trigger] t.signatures[k]).len() == 64
    &&& wf_message(t.message)
}

/// The normalized, log-inspectable form of a decoded transaction:
/// each signature as base58 text, each instruction as a description.
#[derive(Clone, Debug, PartialEq, Eq)]
pub struct TransactionDetails {
    pub signatures: Vec<String>,
    pub instructions: Vec<String>,
}

} // verus!
