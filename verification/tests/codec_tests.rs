use solana_network_listener::{
    decode_transaction, describe_instruction, encode_transaction, extract_udp_payload,
    read_transaction, DecodeFailure, Instruction, Message, MessageHeader, Transaction,
};

fn base_transaction() -> Transaction {
    Transaction {
        signatures: vec![vec![7u8; 64], vec![9u8; 64]],
        message: Message {
            header: MessageHeader {
                num_required_signatures: 2,
                num_readonly_signed_accounts: 1,
                num_readonly_unsigned_accounts: 0,
            },
            account_keys: vec![vec![4u8; 32], vec![5u8; 32]],
            recent_blockhash: vec![6u8; 32],
            instructions: vec![Instruction {
                program_id_index: 1,
                accounts: vec![0],
                data: vec![0xde, 0xad],
            }],
        },
    }
}

#[test]
fn test_round_trip_two_signatures() {
    let transaction = base_transaction();
    let bytes = encode_transaction(&transaction);
    let back = read_transaction(&bytes).expect("round trip expected");
    assert_eq!(back.signatures, transaction.signatures);
    assert_eq!(back.message, transaction.message);
}

#[test]
fn test_round_trip_two_byte_compact_length() {
    // 200 account keys force the two-byte form of the compact length.
    let mut transaction = base_transaction();
    let mut keys: Vec<Vec<u8>> = Vec::new();
    for k in 0..200u32 {
        let mut key = vec![0u8; 32];
        key[0] = (k % 256) as u8;
        key[1] = (k / 256) as u8;
        keys.push(key);
    }
    transaction.message.account_keys = keys.clone();
    let bytes = encode_transaction(&transaction);
    let back = read_transaction(&bytes).expect("round trip expected");
    assert_eq!(back.message.account_keys, keys);
    assert_eq!(back.message, transaction.message);
}

#[test]
fn test_round_trip_three_byte_compact_length() {
    // 17000 bytes of instruction data force the three-byte form.
    let mut transaction = base_transaction();
    let mut data: Vec<u8> = Vec::new();
    for k in 0..17000u32 {
        data.push((k % 251) as u8);
    }
    transaction.message.instructions[0].data = data.clone();
    let bytes = encode_transaction(&transaction);
    let back = read_transaction(&bytes).expect("round trip expected");
    assert_eq!(back.message.instructions[0].data, data);
}

#[test]
fn test_non_minimal_compact_length_is_rejected() {
    // The two-signature encoding starts with the one-byte length 0x02;
    // the alias 0x82 0x00 must be refused.
    let transaction = base_transaction();
    let bytes = encode_transaction(&transaction);
    assert_eq!(bytes[0], 0x02);
    let mut tampered: Vec<u8> = vec![0x82, 0x00];
    tampered.extend_from_slice(&bytes[1..]);
    assert_eq!(decode_transaction(&tampered), Err(DecodeFailure::NotARecord));
}

#[test]
fn test_describe_instruction_text() {
    let instruction = Instruction {
        program_id_index: 200,
        accounts: vec![0, 15, 255],
        data: vec![7],
    };
    assert_eq!(
        describe_instruction(&instruction),
        "Instruction { program_id_index: 200, accounts: [0, 15, 255], data: [7] }"
    );

    let empty = Instruction { program_id_index: 0, accounts: vec![], data: vec![] };
    assert_eq!(
        describe_instruction(&empty),
        "Instruction { program_id_index: 0, accounts: [], data: [] }"
    );
}

#[test]
fn test_extract_udp_payload_offsets() {
    // 14 + 20 + 8 bytes of headers, then two payload bytes.
    let mut data = vec![0u8; 42];
    data.extend_from_slice(&[0xab, 0xcd]);
    let payload = extract_udp_payload(&data, 20).expect("payload expected");
    assert_eq!(payload, &[0xab, 0xcd]);

    // With a 24-byte header length the same buffer has no payload left.
    assert!(extract_udp_payload(&data, 24).is_none());
}
