use solana_network_listener::{
    decode_transaction, encode_transaction, extract_frame_payload,
    extract_udp_payload_from_packet, process_frame, process_packet, process_udp_payload,
    read_transaction, DecodeFailure, Instruction, Message, MessageHeader, Transaction,
};

fn ethernet_header() -> Vec<u8> {
    vec![
        0x00, 0x00, 0x00, 0x00, 0x00, 0x00, // Destination MAC
        0x00, 0x00, 0x00, 0x00, 0x00, 0x00, // Source MAC
        0x08, 0x00, // Ethertype: IPv4
    ]
}

fn ipv4_header() -> Vec<u8> {
    vec![
        0x45, // Version and header length
        0x00, // Type of service
        0x00, 0x3c, // Total length
        0x1c, 0x46, // Identification
        0x40, 0x00, // Flags and fragment offset
        0x40, // TTL
        0x11, // Protocol: UDP
        0x00, 0x00, // Header checksum
        0xc0, 0xa8, 0x00, 0x01, // Source IP
        0xc0, 0xa8, 0x00, 0x02, // Destination IP
    ]
}

fn udp_header() -> Vec<u8> {
    vec![
        0x1f, 0x40, // Source port (8000)
        0x1f, 0x41, // Destination port (8001)
        0x00, 0x28, // Length
        0x00, 0x00, // Checksum
    ]
}

fn wrap_in_frame(payload: &[u8]) -> Vec<u8> {
    let mut packet: Vec<u8> = Vec::new();
    packet.extend_from_slice(&ethernet_header());
    packet.extend_from_slice(&ipv4_header());
    packet.extend_from_slice(&udp_header());
    packet.extend_from_slice(payload);
    packet
}

/// An unsigned transaction with one instruction: one required signer,
/// three account keys, and the instruction calling the last key.
fn sample_transaction() -> Transaction {
    Transaction {
        signatures: vec![vec![0u8; 64]],
        message: Message {
            header: MessageHeader {
                num_required_signatures: 1,
                num_readonly_signed_accounts: 0,
                num_readonly_unsigned_accounts: 1,
            },
            account_keys: vec![vec![1u8; 32], vec![2u8; 32], vec![3u8; 32]],
            recent_blockhash: vec![0u8; 32],
            instructions: vec![Instruction {
                program_id_index: 2,
                accounts: vec![1],
                data: vec![],
            }],
        },
    }
}

#[test]
fn test_process_custom_udp_transaction() {
    println!("Starting test_process_custom_udp_transaction");

    let transaction = sample_transaction();

    // Serialize the transaction
    let serialized_transaction = encode_transaction(&transaction);

    // Combine headers and serialized transaction into one packet
    let packet = wrap_in_frame(&serialized_transaction);

    // Process the mock packet
    process_packet(&packet);

    // Extract the UDP payload
    let udp_payload =
        extract_udp_payload_from_packet(&packet).expect("Failed to extract UDP payload");

    // Deserialize the transaction from the UDP payload
    let deserialized_transaction =
        read_transaction(udp_payload).expect("Failed to deserialize transaction");

    // Assert that the deserialized transaction matches the original transaction
    assert_eq!(transaction.signatures, deserialized_transaction.signatures);
    assert_eq!(transaction.message, deserialized_transaction.message);

    println!("Completed test_process_custom_udp_transaction");
}

#[test]
fn test_pipeline_scenario_one_instruction() {
    let transaction = sample_transaction();
    let packet = wrap_in_frame(&encode_transaction(&transaction));

    let details = process_packet(&packet).expect("expected a decoded record");
    assert_eq!(details.instructions.len(), 1);
    assert_eq!(details.signatures.len(), transaction.signatures.len());
    assert_eq!(
        details.instructions[0],
        "Instruction { program_id_index: 2, accounts: [1], data: [] }"
    );
}

#[test]
fn test_signature_is_base58_encoded() {
    // A 64-byte all-zero signature encodes to sixty-four '1' characters.
    let transaction = sample_transaction();
    let packet = wrap_in_frame(&encode_transaction(&transaction));

    let details = process_packet(&packet).expect("expected a decoded record");
    assert_eq!(details.signatures.len(), 1);
    assert_eq!(details.signatures[0], "1".repeat(64));
}

#[test]
fn test_truncated_payload_yields_none() {
    // The buffer ends exactly at the UDP header boundary.
    let packet = wrap_in_frame(&[]);
    assert_eq!(packet.len(), 42);
    assert!(extract_udp_payload_from_packet(&packet).is_none());
    assert_eq!(
        extract_frame_payload(&packet),
        Err(DecodeFailure::PayloadTruncated)
    );

    // A buffer cut off even earlier is malformed.
    assert_eq!(
        extract_frame_payload(&packet[..20]),
        Err(DecodeFailure::FrameMalformed)
    );
}

#[test]
fn test_non_udp_frame_yields_none() {
    let mut packet = wrap_in_frame(&[0xaa; 40]);
    packet[23] = 0x06; // TCP
    assert!(extract_udp_payload_from_packet(&packet).is_none());
    assert_eq!(extract_frame_payload(&packet), Err(DecodeFailure::NotUdp));
    assert!(process_packet(&packet).is_none());
}

#[test]
fn test_malformed_frame_yields_none() {
    // Wrong ethertype (IPv6).
    let mut packet = wrap_in_frame(&[0xaa; 40]);
    packet[12] = 0x86;
    packet[13] = 0xdd;
    assert_eq!(
        extract_frame_payload(&packet),
        Err(DecodeFailure::FrameMalformed)
    );

    // Wrong IP version nibble.
    let mut packet = wrap_in_frame(&[0xaa; 40]);
    packet[14] = 0x65;
    assert_eq!(
        extract_frame_payload(&packet),
        Err(DecodeFailure::FrameMalformed)
    );

    // Header-length field below the 20-byte minimum.
    let mut packet = wrap_in_frame(&[0xaa; 40]);
    packet[14] = 0x44;
    assert_eq!(
        extract_frame_payload(&packet),
        Err(DecodeFailure::FrameMalformed)
    );
}

#[test]
fn test_ipv4_options_are_skipped() {
    // A 24-byte IPv4 header: version 4, IHL 6, with 4 bytes of options.
    let transaction = sample_transaction();
    let payload = encode_transaction(&transaction);

    let mut packet: Vec<u8> = Vec::new();
    packet.extend_from_slice(&ethernet_header());
    let mut ip = ipv4_header();
    ip[0] = 0x46;
    packet.extend_from_slice(&ip);
    packet.extend_from_slice(&[0x01, 0x01, 0x01, 0x01]); // options padding
    packet.extend_from_slice(&udp_header());
    packet.extend_from_slice(&payload);

    let extracted = extract_udp_payload_from_packet(&packet).expect("payload expected");
    assert_eq!(extracted, &payload[..]);

    let details = process_packet(&packet).expect("expected a decoded record");
    assert_eq!(details.instructions.len(), 1);

    // The same frame with the minimal header length no longer lines up.
    let mut bad = packet.clone();
    bad[14] = 0x45;
    assert!(process_packet(&bad).is_none());
}

#[test]
fn test_garbage_payload_is_not_a_record() {
    assert_eq!(decode_transaction(&[]), Err(DecodeFailure::NotARecord));
    assert_eq!(
        decode_transaction(&[0xff; 50]),
        Err(DecodeFailure::NotARecord)
    );
    assert_eq!(
        decode_transaction(&[1, 2, 3]),
        Err(DecodeFailure::NotARecord)
    );

    // A long pseudo-random byte sequence.
    let mut x: u32 = 0x12345678;
    let mut garbage: Vec<u8> = Vec::new();
    for _ in 0..4096 {
        x = x.wrapping_mul(1664525).wrapping_add(1013904223);
        garbage.push((x >> 24) as u8);
    }
    assert_eq!(decode_transaction(&garbage), Err(DecodeFailure::NotARecord));
    assert!(process_udp_payload(&garbage).is_none());
}

#[test]
fn test_trailing_bytes_are_rejected() {
    // Strictness: a valid encoding followed by one extra byte is not a record.
    let mut bytes = encode_transaction(&sample_transaction());
    bytes.push(0x00);
    assert_eq!(decode_transaction(&bytes), Err(DecodeFailure::NotARecord));

    // And one byte short is not a record either.
    let bytes = encode_transaction(&sample_transaction());
    assert_eq!(
        decode_transaction(&bytes[..bytes.len() - 1]),
        Err(DecodeFailure::NotARecord)
    );
}

#[test]
fn test_empty_record_is_skipped() {
    // No signatures: deserialization succeeds, but nothing is surfaced.
    let mut transaction = sample_transaction();
    transaction.signatures = vec![];
    let bytes = encode_transaction(&transaction);
    assert!(decode_transaction(&bytes).is_ok());
    assert!(process_udp_payload(&bytes).is_none());
    let packet = wrap_in_frame(&bytes);
    assert_eq!(process_frame(&packet), Err(DecodeFailure::EmptyRecord));

    // No instructions: same outcome.
    let mut transaction = sample_transaction();
    transaction.message.instructions = vec![];
    let bytes = encode_transaction(&transaction);
    assert!(decode_transaction(&bytes).is_ok());
    assert!(process_udp_payload(&bytes).is_none());
    let packet = wrap_in_frame(&bytes);
    assert_eq!(process_frame(&packet), Err(DecodeFailure::EmptyRecord));
}

#[test]
fn test_failure_messages_are_distinguishable() {
    let failures = [
        DecodeFailure::FrameMalformed,
        DecodeFailure::NotUdp,
        DecodeFailure::PayloadTruncated,
        DecodeFailure::NotARecord,
        DecodeFailure::EmptyRecord,
    ];
    for a in 0..failures.len() {
        for b in 0..failures.len() {
            if a != b {
                assert_ne!(failures[a].message(), failures[b].message());
            }
        }
    }
    assert_eq!(DecodeFailure::NotUdp.message(), "non-UDP packet received");
}
