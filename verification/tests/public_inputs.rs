use zk_sudoku::{encode_public_inputs, noir_inputs_to_public_inputs, PublicInputs, VerifyError};

#[test]
fn test_noir_input_conversion() {
    // Create mock Noir public inputs (76 bytes total)
    let mut noir_inputs = Vec::new();

    // Add pid (8 bytes)
    noir_inputs.extend_from_slice(&42u64.to_le_bytes());

    // Add commitment (32 bytes)
    noir_inputs.extend_from_slice(&[3u8; 32]);

    // Add nullifier (32 bytes)
    noir_inputs.extend_from_slice(&[4u8; 32]);

    // Add timestamp (4 bytes)
    noir_inputs.extend_from_slice(&1234u32.to_le_bytes());

    // Convert to our format
    let result = noir_inputs_to_public_inputs(&noir_inputs).unwrap();

    // Verify conversion was correct
    assert_eq!(result.pid, 42);
    assert_eq!(result.puzzle_commitment, [3u8; 32]);
    assert_eq!(result.nullifier, [4u8; 32]);
    assert_eq!(result.time_sec, 1234);
}

fn sample() -> PublicInputs {
    let mut commitment = [0u8; 32];
    let mut nullifier = [0u8; 32];
    for i in 0..32 {
        commitment[i] = i as u8;
        nullifier[i] = 0xff - i as u8;
    }
    PublicInputs::new(0x0102_0304_0506_0708, commitment, nullifier, 0x0a0b_0c0d)
}

#[test]
fn new_keeps_the_fields() {
    let pi = PublicInputs::new(7, [1u8; 32], [2u8; 32], 9);
    assert_eq!(pi.pid, 7);
    assert_eq!(pi.puzzle_commitment, [1u8; 32]);
    assert_eq!(pi.nullifier, [2u8; 32]);
    assert_eq!(pi.time_sec, 9);
}

#[test]
fn encode_lays_out_the_fields_at_their_offsets() {
    let bytes = encode_public_inputs(&sample());
    assert_eq!(bytes.len(), 76);
    assert_eq!(&bytes[0..8], &[0x08, 0x07, 0x06, 0x05, 0x04, 0x03, 0x02, 0x01]);
    for i in 0..32 {
        assert_eq!(bytes[8 + i], i as u8);
        assert_eq!(bytes[40 + i], 0xff - i as u8);
    }
    assert_eq!(&bytes[72..76], &[0x0d, 0x0c, 0x0b, 0x0a]);
}

#[test]
fn encode_agrees_with_the_integers_own_little_endian_bytes() {
    for (pid, time) in [
        (0u64, 0u32),
        (1, 1),
        (255, 256),
        (u64::MAX, u32::MAX),
        (0x8000_0000_0000_0000, 0x8000_0000),
        (1234567890123456789, 987654321),
    ] {
        let bytes = encode_public_inputs(&PublicInputs::new(pid, [0u8; 32], [0u8; 32], time));
        assert_eq!(&bytes[0..8], &pid.to_le_bytes());
        assert_eq!(&bytes[72..76], &time.to_le_bytes());
    }
}

#[test]
fn decode_reads_little_endian() {
    let mut raw = vec![0u8; 76];
    raw[0] = 0x01;
    raw[7] = 0x80;
    raw[72] = 0x02;
    raw[75] = 0x40;
    let pi = noir_inputs_to_public_inputs(&raw).unwrap();
    assert_eq!(pi.pid, 0x8000_0000_0000_0001);
    assert_eq!(pi.time_sec, 0x4000_0002);
}

#[test]
fn decode_after_encode_is_the_identity() {
    let inputs = [
        sample(),
        PublicInputs::new(0, [0u8; 32], [0u8; 32], 0),
        PublicInputs::new(u64::MAX, [0xffu8; 32], [0xffu8; 32], u32::MAX),
        PublicInputs::new(42, [3u8; 32], [4u8; 32], 1234),
    ];
    for x in inputs {
        let decoded = noir_inputs_to_public_inputs(&encode_public_inputs(&x)).unwrap();
        assert_eq!(decoded, x);
    }
}

#[test]
fn encode_after_decode_gives_the_first_76_bytes() {
    let raw: Vec<u8> = (0..100u32).map(|i| (i * 7 + 3) as u8).collect();
    let pi = noir_inputs_to_public_inputs(&raw).unwrap();
    assert_eq!(encode_public_inputs(&pi), raw[..76].to_vec());
}

#[test]
fn fewer_than_76_bytes_are_rejected() {
    for len in 0..76 {
        let raw = vec![1u8; len];
        assert!(matches!(
            noir_inputs_to_public_inputs(&raw),
            Err(VerifyError::DeserializationError)
        ));
    }
}

#[test]
fn exactly_76_bytes_are_accepted() {
    assert!(noir_inputs_to_public_inputs(&[0u8; 76]).is_ok());
}

#[test]
fn bytes_beyond_offset_76_are_ignored() {
    let mut raw = encode_public_inputs(&sample());
    raw.extend_from_slice(&[0xaa; 50]);
    assert_eq!(noir_inputs_to_public_inputs(&raw).unwrap(), sample());
}
