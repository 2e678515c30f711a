use bitcoin_codec::{
    BitcoinError, BitcoinTransaction, CompactSize, OutPoint, Script, TransactionInput, Txid,
};

fn sample_input(tag: u8) -> TransactionInput {
    let mut id = [0u8; 32];
    id[0] = tag;
    id[31] = tag.wrapping_add(1);
    TransactionInput::new(
        OutPoint::new(id, tag as u32),
        Script::new(vec![tag, 0xAB, 0xCD]),
        0xFFFF_FFFF - tag as u32,
    )
}

#[test]
fn varint_zero_encodes_to_single_zero_byte() {
    assert_eq!(CompactSize::new(0).to_bytes(), vec![0x00]);
}

#[test]
fn varint_300_encodes_with_fd_prefix() {
    assert_eq!(CompactSize::new(300).to_bytes(), vec![0xFD, 0x2C, 0x01]);
}

#[test]
fn varint_70000_encodes_with_fe_prefix() {
    assert_eq!(
        CompactSize::new(70000).to_bytes(),
        vec![0xFE, 0x70, 0x11, 0x01, 0x00]
    );
}

#[test]
fn varint_boundary_values_select_expected_prefix_class() {
    let cases: [(u64, usize, Option<u8>); 7] = [
        (0, 1, None),
        (252, 1, None),
        (253, 3, Some(0xFD)),
        (65535, 3, Some(0xFD)),
        (65536, 5, Some(0xFE)),
        (4294967295, 5, Some(0xFE)),
        (4294967296, 9, Some(0xFF)),
    ];
    for (value, len, tag) in cases {
        let enc = CompactSize::new(value).to_bytes();
        assert_eq!(enc.len(), len, "wrong width for {}", value);
        match tag {
            Some(t) => assert_eq!(enc[0], t, "wrong tag for {}", value),
            None => assert_eq!(enc[0] as u64, value),
        }
    }
}

#[test]
fn varint_round_trip_all_classes() {
    for value in [0u64, 1, 252, 253, 300, 65535, 65536, 70000, u32::MAX as u64, u64::MAX] {
        let enc = CompactSize::new(value).to_bytes();
        let (decoded, used) = CompactSize::from_bytes(&enc).unwrap();
        assert_eq!(decoded.value, value);
        assert_eq!(used, enc.len());
    }
}

#[test]
fn varint_decode_ignores_trailing_bytes() {
    let mut enc = CompactSize::new(300).to_bytes();
    enc.extend_from_slice(&[0xAA, 0xBB]);
    let (decoded, used) = CompactSize::from_bytes(&enc).unwrap();
    assert_eq!(decoded.value, 300);
    assert_eq!(used, 3);
}

#[test]
fn varint_accepts_non_minimal_encoding() {
    let (decoded, used) = CompactSize::from_bytes(&[0xFD, 0x05, 0x00]).unwrap();
    assert_eq!(decoded.value, 5);
    assert_eq!(used, 3);
}

#[test]
fn varint_truncation_fails_with_insufficient_bytes() {
    for value in [0u64, 300, 70000, u64::MAX] {
        let enc = CompactSize::new(value).to_bytes();
        for k in 0..enc.len() {
            assert_eq!(
                CompactSize::from_bytes(&enc[..k]),
                Err(BitcoinError::InsufficientBytes)
            );
        }
    }
}

#[test]
fn outpoint_zero_id_vout_one_encodes_to_36_bytes() {
    let op = OutPoint::new([0u8; 32], 1);
    let enc = op.to_bytes();
    assert_eq!(enc.len(), 36);
    assert_eq!(&enc[..32], &[0u8; 32]);
    assert_eq!(&enc[32..], &[0x01, 0x00, 0x00, 0x00]);
}

#[test]
fn outpoint_every_strict_prefix_fails() {
    let enc = OutPoint::new([0u8; 32], 1).to_bytes();
    for k in 0..36 {
        assert_eq!(
            OutPoint::from_bytes(&enc[..k]),
            Err(BitcoinError::InsufficientBytes)
        );
    }
}

#[test]
fn outpoint_round_trip() {
    let mut id = [0u8; 32];
    for (i, b) in id.iter_mut().enumerate() {
        *b = i as u8;
    }
    let op = OutPoint::new(id, 0xDEAD_BEEF);
    let (decoded, used) = OutPoint::from_bytes(&op.to_bytes()).unwrap();
    assert_eq!(decoded, op);
    assert_eq!(used, 36);
}

#[test]
fn script_round_trip_and_length_prefix() {
    let sc = Script::new(vec![0x51, 0x52, 0x53]);
    let enc = sc.to_bytes();
    assert_eq!(enc, vec![0x03, 0x51, 0x52, 0x53]);
    let (decoded, used) = Script::from_bytes(&enc).unwrap();
    assert_eq!(decoded, sc);
    assert_eq!(used, 4);
}

#[test]
fn empty_script_round_trip() {
    let sc = Script::new(vec![]);
    let enc = sc.to_bytes();
    assert_eq!(enc, vec![0x00]);
    let (decoded, used) = Script::from_bytes(&enc).unwrap();
    assert_eq!(decoded.bytes.len(), 0);
    assert_eq!(used, 1);
}

#[test]
fn script_truncation_fails() {
    let sc = Script::new((0..100).collect());
    let enc = sc.to_bytes();
    for k in 0..enc.len() {
        assert_eq!(
            Script::from_bytes(&enc[..k]),
            Err(BitcoinError::InsufficientBytes)
        );
    }
}

#[test]
fn input_round_trip() {
    let inp = sample_input(7);
    let enc = inp.to_bytes();
    let (decoded, used) = TransactionInput::from_bytes(&enc).unwrap();
    assert_eq!(decoded, inp);
    assert_eq!(used, enc.len());
}

#[test]
fn input_truncation_fails() {
    let enc = sample_input(9).to_bytes();
    for k in 0..enc.len() {
        assert_eq!(
            TransactionInput::from_bytes(&enc[..k]),
            Err(BitcoinError::InsufficientBytes)
        );
    }
}

#[test]
fn empty_transaction_encodes_to_expected_bytes() {
    let tx = BitcoinTransaction::new(1, vec![], 0);
    let enc = tx.to_bytes();
    assert_eq!(
        enc,
        vec![0x01, 0x00, 0x00, 0x00, 0x00, 0x00, 0x00, 0x00, 0x00]
    );
    let (decoded, used) = BitcoinTransaction::from_bytes(&enc).unwrap();
    assert_eq!(decoded.inputs.len(), 0);
    assert_eq!(decoded.version, 1);
    assert_eq!(decoded.lock_time, 0);
    assert_eq!(used, enc.len());
}

#[test]
fn transaction_round_trip_preserves_input_count_and_order() {
    let inputs = vec![sample_input(1), sample_input(2), sample_input(3)];
    let tx = BitcoinTransaction::new(2, inputs.clone(), 0x11223344);
    let enc = tx.to_bytes();
    let (decoded, used) = BitcoinTransaction::from_bytes(&enc).unwrap();
    assert_eq!(decoded.inputs.len(), 3);
    for i in 0..3 {
        assert_eq!(decoded.inputs[i], inputs[i]);
    }
    assert_eq!(decoded, tx);
    assert_eq!(used, enc.len());
}

#[test]
fn transaction_truncation_fails() {
    let tx = BitcoinTransaction::new(2, vec![sample_input(4), sample_input(5)], 77);
    let enc = tx.to_bytes();
    for k in 0..enc.len() {
        assert_eq!(
            BitcoinTransaction::from_bytes(&enc[..k]),
            Err(BitcoinError::InsufficientBytes)
        );
    }
}

#[test]
fn transaction_decode_with_trailing_bytes_reports_consumed() {
    let tx = BitcoinTransaction::new(1, vec![sample_input(6)], 5);
    let mut enc = tx.to_bytes();
    let expected = enc.len();
    enc.extend_from_slice(&[0xEE, 0xFF]);
    let (decoded, used) = BitcoinTransaction::from_bytes(&enc).unwrap();
    assert_eq!(decoded, tx);
    assert_eq!(used, expected);
}

#[test]
fn txid_to_hex_is_lowercase_two_digits_per_byte() {
    let mut id = [0u8; 32];
    id[0] = 0xAB;
    id[1] = 0x01;
    id[31] = 0xFF;
    let hex = Txid(id).to_hex();
    let mut expected = String::from("ab01");
    expected.push_str(&"00".repeat(29));
    expected.push_str("ff");
    assert_eq!(hex, expected);
}

#[test]
fn txid_from_hex_round_trip_and_case_insensitivity() {
    let mut id = [0u8; 32];
    for (i, b) in id.iter_mut().enumerate() {
        *b = (7 * i) as u8;
    }
    let t = Txid(id);
    let hex = t.to_hex();
    assert_eq!(Txid::from_hex(&hex).unwrap(), t);
    assert_eq!(Txid::from_hex(&hex.to_uppercase()).unwrap(), t);
}

#[test]
fn txid_from_hex_rejects_bad_input() {
    assert_eq!(Txid::from_hex(""), Err(BitcoinError::InvalidFormat));
    // 63 digits: odd length
    assert_eq!(
        Txid::from_hex(&"0".repeat(63)),
        Err(BitcoinError::InvalidFormat)
    );
    // wrong length, though well-formed hex
    assert_eq!(
        Txid::from_hex(&"0".repeat(62)),
        Err(BitcoinError::InvalidFormat)
    );
    assert_eq!(
        Txid::from_hex(&"0".repeat(66)),
        Err(BitcoinError::InvalidFormat)
    );
    // right length, bad digit
    let mut s = "0".repeat(63);
    s.push('g');
    assert_eq!(Txid::from_hex(&s), Err(BitcoinError::InvalidFormat));
}

#[test]
fn render_lists_version_inputs_and_lock_time() {
    let inp = TransactionInput::new(
        OutPoint::new([0u8; 32], 9),
        Script::new(vec![1, 2, 3]),
        0xFFFF_FFFF,
    );
    let tx = BitcoinTransaction::new(1, vec![inp], 42);
    let expected = "Version: 1\n\
                    Previous Output Vout: 9\n\
                    ScriptSig Length: 3\n\
                    ScriptSig Bytes: [1, 2, 3]\n\
                    Lock Time: 42\n";
    assert_eq!(tx.render(), expected);
}

#[test]
fn render_of_empty_transaction() {
    let tx = BitcoinTransaction::new(3, vec![], 0);
    assert_eq!(tx.render(), "Version: 3\nLock Time: 0\n");
}
