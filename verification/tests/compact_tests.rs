use contracts_extrinsics::compact::{compact_decode, compact_encode};
use contracts_extrinsics::errors::DecodeError;
use parity_scale_codec::{Compact, Decode, Encode};

fn round_trip(v: u128) {
    let enc = compact_encode(v);
    let (back, end) = compact_decode(&enc, 0).expect("decoding an encoding succeeds");
    assert_eq!(back, v);
    assert_eq!(end, enc.len());
}

#[test]
fn encodes_boundary_values_at_minimal_length() {
    let cases: Vec<(u128, usize)> = vec![
        (0, 1),
        (63, 1),
        (64, 2),
        (16383, 2),
        (16384, 4),
        (1073741823, 4),
        (1073741824, 5),
        ((1u128 << 32) - 1, 5),
        (1u128 << 32, 6),
        (1u128 << 40, 7),
        ((1u128 << 64) - 1, 9),
        (1u128 << 64, 10),
        (u128::MAX, 17),
    ];
    for (v, len) in cases {
        let enc = compact_encode(v);
        assert_eq!(enc.len(), len, "length for {v}");
        round_trip(v);
    }
}

#[test]
fn encodes_exact_bytes() {
    assert_eq!(compact_encode(0), vec![0x00]);
    assert_eq!(compact_encode(1), vec![0x04]);
    assert_eq!(compact_encode(42), vec![0xa8]);
    assert_eq!(compact_encode(69), vec![0x15, 0x01]);
    assert_eq!(compact_encode(500), vec![0xd1, 0x07]);
    assert_eq!(compact_encode(16384), vec![0x02, 0x00, 0x01, 0x00]);
    assert_eq!(compact_encode(1073741824), vec![0x03, 0x00, 0x00, 0x00, 0x40]);
}

#[test]
fn agrees_with_the_reference_codec() {
    let values: Vec<u128> = vec![
        0,
        1,
        63,
        64,
        500,
        16383,
        16384,
        1073741823,
        1073741824,
        u64::MAX as u128,
        1u128 << 100,
        u128::MAX,
    ];
    for v in values {
        let ours = compact_encode(v);
        let reference = Compact(v).encode();
        assert_eq!(ours, reference, "encoding of {v}");
        let decoded = <Compact<u128>>::decode(&mut &ours[..]).expect("reference decodes ours");
        assert_eq!(decoded.0, v);
    }
}

#[test]
fn decodes_at_an_offset() {
    let mut buf = vec![0xff, 0xff];
    buf.extend(compact_encode(500));
    buf.push(0xee);
    let (v, end) = compact_decode(&buf, 2).expect("valid at offset");
    assert_eq!(v, 500);
    assert_eq!(end, 4);
}

#[test]
fn rejects_empty_input() {
    let buf: Vec<u8> = vec![];
    assert_eq!(compact_decode(&buf, 0), Err(DecodeError::Truncated));
}

#[test]
fn rejects_truncated_forms() {
    // Two-byte form with only one byte present.
    assert_eq!(compact_decode(&vec![0x15], 0), Err(DecodeError::Truncated));
    // Four-byte form with three bytes present.
    assert_eq!(compact_decode(&vec![0x02, 0x00, 0x01], 0), Err(DecodeError::Truncated));
    // Big form announcing five payload bytes with four present.
    assert_eq!(
        compact_decode(&vec![0x07, 0x01, 0x02, 0x03, 0x04], 0),
        Err(DecodeError::Truncated)
    );
}

#[test]
fn rejects_non_minimal_forms() {
    // 1 in the two-byte form.
    assert_eq!(compact_decode(&vec![0x05, 0x00], 0), Err(DecodeError::NonMinimal));
    // 64 in the four-byte form.
    assert_eq!(
        compact_decode(&vec![0x02, 0x01, 0x00, 0x00], 0),
        Err(DecodeError::NonMinimal)
    );
    // A big form whose top payload byte is zero.
    assert_eq!(
        compact_decode(&vec![0x07, 0x00, 0x00, 0x00, 0x40, 0x00], 0),
        Err(DecodeError::NonMinimal)
    );
    // A value below 2^30 in the five-byte big form.
    assert_eq!(
        compact_decode(&vec![0x07, 0xff, 0xff, 0xff, 0x3f, 0x00], 0),
        Err(DecodeError::NonMinimal)
    );
}

#[test]
fn rejects_payloads_wider_than_sixteen_bytes() {
    // First byte announcing 17 payload bytes.
    let mut buf = vec![0x37];
    buf.extend(std::iter::repeat(0xff).take(17));
    assert_eq!(compact_decode(&buf, 0), Err(DecodeError::ValueTooLarge));
}

#[test]
fn reference_codec_rejects_what_we_reject() {
    let non_minimal: Vec<Vec<u8>> = vec![
        vec![0x05, 0x00],
        vec![0x02, 0x01, 0x00, 0x00],
        vec![0x07, 0x00, 0x00, 0x00, 0x40, 0x00],
    ];
    for bytes in non_minimal {
        assert!(compact_decode(&bytes, 0).is_err());
        assert!(<Compact<u128>>::decode(&mut &bytes[..]).is_err());
    }
}
