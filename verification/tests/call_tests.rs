use contracts_extrinsics::call::{decode_call, encode_call, ArgShape, CallArg, CallIndex};
use contracts_extrinsics::errors::DecodeError;
use parity_scale_codec::{Compact, Encode};

#[test]
fn encodes_a_code_deployment_call_exactly() {
    // A code-deployment call with gas limit 500 and code [0x00, 0x01]
    // against the resolved index (8, 0): the two index bytes, the two-byte
    // compact form of 500, the one-byte compact length 2, then the code.
    let index = CallIndex { module_index: 8, call_index: 0 };
    let args = vec![CallArg::Compact(500), CallArg::Bytes(vec![0x00, 0x01])];
    let bytes = encode_call(index, &args);
    assert_eq!(bytes, vec![0x08, 0x00, 0xd1, 0x07, 0x08, 0x00, 0x01]);
}

#[test]
fn encoding_is_deterministic() {
    let index = CallIndex { module_index: 1, call_index: 2 };
    let args = vec![
        CallArg::Compact(77),
        CallArg::Bytes(vec![9, 8, 7]),
        CallArg::Fixed(vec![0xaa; 32]),
    ];
    let first = encode_call(index, &args);
    let second = encode_call(index, &args);
    assert_eq!(first, second);
}

#[test]
fn distinct_arguments_of_one_shape_encode_differently() {
    let index = CallIndex { module_index: 1, call_index: 2 };
    let a = encode_call(index, &vec![CallArg::Compact(1), CallArg::Bytes(vec![5])]);
    let b = encode_call(index, &vec![CallArg::Compact(2), CallArg::Bytes(vec![5])]);
    let c = encode_call(index, &vec![CallArg::Compact(1), CallArg::Bytes(vec![6])]);
    assert_ne!(a, b);
    assert_ne!(a, c);
    assert_ne!(b, c);
}

#[test]
fn agrees_with_the_reference_codec_on_a_tuple() {
    // The reference encoding of ((8u8, 0u8), Compact(500u64), code) — the
    // shape of a code-deployment call.
    let code: Vec<u8> = vec![0x00, 0x01];
    let reference = ((8u8, 0u8), Compact(500u64), code.clone()).encode();
    let index = CallIndex { module_index: 8, call_index: 0 };
    let args = vec![CallArg::Compact(500), CallArg::Bytes(code)];
    assert_eq!(encode_call(index, &args), reference);
}

#[test]
fn decodes_what_it_encoded() {
    let index = CallIndex { module_index: 3, call_index: 9 };
    let args = vec![
        CallArg::Compact(1073741824),
        CallArg::Fixed(vec![0x11; 32]),
        CallArg::Bytes(vec![1, 2, 3, 4, 5]),
        CallArg::Bytes(vec![]),
    ];
    let shapes = vec![ArgShape::Compact, ArgShape::Fixed(32), ArgShape::Bytes, ArgShape::Bytes];
    let bytes = encode_call(index, &args);
    let (back_index, back_args) = decode_call(&shapes, &bytes).expect("round trip");
    assert_eq!(back_index, index);
    assert_eq!(back_args.len(), 4);
    assert!(matches!(back_args[0], CallArg::Compact(1073741824)));
    assert!(matches!(&back_args[1], CallArg::Fixed(b) if *b == vec![0x11; 32]));
    assert!(matches!(&back_args[2], CallArg::Bytes(b) if *b == vec![1, 2, 3, 4, 5]));
    assert!(matches!(&back_args[3], CallArg::Bytes(b) if b.is_empty()));
}

#[test]
fn rejects_a_call_shorter_than_its_index() {
    let shapes: Vec<ArgShape> = vec![];
    assert_eq!(decode_call(&shapes, &vec![0x08]), Err(DecodeError::Truncated));
}

#[test]
fn rejects_trailing_bytes() {
    let index = CallIndex { module_index: 8, call_index: 0 };
    let args = vec![CallArg::Compact(500)];
    let mut bytes = encode_call(index, &args);
    bytes.push(0xff);
    let shapes = vec![ArgShape::Compact];
    assert_eq!(decode_call(&shapes, &bytes), Err(DecodeError::LengthMismatch));
}

#[test]
fn rejects_a_truncated_buffer_argument() {
    // A buffer announcing three bytes with two present.
    let bytes = vec![0x08, 0x00, 0x0c, 0x01, 0x02];
    let shapes = vec![ArgShape::Bytes];
    assert_eq!(decode_call(&shapes, &bytes), Err(DecodeError::Truncated));
}

#[test]
fn rejects_a_truncated_fixed_argument() {
    let bytes = vec![0x08, 0x00, 0x01, 0x02];
    let shapes = vec![ArgShape::Fixed(32)];
    assert_eq!(decode_call(&shapes, &bytes), Err(DecodeError::Truncated));
}
