use contracts_extrinsics::call::{decode_call, encode_call, ArgShape, CallArg, CallIndex};
use contracts_extrinsics::envelope::{
    build_envelope, decode_envelope, envelope_to_bytes, ExtrinsicEnvelope, SignerContext,
};
use contracts_extrinsics::errors::{ComposeError, DecodeError};

fn signer() -> SignerContext {
    SignerContext {
        address: vec![0xab; 32],
        signature: vec![0xcd; 64],
        nonce: 7,
        tip: 250,
    }
}

#[test]
fn an_unsigned_envelope_round_trips() {
    let call = vec![0x08, 0x00, 0xd1, 0x07];
    let env = build_envelope(call.clone(), None).expect("unsigned always builds");
    let bytes = envelope_to_bytes(&env);
    // Compact length 5, version byte 4, then the call.
    assert_eq!(bytes, vec![0x14, 0x04, 0x08, 0x00, 0xd1, 0x07]);
    let back = decode_envelope(&bytes).expect("canonical bytes parse");
    match back {
        ExtrinsicEnvelope::Unsigned { call: c } => assert_eq!(c, call),
        ExtrinsicEnvelope::Signed { .. } => panic!("came back signed"),
    }
}

#[test]
fn a_signed_envelope_round_trips_with_all_fields() {
    // Construct a signed envelope around a real encoded call, serialize
    // it, re-parse the canonical bytes, and recover the call index, the
    // arguments, and every signer field exactly.
    let index = CallIndex { module_index: 8, call_index: 0 };
    let args = vec![CallArg::Compact(500), CallArg::Bytes(vec![0x00, 0x01])];
    let call = encode_call(index, &args);
    let env = build_envelope(call.clone(), Some(signer())).expect("well-formed signer");
    let bytes = envelope_to_bytes(&env);
    let back = decode_envelope(&bytes).expect("canonical bytes parse");
    match back {
        ExtrinsicEnvelope::Signed { address, signature, nonce, tip, call: c } => {
            assert_eq!(address, vec![0xab; 32]);
            assert_eq!(signature, vec![0xcd; 64]);
            assert_eq!(nonce, 7);
            assert_eq!(tip, 250);
            assert_eq!(c, call);
            let shapes = vec![ArgShape::Compact, ArgShape::Bytes];
            let (back_index, back_args) = decode_call(&shapes, &c).expect("call parses");
            assert_eq!(back_index, index);
            assert!(matches!(back_args[0], CallArg::Compact(500)));
            assert!(matches!(&back_args[1], CallArg::Bytes(b) if *b == vec![0x00, 0x01]));
        },
        ExtrinsicEnvelope::Unsigned { .. } => panic!("came back unsigned"),
    }
}

#[test]
fn a_short_signature_is_a_format_error() {
    let bad = SignerContext {
        address: vec![0xab; 32],
        signature: vec![0xcd; 63],
        nonce: 0,
        tip: 0,
    };
    assert!(matches!(
        build_envelope(vec![1, 2], Some(bad)),
        Err(ComposeError::InvalidSignatureFormat)
    ));
}

#[test]
fn a_short_address_is_a_format_error() {
    let bad = SignerContext {
        address: vec![0xab; 20],
        signature: vec![0xcd; 64],
        nonce: 0,
        tip: 0,
    };
    assert!(matches!(
        build_envelope(vec![1, 2], Some(bad)),
        Err(ComposeError::InvalidSignatureFormat)
    ));
}

#[test]
fn a_wrong_length_prefix_is_rejected() {
    // Claims four bytes of body; five follow.
    let bytes = vec![0x10, 0x04, 0x01, 0x02, 0x03, 0x04];
    assert_eq!(decode_envelope(&bytes), Err(DecodeError::LengthMismatch));
    // Claims five bytes of body; four follow.
    let bytes = vec![0x14, 0x04, 0x01, 0x02, 0x03];
    assert_eq!(decode_envelope(&bytes), Err(DecodeError::LengthMismatch));
}

#[test]
fn an_unknown_version_byte_is_rejected() {
    let bytes = vec![0x0c, 0x05, 0x01, 0x02];
    assert_eq!(decode_envelope(&bytes), Err(DecodeError::UnsupportedVersion));
}

#[test]
fn a_truncated_signer_block_is_rejected() {
    // A signed version byte with far too few bytes behind it.
    let bytes = vec![0x0c, 0x84, 0x01, 0x02];
    assert_eq!(decode_envelope(&bytes), Err(DecodeError::Truncated));
}
