use contracts_extrinsics::call::CallIndex;
use contracts_extrinsics::contracts::{Composer, ContractsExtrinsics};
use contracts_extrinsics::envelope::{envelope_to_bytes, ExtrinsicEnvelope, SignerContext};
use contracts_extrinsics::errors::ComposeError;
use contracts_extrinsics::resolver::{CallMetadata, MetadataEntry};

fn entry(module: &str, call: &str, m: u8, c: u8) -> MetadataEntry {
    MetadataEntry {
        module_name: module.to_owned(),
        call_name: call.to_owned(),
        index: CallIndex { module_index: m, call_index: c },
    }
}

fn snapshot() -> CallMetadata {
    let mut md = CallMetadata::new();
    assert!(md.register(entry("Contracts", "put_code", 8, 0)));
    assert!(md.register(entry("Contracts", "instantiate", 8, 1)));
    assert!(md.register(entry("Contracts", "instantiate_with_code", 8, 2)));
    assert!(md.register(entry("Contracts", "call", 8, 3)));
    md
}

fn unsigned_composer() -> Composer {
    Composer { metadata: snapshot(), signer: None }
}

fn call_bytes_of(env: &ExtrinsicEnvelope) -> Vec<u8> {
    match env {
        ExtrinsicEnvelope::Unsigned { call } => call.clone(),
        ExtrinsicEnvelope::Signed { call, .. } => call.clone(),
    }
}

#[test]
fn put_code_encodes_the_documented_scenario() {
    // Gas limit 500 and code [0x00, 0x01] against the resolved index
    // (8, 0) yield exactly the index bytes, the two-byte compact form of
    // 500, the one-byte compact form of 2, then the code.
    let composer = unsigned_composer();
    let env = composer.contract_put_code(500, vec![0x00, 0x01]).expect("composes");
    assert_eq!(
        call_bytes_of(&env),
        vec![0x08, 0x00, 0xd1, 0x07, 0x08, 0x00, 0x01]
    );
}

#[test]
fn an_unknown_call_name_fails_without_partial_state() {
    // A snapshot without the deployment call: composing fails with the
    // unknown-call error and no envelope exists.
    let mut md = CallMetadata::new();
    assert!(md.register(entry("Contracts", "call", 8, 3)));
    let composer = Composer { metadata: md, signer: None };
    let r = composer.contract_put_code(500, vec![0x00, 0x01]);
    assert!(matches!(r, Err(ComposeError::UnknownCall)));
}

#[test]
fn instantiate_orders_its_four_arguments() {
    let composer = unsigned_composer();
    let hash = vec![0x42; 32];
    let env = composer
        .contract_instantiate(1000, 500, hash.clone(), vec![0xaa, 0xbb])
        .expect("composes");
    let mut expected = vec![0x08, 0x01];
    expected.extend(vec![0xa1, 0x0f]); // compact(1000)
    expected.extend(vec![0xd1, 0x07]); // compact(500)
    expected.extend(hash); // fixed width, no prefix
    expected.extend(vec![0x08, 0xaa, 0xbb]); // compact(2) and the data
    assert_eq!(call_bytes_of(&env), expected);
}

#[test]
fn a_wrong_width_code_hash_is_malformed() {
    let composer = unsigned_composer();
    let r = composer.contract_instantiate(1000, 500, vec![0x42; 31], vec![]);
    assert!(matches!(r, Err(ComposeError::MalformedArgument)));
}

#[test]
fn empty_salt_and_data_are_still_length_prefixed() {
    // Instantiating with code and empty salt and data encodes both as
    // explicit zero-length prefixes, never omitted.
    let composer = unsigned_composer();
    let env = composer
        .contract_instantiate_with_code(1000, 500, vec![0x00, 0x61, 0x73, 0x6d], vec![], vec![])
        .expect("composes");
    let mut expected = vec![0x08, 0x02];
    expected.extend(vec![0xa1, 0x0f]); // compact(1000)
    expected.extend(vec![0xd1, 0x07]); // compact(500)
    expected.extend(vec![0x10, 0x00, 0x61, 0x73, 0x6d]); // compact(4) and the code
    expected.push(0x00); // compact(0): the empty data
    expected.push(0x00); // compact(0): the empty salt
    assert_eq!(call_bytes_of(&env), expected);
}

#[test]
fn contract_call_orders_its_four_arguments() {
    let composer = unsigned_composer();
    let dest = vec![0x11; 32];
    let env = composer
        .contract_call(dest.clone(), 300, 77, vec![0x01])
        .expect("composes");
    let mut expected = vec![0x08, 0x03];
    expected.extend(dest); // fixed width, no prefix
    expected.extend(vec![0xb1, 0x04]); // compact(300)
    expected.extend(vec![0x35, 0x01]); // compact(77)
    expected.extend(vec![0x04, 0x01]); // compact(1) and the data
    assert_eq!(call_bytes_of(&env), expected);
}

#[test]
fn a_wrong_width_destination_is_malformed() {
    let composer = unsigned_composer();
    let r = composer.contract_call(vec![0x11; 16], 300, 77, vec![]);
    assert!(matches!(r, Err(ComposeError::MalformedArgument)));
}

#[test]
fn a_held_signer_produces_a_signed_envelope() {
    let composer = Composer {
        metadata: snapshot(),
        signer: Some(SignerContext {
            address: vec![0x01; 32],
            signature: vec![0x02; 64],
            nonce: 3,
            tip: 0,
        }),
    };
    let env = composer.contract_put_code(500, vec![0x00, 0x01]).expect("composes");
    match &env {
        ExtrinsicEnvelope::Signed { address, signature, nonce, tip, .. } => {
            assert_eq!(*address, vec![0x01; 32]);
            assert_eq!(*signature, vec![0x02; 64]);
            assert_eq!(*nonce, 3);
            assert_eq!(*tip, 0);
        },
        ExtrinsicEnvelope::Unsigned { .. } => panic!("signer was held"),
    }
    let bytes = envelope_to_bytes(&env);
    // The body is 106 bytes, so the length prefix takes the two-byte
    // compact form and the signed version byte follows it.
    assert_eq!(bytes[0], 0xa9);
    assert_eq!(bytes[1], 0x01);
    assert_eq!(bytes[2], 0x84);
}

#[test]
fn a_held_malformed_signer_fails_structurally() {
    let composer = Composer {
        metadata: snapshot(),
        signer: Some(SignerContext {
            address: vec![0x01; 32],
            signature: vec![0x02; 10],
            nonce: 0,
            tip: 0,
        }),
    };
    let r = composer.contract_put_code(500, vec![]);
    assert!(matches!(r, Err(ComposeError::InvalidSignatureFormat)));
}
