use contracts_extrinsics::call::CallIndex;
use contracts_extrinsics::errors::ComposeError;
use contracts_extrinsics::resolver::{CallMetadata, MetadataEntry};

fn entry(module: &str, call: &str, m: u8, c: u8) -> MetadataEntry {
    MetadataEntry {
        module_name: module.to_owned(),
        call_name: call.to_owned(),
        index: CallIndex { module_index: m, call_index: c },
    }
}

fn contracts_snapshot() -> CallMetadata {
    let mut md = CallMetadata::new();
    assert!(md.register(entry("Contracts", "put_code", 8, 0)));
    assert!(md.register(entry("Contracts", "instantiate", 8, 1)));
    assert!(md.register(entry("Contracts", "instantiate_with_code", 8, 2)));
    assert!(md.register(entry("Contracts", "call", 8, 3)));
    assert!(md.register(entry("Balances", "transfer", 5, 0)));
    md
}

#[test]
fn resolves_every_registered_pair() {
    let md = contracts_snapshot();
    let index = md
        .lookup(&"Contracts".to_owned(), &"instantiate".to_owned())
        .expect("present pair resolves");
    assert_eq!(index, CallIndex { module_index: 8, call_index: 1 });
    let other = md
        .lookup(&"Balances".to_owned(), &"transfer".to_owned())
        .expect("present pair resolves");
    assert_eq!(other, CallIndex { module_index: 5, call_index: 0 });
}

#[test]
fn repeated_lookups_return_the_identical_index() {
    let md = contracts_snapshot();
    let module = "Contracts".to_owned();
    let call = "call".to_owned();
    let first = md.lookup(&module, &call).expect("present");
    let second = md.lookup(&module, &call).expect("present");
    assert_eq!(first, second);
    assert_eq!(first, CallIndex { module_index: 8, call_index: 3 });
}

#[test]
fn an_absent_call_name_is_unknown() {
    // Looking up a call the pallet does not declare fails with the
    // unknown-call error and leaves no partial state behind.
    let md = contracts_snapshot();
    let r = md.lookup(&"Contracts".to_owned(), &"nonexistent_call".to_owned());
    assert_eq!(r, Err(ComposeError::UnknownCall));
    // The snapshot is untouched: the same lookups still resolve.
    assert!(md.lookup(&"Contracts".to_owned(), &"put_code".to_owned()).is_ok());
}

#[test]
fn an_absent_module_name_is_unknown() {
    let md = contracts_snapshot();
    let r = md.lookup(&"Lottery".to_owned(), &"buy_ticket".to_owned());
    assert_eq!(r, Err(ComposeError::UnknownCall));
}

#[test]
fn a_duplicate_pair_is_not_registered_twice() {
    let mut md = contracts_snapshot();
    assert!(!md.register(entry("Contracts", "put_code", 9, 9)));
    let index = md
        .lookup(&"Contracts".to_owned(), &"put_code".to_owned())
        .expect("still present");
    assert_eq!(index, CallIndex { module_index: 8, call_index: 0 });
}
