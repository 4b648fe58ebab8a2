use did_ledger::ledger::deletion_output;
use did_ledger::ledger::documents_from_outputs;
use did_ledger::ledger::network_name_from_hrp;
use did_ledger::ledger::new_record;
use did_ledger::ledger::pack_state;
use did_ledger::ledger::resolve_record;
use did_ledger::ledger::single_document;
use did_ledger::ledger::tag_is_null;
use did_ledger::ledger::unpack_state;
use did_ledger::ledger::update_record;
use did_ledger::ledger::Address;
use did_ledger::ledger::BasicRecord;
use did_ledger::ledger::Did;
use did_ledger::ledger::LedgerError;
use did_ledger::ledger::LedgerOutput;
use did_ledger::ledger::NetworkName;
use did_ledger::ledger::StateMetadataEncoding;

fn address() -> Address {
    Address::Ed25519([7u8; 32])
}

fn network() -> NetworkName {
    NetworkName::try_new("smr".to_string()).unwrap()
}

#[test]
fn pack_prefixes_the_encoding_tag() {
    assert_eq!(pack_state(StateMetadataEncoding::Json, &[1, 2, 3]), vec![0, 1, 2, 3]);
    assert_eq!(pack_state(StateMetadataEncoding::Json, &[]), vec![0]);
}

#[test]
fn unpack_reads_the_payload_or_fails() {
    assert_eq!(unpack_state(&[0, 9, 8]), Ok(vec![9, 8]));
    assert_eq!(unpack_state(&[0]), Ok(vec![]));
    assert_eq!(unpack_state(&[]), Err(LedgerError::Codec));
    assert_eq!(unpack_state(&[1, 9]), Err(LedgerError::Codec));
}

#[test]
fn new_record_is_unpublished() {
    let record = new_record(address(), b"{}", 500);
    assert_eq!(record.state_index, 0);
    assert!(tag_is_null(&record.alias_id));
    assert_eq!(record.state_metadata, vec![0, b'{', b'}']);
    assert_eq!(record.amount, 500);
    assert_eq!(record.foundry_counter, 0);
    assert_eq!(record.sender, address());
    assert_eq!(record.issuer, address());
    assert_eq!(record.state_controller, address());
    assert_eq!(record.governor, address());
}

#[test]
fn update_raises_the_state_index_by_one_each_time() {
    let tag = [3u8; 32];
    let record = new_record(address(), b"a", 500);
    let first = update_record(&LedgerOutput::Alias(record), tag, b"b", 600).unwrap();
    assert_eq!(first.state_index, 1);
    assert_eq!(first.alias_id, tag);
    assert_eq!(first.state_metadata, vec![0, b'b']);
    assert_eq!(first.amount, 600);
    let second = update_record(&LedgerOutput::Alias(first.clone()), [4u8; 32], b"c", 700).unwrap();
    assert_eq!(second.state_index, first.state_index + 1);
    assert_eq!(second.alias_id, tag);
    assert_eq!(second.governor, address());
}

#[test]
fn update_of_other_outputs_fails() {
    let basic = LedgerOutput::Basic(BasicRecord { amount: 5, address: address() });
    assert_eq!(update_record(&basic, [1u8; 32], b"x", 1), Err(LedgerError::NotARecord));
    assert_eq!(update_record(&LedgerOutput::Other(5), [1u8; 32], b"x", 1), Err(LedgerError::NotARecord));
}

#[test]
fn update_at_the_largest_state_index_fails() {
    let mut record = new_record(address(), b"a", 500);
    record.state_index = u32::MAX;
    assert_eq!(update_record(&LedgerOutput::Alias(record), [1u8; 32], b"b", 1), Err(LedgerError::RecordBuild));
}

#[test]
fn deletion_keeps_the_value_for_the_new_owner() {
    let record = new_record(address(), b"a", 900);
    let owner = Address::Alias([2u8; 32]);
    assert_eq!(
        deletion_output(&LedgerOutput::Alias(record), owner),
        Ok(BasicRecord { amount: 900, address: owner })
    );
    assert_eq!(deletion_output(&LedgerOutput::Other(3), owner), Err(LedgerError::NotARecord));
}

#[test]
fn network_name_must_be_present_and_non_empty() {
    assert_eq!(network_name_from_hrp(None), Err(LedgerError::InvalidNetworkName));
    assert_eq!(network_name_from_hrp(Some(String::new())), Err(LedgerError::InvalidNetworkName));
    assert_eq!(network_name_from_hrp(Some("rms".to_string())).unwrap().as_str(), "rms");
}

#[test]
fn scanning_yields_one_document_per_record_in_order() {
    let transaction_id = [9u8; 32];
    let fresh = new_record(address(), b"first", 10);
    let mut published = new_record(address(), b"second", 10);
    published.alias_id = [5u8; 32];
    let outputs = vec![
        LedgerOutput::Basic(BasicRecord { amount: 1, address: address() }),
        LedgerOutput::Alias(fresh),
        LedgerOutput::Other(4),
        LedgerOutput::Alias(published),
    ];
    let documents = documents_from_outputs(transaction_id, &outputs, &network()).unwrap();
    assert_eq!(documents.len(), 2);
    assert_eq!(documents[0].payload, b"first".to_vec());
    assert!(!tag_is_null(&documents[0].did.tag));
    assert_ne!(documents[0].did.tag, transaction_id);
    assert_eq!(documents[1].payload, b"second".to_vec());
    assert_eq!(documents[1].did.tag, [5u8; 32]);
    assert_eq!(documents[1].did.network.as_str(), "smr");
}

#[test]
fn derived_tags_depend_on_the_output_position() {
    let transaction_id = [9u8; 32];
    let outputs = vec![
        LedgerOutput::Alias(new_record(address(), b"a", 10)),
        LedgerOutput::Alias(new_record(address(), b"a", 10)),
    ];
    let documents = documents_from_outputs(transaction_id, &outputs, &network()).unwrap();
    assert_eq!(documents.len(), 2);
    assert_ne!(documents[0].did.tag, documents[1].did.tag);
}

#[test]
fn scanning_without_records_yields_nothing() {
    let outputs = vec![LedgerOutput::Other(1)];
    assert_eq!(documents_from_outputs([0u8; 32], &outputs, &network()).unwrap().len(), 0);
    assert_eq!(documents_from_outputs([0u8; 32], &[], &network()).unwrap().len(), 0);
}

#[test]
fn scanning_a_malformed_record_fails() {
    let mut record = new_record(address(), b"a", 10);
    record.state_metadata = vec![4, 1];
    let outputs = vec![LedgerOutput::Alias(record)];
    assert_eq!(documents_from_outputs([0u8; 32], &outputs, &network()), Err(LedgerError::Codec));
}

#[test]
fn scanning_past_the_last_output_index_fails() {
    let mut outputs: Vec<LedgerOutput> = (0..128).map(|_| LedgerOutput::Other(1)).collect();
    outputs.push(LedgerOutput::Alias(new_record(address(), b"a", 10)));
    assert_eq!(documents_from_outputs([0u8; 32], &outputs, &network()), Err(LedgerError::InvalidOutputIndex));
}

#[test]
fn publication_needs_exactly_one_document() {
    assert_eq!(single_document(vec![]), Err(LedgerError::ExpectedExactlyOneDocument));
    let outputs = vec![
        LedgerOutput::Alias(new_record(address(), b"a", 10)),
        LedgerOutput::Alias(new_record(address(), b"b", 10)),
    ];
    let documents = documents_from_outputs([1u8; 32], &outputs, &network()).unwrap();
    assert_eq!(single_document(documents), Err(LedgerError::ExpectedExactlyOneDocument));
}

#[test]
fn published_document_resolves_to_itself() {
    let record = new_record(address(), b"{\"id\":1}", 10);
    let outputs = vec![LedgerOutput::Alias(record.clone())];
    let published = single_document(documents_from_outputs([8u8; 32], &outputs, &network()).unwrap()).unwrap();
    assert_eq!(published.payload, b"{\"id\":1}".to_vec());
    let resolved = resolve_record(&LedgerOutput::Alias(record), published.did.tag, &network()).unwrap();
    assert_eq!(published, resolved);
}

#[test]
fn resolving_other_outputs_fails() {
    assert_eq!(resolve_record(&LedgerOutput::Other(1), [1u8; 32], &network()), Err(LedgerError::NotARecord));
    let mut record = new_record(address(), b"a", 10);
    record.state_metadata = vec![];
    assert_eq!(resolve_record(&LedgerOutput::Alias(record), [1u8; 32], &network()), Err(LedgerError::Codec));
}

#[test]
fn did_tags_parse_from_prefixed_hex() {
    let upper = format!("0x{}", "A".repeat(64));
    let did = Did::parse(&network(), &upper).unwrap();
    assert_eq!(did.tag, [0xAAu8; 32]);
    assert_eq!(did.network.as_str(), "smr");
    let mixed = format!("0x0f{}", "1a".repeat(31));
    let mut expected = [0x1au8; 32];
    expected[0] = 0x0f;
    assert_eq!(Did::parse(&network(), &mixed).unwrap().tag, expected);
}

#[test]
fn malformed_did_tags_are_refused() {
    assert_eq!(Did::parse(&network(), &"A".repeat(66)), Err(LedgerError::Parse));
    assert_eq!(Did::parse(&network(), &format!("0x{}", "A".repeat(63))), Err(LedgerError::Parse));
    assert_eq!(Did::parse(&network(), &format!("0x{}", "A".repeat(66))), Err(LedgerError::Parse));
    assert_eq!(Did::parse(&network(), &format!("0x{}g", "A".repeat(63))), Err(LedgerError::Parse));
    assert_eq!(Did::parse(&network(), ""), Err(LedgerError::Parse));
}

#[test]
fn non_ascii_did_tags_are_refused() {
    assert_eq!(Did::parse(&network(), "\u{e9}"), Err(LedgerError::Parse));
    assert_eq!(Did::parse(&network(), &format!("0x{}\u{e9}", "A".repeat(63))), Err(LedgerError::Parse));
    assert_eq!(Did::parse(&network(), &"\u{e9}".repeat(66)), Err(LedgerError::Parse));
}
