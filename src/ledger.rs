//! DID documents held as versioned alias records on the ledger: composing a
//! new record, updating one, the record that replaces a deleted one, and
//! reading documents back out of records and confirmed transactions.
use vstd::prelude::*;

verus! {

/// Why an operation on a ledger record failed.
#[derive(PartialEq, Eq, Structural, Clone, Copy, Debug)]
pub enum LedgerError {
    /// The ledger output is not an alias record.
    NotARecord,
    /// The state bytes of a record do not hold a packed document.
    Codec,
    /// A record could not be built (its state index would overflow).
    RecordBuild,
    /// The network reported no name, or an empty one.
    InvalidNetworkName,
    /// An output index that no output identifier can hold.
    InvalidOutputIndex,
    /// Publication yielded no document, or more than one.
    ExpectedExactlyOneDocument,
    /// A tag's text is not `0x` and 64 hexadecimal digits.
    Parse,
}

/// The tag byte that precedes a JSON payload in a record's state bytes.
pub const JSON_ENCODING_TAG: u8 = 0;

/// How a document is encoded in a record's state bytes.
#[derive(PartialEq, Eq, Structural, Clone, Copy, Debug)]
pub enum StateMetadataEncoding {
    Json,
}

/// The state bytes that hold `payload`: the encoding tag, then the payload.
pub open spec fn packed_state(payload: Seq<u8>) -> Seq<u8> {
    seq![JSON_ENCODING_TAG] + payload
}

/// The payload held by state bytes, if they start with a known encoding tag.
pub open spec fn unpacked_state(bytes: Seq<u8>) -> Option<Seq<u8>> {
    if bytes.len() > 0 && bytes[0] == JSON_ENCODING_TAG {
        Some(bytes.drop_first())
    } else {
        None
    }
}

/// Packs an encoded document into state bytes.
pub fn pack_state(encoding: StateMetadataEncoding, payload: &[u8]) -> (r: Vec<u8>)
    ensures
        r@ == packed_state(payload@),
{
    let mut r: Vec<u8> = Vec::new();
    match encoding {
        StateMetadataEncoding::Json => r.push(JSON_ENCODING_TAG),
    }
    let mut i: usize = 0;
    while i < payload.len()
        invariant
            i <= payload@.len(),
            r@ == seq![JSON_ENCODING_TAG] + payload@.take(i as int),
        decreases payload@.len() - i,
    {
        r.push(payload[i]);
        i = i + 1;
        assert(r@ =~= seq![JSON_ENCODING_TAG] + payload@.take(i as int));
    }
    assert(payload@.take(i as int) =~= payload@);
    r
}

/// Reads the encoded document out of state bytes.
pub fn unpack_state(bytes: &[u8]) -> (r: Result<Vec<u8>, LedgerError>)
    ensures
        r is Ok <==> unpacked_state(bytes@) is Some,
        r matches Ok(p) ==> unpacked_state(bytes@) == Some(p@),
        r matches Err(e) ==> e == LedgerError::Codec,
{
    if bytes.len() == 0 || bytes[0] != JSON_ENCODING_TAG {
        return Err(LedgerError::Codec);
    }
    let mut r: Vec<u8> = Vec::new();
    let mut i: usize = 1;
    while i < bytes.len()
        invariant
            1 <= i <= bytes@.len(),
            r@ == bytes@.subrange(1, i as int),
        decreases bytes@.len() - i,
    {
        r.push(bytes[i]);
        i = i + 1;
        assert(r@ =~= bytes@.subrange(1, i as int));
    }
    assert(r@ =~= bytes@.drop_first());
    Ok(r)
}

/// Unpacking packed state bytes gives back the payload.
pub proof fn unpack_after_pack(payload: Seq<u8>)
    ensures
        unpacked_state(packed_state(payload)) == Some(payload),
{
    assert(packed_state(payload).drop_first() =~= payload);
}

/// A ledger record's tag is null when every byte of it is zero.
pub open spec fn is_null_tag(tag: Seq<u8>) -> bool {
    forall|i: int| 0 <= i < tag.len() ==> tag[i] == 0
}

/// Whether `tag` is the null tag.
pub fn tag_is_null(tag: &[u8; 32]) -> (r: bool)
    ensures
        r == is_null_tag(tag@),
{
    let mut i: usize = 0;
    while i < 32
        invariant
            i <= 32,
            tag@.len() == 32,
            forall|j: int| 0 <= j < i ==> tag@[j] == 0,
        decreases 32 - i,
    {
        if tag[i] != 0 {
            return false;
        }
        i = i + 1;
    }
    true
}

/// The identifier that the ledger gives to an alias record created with a
/// null tag, as output `index` of transaction `transaction_id`.
pub uninterp spec fn alias_id_of_output(transaction_id: Seq<u8>, index: u16) -> Seq<u8>;

/// Relies on iota-types' `OutputId::new`, which accepts an output index up to
/// 127 and no more, and on `AliasId::from(&OutputId)`, the digest of the
/// output identifier that names an alias created with a null identifier.
#[verifier::external_body]
fn derive_alias_id(transaction_id: [u8; 32], index: u16) -> (r: Option<[u8; 32]>)
    ensures
        r is Some <==> index <= 127,
        r matches Some(id) ==> id@ == alias_id_of_output(transaction_id@, index),
{
    let transaction_id = iota_client::block::payload::transaction::TransactionId::new(transaction_id);
    match iota_client::block::output::OutputId::new(transaction_id, index) {
        Ok(output_id) => Some(*iota_client::block::output::AliasId::from(&output_id)),
        Err(_) => None,
    }
}

/// The value of a hexadecimal digit, in either case.
pub open spec fn hex_digit_value(c: char) -> Option<int> {
    if '0' <= c && c <= '9' {
        Some(c as int - '0' as int)
    } else if 'a' <= c && c <= 'f' {
        Some(c as int - 'a' as int + 10)
    } else if 'A' <= c && c <= 'F' {
        Some(c as int - 'A' as int + 10)
    } else {
        None
    }
}

/// The text of a tag: `0x`, then two hexadecimal digits for each of its 32
/// bytes.
pub open spec fn is_tag_text(s: Seq<char>) -> bool {
    &&& s.len() == 66
    &&& s[0] == '0'
    &&& s[1] == 'x'
    &&& forall|i: int| 2 <= i < 66 ==> (#[trigger] hex_digit_value(s[i])) is Some
}

/// The tag written as `s`, high digit first in each byte.
pub open spec fn tag_of_text(s: Seq<char>) -> Seq<u8> {
    Seq::new(
        32,
        |i: int|
            (hex_digit_value(s[2 + 2 * i])->Some_0 * 16 + hex_digit_value(s[3 + 2 * i])->Some_0) as u8,
    )
}

/// Relies on iota-types' `AliasId::from_str`, which decodes `0x` and 64
/// hexadecimal digits of either case (prefix_hex over hex's
/// `decode_to_slice`) and refuses every other text. prefix_hex reads the
/// first two characters of a text without the prefix, so the text must hold
/// at least two; the tag length is asked for here.
#[verifier::external_body]
fn parse_alias_id(s: &str) -> (r: Option<[u8; 32]>)
    requires
        s@.len() == 66,
    ensures
        r is Some <==> is_tag_text(s@),
        r matches Some(tag) ==> tag@ == tag_of_text(s@),
{
    match <iota_client::block::output::AliasId as core::str::FromStr>::from_str(s) {
        Ok(alias_id) => Some(*alias_id),
        Err(_) => None,
    }
}

/// The human-readable name of a ledger network; never empty.
#[derive(Clone, Debug, PartialEq, Eq)]
pub struct NetworkName {
    name: String,
}

impl View for NetworkName {
    type V = Seq<char>;

    closed spec fn view(&self) -> Seq<char> {
        self.name@
    }
}

impl NetworkName {
    /// Accepts `name` as a network name unless it is empty.
    pub fn try_new(name: String) -> (r: Result<NetworkName, LedgerError>)
        ensures
            r is Ok <==> name@.len() > 0,
            r matches Ok(n) ==> n@ == name@,
            r matches Err(e) ==> e == LedgerError::InvalidNetworkName,
    {
        if name.as_str().unicode_len() == 0 {
            Err(LedgerError::InvalidNetworkName)
        } else {
            Ok(NetworkName { name })
        }
    }

    /// The name as text.
    pub fn as_str(&self) -> (r: &str)
        ensures
            r@ == self@,
    {
        self.name.as_str()
    }

    fn duplicate(&self) -> (r: NetworkName)
        ensures
            r@ == self@,
    {
        NetworkName { name: self.name.clone() }
    }
}

/// The network name from the network's reported human-readable prefix.
pub fn network_name_from_hrp(hrp: Option<String>) -> (r: Result<NetworkName, LedgerError>)
    ensures
        r is Ok <==> (hrp matches Some(s) && s@.len() > 0),
        r matches Ok(n) ==> hrp matches Some(s) && n@ == s@,
        r matches Err(e) ==> e == LedgerError::InvalidNetworkName,
{
    match hrp {
        Some(s) => NetworkName::try_new(s),
        None => Err(LedgerError::InvalidNetworkName),
    }
}

/// A decentralized identifier: a network name and the tag of the record
/// that holds the identity's document.
#[derive(Clone, Debug, PartialEq, Eq)]
pub struct Did {
    pub network: NetworkName,
    pub tag: [u8; 32],
}

impl View for Did {
    type V = (Seq<char>, Seq<u8>);

    open spec fn view(&self) -> (Seq<char>, Seq<u8>) {
        (self.network@, self.tag@)
    }
}

impl Did {
    /// The identifier on network `network` whose tag is written `tag` (`0x`
    /// and 64 hexadecimal digits).
    pub fn parse(network: &NetworkName, tag: &str) -> (r: Result<Did, LedgerError>)
        ensures
            r is Ok <==> is_tag_text(tag@),
            r matches Ok(d) ==> d@ == (network@, tag_of_text(tag@)),
            r matches Err(e) ==> e == LedgerError::Parse,
    {
        if tag.unicode_len() != 66 {
            return Err(LedgerError::Parse);
        }
        match parse_alias_id(tag) {
            Some(tag) => Ok(Did { network: network.duplicate(), tag }),
            None => Err(LedgerError::Parse),
        }
    }
}

/// The address that controls a record, or that a deleted record's value is
/// sent to.
#[derive(Clone, Copy, Debug, PartialEq, Eq)]
pub enum Address {
    Ed25519([u8; 32]),
    Alias([u8; 32]),
    Nft([u8; 32]),
}

/// An alias record: the ledger output that holds one version of a document.
#[derive(Clone, Debug, PartialEq, Eq)]
pub struct LedgerRecord {
    /// The record's tag; null until the record is first published.
    pub alias_id: [u8; 32],
    /// The version counter, raised by one on every update.
    pub state_index: u32,
    /// The packed document.
    pub state_metadata: Vec<u8>,
    /// The value the record holds, its minimum storage deposit.
    pub amount: u64,
    pub foundry_counter: u32,
    pub sender: Address,
    pub issuer: Address,
    pub state_controller: Address,
    pub governor: Address,
}

/// A plain value-holding output, unlockable by one address.
#[derive(Clone, Copy, Debug, PartialEq, Eq)]
pub struct BasicRecord {
    pub amount: u64,
    pub address: Address,
}

/// An output of the ledger, as far as this library tells outputs apart.
#[derive(Clone, Debug, PartialEq, Eq)]
pub enum LedgerOutput {
    Alias(LedgerRecord),
    Basic(BasicRecord),
    /// Any other kind of output, with the value it holds.
    Other(u64),
}

/// The unpublished record for a document packed as `payload`, controlled by
/// `address` and holding `deposit`.
pub open spec fn is_new_record(r: LedgerRecord, address: Address, payload: Seq<u8>, deposit: u64) -> bool {
    &&& is_null_tag(r.alias_id@)
    &&& r.state_index == 0
    &&& r.foundry_counter == 0
    &&& r.state_metadata@ == packed_state(payload)
    &&& r.amount == deposit
    &&& r.sender == address
    &&& r.issuer == address
    &&& r.state_controller == address
    &&& r.governor == address
}

/// Composes the unpublished record for a document: state index 0, a null
/// tag, the document packed as its state, `address` as sender, issuer, state
/// controller and governor, and `deposit`, the minimum storage deposit, as
/// its value. The ledger is not touched.
pub fn new_record(address: Address, payload: &[u8], deposit: u64) -> (r: LedgerRecord)
    ensures
        is_new_record(r, address, payload@, deposit),
{
    let state_metadata = pack_state(StateMetadataEncoding::Json, payload);
    let alias_id = [0u8; 32];
    assert(is_null_tag(alias_id@));
    LedgerRecord {
        alias_id,
        state_index: 0,
        state_metadata,
        amount: deposit,
        foundry_counter: 0,
        sender: address,
        issuer: address,
        state_controller: address,
        governor: address,
    }
}

/// `next` is `current` updated with a document packed as `payload` under tag
/// `alias_id`, holding `deposit`.
pub open spec fn is_update_of(
    next: LedgerRecord,
    current: LedgerRecord,
    alias_id: Seq<u8>,
    payload: Seq<u8>,
    deposit: u64,
) -> bool {
    &&& next.state_index == current.state_index + 1
    &&& next.state_metadata@ == packed_state(payload)
    &&& next.amount == deposit
    &&& next.alias_id@ == (if is_null_tag(current.alias_id@) {
        alias_id
    } else {
        current.alias_id@
    })
    &&& next.foundry_counter == current.foundry_counter
    &&& next.sender == current.sender
    &&& next.issuer == current.issuer
    &&& next.state_controller == current.state_controller
    &&& next.governor == current.governor
}

/// Updates the record found on the ledger for a document's identifier
/// `alias_id` with the document packed as `payload`: the state index rises by
/// one, the state and the deposit are replaced, and a null tag becomes
/// `alias_id`. Fails if `current` is no alias record, or if its state index
/// is already the largest one.
pub fn update_record(current: &LedgerOutput, alias_id: [u8; 32], payload: &[u8], deposit: u64) -> (r:
    Result<LedgerRecord, LedgerError>)
    ensures
        !(current is Alias) ==> r == Err::<LedgerRecord, LedgerError>(LedgerError::NotARecord),
        *current matches LedgerOutput::Alias(c) ==> {
            &&& c.state_index == u32::MAX ==> r == Err::<LedgerRecord, LedgerError>(
                LedgerError::RecordBuild,
            )
            &&& c.state_index < u32::MAX ==> (r matches Ok(n) && is_update_of(
                n,
                c,
                alias_id@,
                payload@,
                deposit,
            ))
        },
{
    let c = match current {
        LedgerOutput::Alias(c) => c,
        _ => {
            return Err(LedgerError::NotARecord);
        },
    };
    if c.state_index == u32::MAX {
        return Err(LedgerError::RecordBuild);
    }
    let tag = if tag_is_null(&c.alias_id) {
        alias_id
    } else {
        c.alias_id
    };
    Ok(
        LedgerRecord {
            alias_id: tag,
            state_index: c.state_index + 1,
            state_metadata: pack_state(StateMetadataEncoding::Json, payload),
            amount: deposit,
            foundry_counter: c.foundry_counter,
            sender: c.sender,
            issuer: c.issuer,
            state_controller: c.state_controller,
            governor: c.governor,
        },
    )
}

/// The output that consumes the record `current` on deletion: it holds the
/// record's value and is unlockable by `address` alone.
pub fn deletion_output(current: &LedgerOutput, address: Address) -> (r: Result<BasicRecord, LedgerError>)
    ensures
        !(current is Alias) ==> r == Err::<BasicRecord, LedgerError>(LedgerError::NotARecord),
        *current matches LedgerOutput::Alias(c) ==> r == Ok::<BasicRecord, LedgerError>(
            BasicRecord { amount: c.amount, address },
        ),
{
    match current {
        LedgerOutput::Alias(c) => Ok(BasicRecord { amount: c.amount, address }),
        _ => Err(LedgerError::NotARecord),
    }
}

/// A document read from a record: its identifier and its encoded payload.
#[derive(Clone, Debug, PartialEq, Eq)]
pub struct ResolvedDocument {
    pub did: Did,
    pub payload: Vec<u8>,
}

impl View for ResolvedDocument {
    type V = (Seq<char>, Seq<u8>, Seq<u8>);

    open spec fn view(&self) -> (Seq<char>, Seq<u8>, Seq<u8>) {
        (self.did.network@, self.did.tag@, self.payload@)
    }
}

/// The document held by a record under tag `tag` on network `network`.
pub open spec fn read_record(record: LedgerRecord, tag: Seq<u8>, network: Seq<char>) -> Result<
    (Seq<char>, Seq<u8>, Seq<u8>),
    LedgerError,
> {
    match unpacked_state(record.state_metadata@) {
        Some(p) => Ok((network, tag, p)),
        None => Err(LedgerError::Codec),
    }
}

/// The document resolved from an output found for a tag.
pub open spec fn resolved(output: LedgerOutput, tag: Seq<u8>, network: Seq<char>) -> Result<
    (Seq<char>, Seq<u8>, Seq<u8>),
    LedgerError,
> {
    match output {
        LedgerOutput::Alias(record) => read_record(record, tag, network),
        _ => Err(LedgerError::NotARecord),
    }
}

fn document_of_record(record: &LedgerRecord, tag: [u8; 32], network: &NetworkName) -> (r: Result<
    ResolvedDocument,
    LedgerError,
>)
    ensures
        r is Ok <==> read_record(*record, tag@, network@) is Ok,
        r matches Ok(d) ==> read_record(*record, tag@, network@) == Ok::<
            (Seq<char>, Seq<u8>, Seq<u8>),
            LedgerError,
        >(d@),
        r matches Err(e) ==> read_record(*record, tag@, network@) == Err::<
            (Seq<char>, Seq<u8>, Seq<u8>),
            LedgerError,
        >(e),
{
    let payload = unpack_state(record.state_metadata.as_slice())?;
    Ok(ResolvedDocument { did: Did { network: network.duplicate(), tag }, payload })
}

/// Resolves the document held by `output`, the ledger output found for the
/// identifier `tag`, on network `network`.
pub fn resolve_record(output: &LedgerOutput, tag: [u8; 32], network: &NetworkName) -> (r: Result<
    ResolvedDocument,
    LedgerError,
>)
    ensures
        r is Ok <==> resolved(*output, tag@, network@) is Ok,
        r matches Ok(d) ==> resolved(*output, tag@, network@) == Ok::<
            (Seq<char>, Seq<u8>, Seq<u8>),
            LedgerError,
        >(d@),
        r matches Err(e) ==> resolved(*output, tag@, network@) == Err::<
            (Seq<char>, Seq<u8>, Seq<u8>),
            LedgerError,
        >(e),
{
    match output {
        LedgerOutput::Alias(record) => document_of_record(record, tag, network),
        _ => Err(LedgerError::NotARecord),
    }
}

/// The tag of the alias record at position `index` of a transaction: its own
/// tag, or, while that is null, the one derived from the transaction and the
/// position.
pub open spec fn scanned_tag(transaction_id: Seq<u8>, index: int, record: LedgerRecord) -> Option<
    Seq<u8>,
> {
    if !is_null_tag(record.alias_id@) {
        Some(record.alias_id@)
    } else if index <= 127 {
        Some(alias_id_of_output(transaction_id, index as u16))
    } else {
        None
    }
}

/// The documents of the alias records among a transaction's `outputs`, in
/// output order.
pub open spec fn scanned(transaction_id: Seq<u8>, outputs: Seq<LedgerOutput>, network: Seq<char>) -> Result<
    Seq<(Seq<char>, Seq<u8>, Seq<u8>)>,
    LedgerError,
>
    decreases outputs.len(),
{
    if outputs.len() == 0 {
        Ok(Seq::empty())
    } else {
        match scanned(transaction_id, outputs.drop_last(), network) {
            Err(e) => Err(e),
            Ok(documents) => match outputs.last() {
                LedgerOutput::Alias(record) => match scanned_tag(
                    transaction_id,
                    outputs.len() - 1,
                    record,
                ) {
                    None => Err(LedgerError::InvalidOutputIndex),
                    Some(tag) => match read_record(record, tag, network) {
                        Ok(d) => Ok(documents.push(d)),
                        Err(e) => Err(e),
                    },
                },
                _ => Ok(documents),
            },
        }
    }
}

/// The number of alias records among `outputs`.
pub open spec fn record_count(outputs: Seq<LedgerOutput>) -> nat
    decreases outputs.len(),
{
    if outputs.len() == 0 {
        0
    } else {
        record_count(outputs.drop_last()) + if outputs.last() is Alias {
            1nat
        } else {
            0nat
        }
    }
}

/// Reads the documents out of the outputs of a confirmed transaction
/// `transaction_id`: one for each alias record, in output order, each under
/// its record's tag or, where that is null, under the tag derived from the
/// transaction and the output's position. The ledger is not touched.
pub fn documents_from_outputs(transaction_id: [u8; 32], outputs: &[LedgerOutput], network: &NetworkName) -> (r:
    Result<Vec<ResolvedDocument>, LedgerError>)
    ensures
        r is Ok <==> scanned(transaction_id@, outputs@, network@) is Ok,
        r matches Ok(ds) ==> scanned(transaction_id@, outputs@, network@) == Ok::<
            Seq<(Seq<char>, Seq<u8>, Seq<u8>)>,
            LedgerError,
        >(ds@.map_values(|d: ResolvedDocument| d@)),
        r matches Err(e) ==> scanned(transaction_id@, outputs@, network@) == Err::<
            Seq<(Seq<char>, Seq<u8>, Seq<u8>)>,
            LedgerError,
        >(e),
{
    let mut documents: Vec<ResolvedDocument> = Vec::new();
    let mut i: usize = 0;
    assert(outputs@.take(0) =~= Seq::<LedgerOutput>::empty());
    assert(documents@.map_values(|d: ResolvedDocument| d@) =~= Seq::<
        (Seq<char>, Seq<u8>, Seq<u8>),
    >::empty());
    while i < outputs.len()
        invariant
            i <= outputs@.len(),
            scanned(transaction_id@, outputs@.take(i as int), network@) == Ok::<
                Seq<(Seq<char>, Seq<u8>, Seq<u8>)>,
                LedgerError,
            >(documents@.map_values(|d: ResolvedDocument| d@)),
        decreases outputs@.len() - i,
    {
        let ghost before = documents@;
        proof {
            assert(outputs@.take(i + 1).drop_last() =~= outputs@.take(i as int));
            assert(outputs@.take(i + 1).last() == outputs@[i as int]);
        }
        if let LedgerOutput::Alias(record) = &outputs[i] {
            let tag = if !tag_is_null(&record.alias_id) {
                record.alias_id
            } else if i <= 127 {
                match derive_alias_id(transaction_id, i as u16) {
                    Some(id) => id,
                    None => {
                        return Err(LedgerError::InvalidOutputIndex);
                    },
                }
            } else {
                proof {
                    scanned_keeps_error(transaction_id@, outputs@, i + 1, network@);
                }
                return Err(LedgerError::InvalidOutputIndex);
            };
            let d = match document_of_record(record, tag, network) {
                Ok(d) => d,
                Err(e) => {
                    proof {
                        scanned_keeps_error(transaction_id@, outputs@, i + 1, network@);
                    }
                    return Err(e);
                },
            };
            documents.push(d);
            proof {
                assert(documents@.map_values(|d: ResolvedDocument| d@) =~= before.map_values(
                    |d: ResolvedDocument| d@,
                ).push(d@));
            }
        }
        i = i + 1;
    }
    assert(outputs@.take(i as int) =~= outputs@);
    Ok(documents)
}

proof fn scanned_keeps_error(
    transaction_id: Seq<u8>,
    outputs: Seq<LedgerOutput>,
    k: int,
    network: Seq<char>,
)
    requires
        0 <= k <= outputs.len(),
        scanned(transaction_id, outputs.take(k), network) is Err,
    ensures
        scanned(transaction_id, outputs, network) == scanned(transaction_id, outputs.take(k), network),
    decreases outputs.len() - k,
{
    if k == outputs.len() {
        assert(outputs.take(k) =~= outputs);
    } else {
        assert(outputs.take(k + 1).drop_last() =~= outputs.take(k));
        scanned_keeps_error(transaction_id, outputs, k + 1, network);
    }
}

/// Every successful scan yields exactly one document per alias record, in
/// output order.
pub proof fn scanned_counts_records(
    transaction_id: Seq<u8>,
    outputs: Seq<LedgerOutput>,
    network: Seq<char>,
)
    requires
        scanned(transaction_id, outputs, network) is Ok,
    ensures
        scanned(transaction_id, outputs, network)->Ok_0.len() == record_count(outputs),
    decreases outputs.len(),
{
    if outputs.len() > 0 {
        scanned_counts_records(transaction_id, outputs.drop_last(), network);
    }
}

/// The positions of the alias records among `outputs`, in output order.
pub open spec fn record_indices(outputs: Seq<LedgerOutput>) -> Seq<int>
    decreases outputs.len(),
{
    if outputs.len() == 0 {
        Seq::empty()
    } else if outputs.last() is Alias {
        record_indices(outputs.drop_last()).push(outputs.len() - 1)
    } else {
        record_indices(outputs.drop_last())
    }
}

/// Every alias record among `outputs` holds packed state bytes.
pub open spec fn records_well_formed(outputs: Seq<LedgerOutput>) -> bool {
    forall|i: int|
        0 <= i < outputs.len() ==> ((#[trigger] outputs[i]) matches LedgerOutput::Alias(r)
            ==> unpacked_state(r.state_metadata@) is Some)
}

/// A transaction within the ledger's limit of 128 outputs, whose records all
/// hold packed state bytes, always scans successfully.
pub proof fn scan_succeeds(transaction_id: Seq<u8>, outputs: Seq<LedgerOutput>, network: Seq<char>)
    requires
        outputs.len() <= 128,
        records_well_formed(outputs),
    ensures
        scanned(transaction_id, outputs, network) is Ok,
    decreases outputs.len(),
{
    if outputs.len() > 0 {
        let rest = outputs.drop_last();
        assert(records_well_formed(rest)) by {
            assert forall|i: int| 0 <= i < rest.len() implies ((#[trigger] rest[i]) matches LedgerOutput::Alias(r)
                ==> unpacked_state(r.state_metadata@) is Some) by {
                assert(rest[i] == outputs[i]);
            }
        }
        scan_succeeds(transaction_id, rest, network);
        assert(outputs.last() == outputs[outputs.len() - 1]);
    }
}

/// A successful scan yields, in output order, the document of each alias
/// record: the k-th document is read from the k-th record, under that
/// record's tag.
pub proof fn scanned_follows_output_order(
    transaction_id: Seq<u8>,
    outputs: Seq<LedgerOutput>,
    network: Seq<char>,
)
    requires
        scanned(transaction_id, outputs, network) is Ok,
    ensures
        ({
            let documents = scanned(transaction_id, outputs, network)->Ok_0;
            let indices = record_indices(outputs);
            &&& documents.len() == indices.len()
            &&& forall|k: int, l: int| 0 <= k < l < indices.len() ==> indices[k] < indices[l]
            &&& forall|k: int|
                0 <= k < indices.len() ==> {
                    &&& 0 <= #[trigger] indices[k] < outputs.len()
                    &&& outputs[indices[k]] is Alias
                    &&& read_record(
                        outputs[indices[k]]->Alias_0,
                        scanned_tag(transaction_id, indices[k], outputs[indices[k]]->Alias_0)->Some_0,
                        network,
                    ) == Ok::<(Seq<char>, Seq<u8>, Seq<u8>), LedgerError>(documents[k])
                }
        }),
    decreases outputs.len(),
{
    if outputs.len() > 0 {
        let rest = outputs.drop_last();
        scanned_follows_output_order(transaction_id, rest, network);
        let indices = record_indices(rest);
        assert forall|k: int| 0 <= k < indices.len() implies outputs[indices[k]] == rest[indices[k]] by {
            assert(0 <= indices[k] < rest.len());
        }
    }
}

/// Picks the document of a publication, which must have yielded exactly one.
pub fn single_document(documents: Vec<ResolvedDocument>) -> (r: Result<ResolvedDocument, LedgerError>)
    ensures
        r is Ok <==> documents@.len() == 1,
        r matches Ok(d) ==> d == documents@[0],
        r matches Err(e) ==> e == LedgerError::ExpectedExactlyOneDocument,
{
    let mut documents = documents;
    if documents.len() != 1 {
        return Err(LedgerError::ExpectedExactlyOneDocument);
    }
    match documents.pop() {
        Some(d) => Ok(d),
        None => Err(LedgerError::ExpectedExactlyOneDocument),
    }
}

/// A new record published alone in a transaction yields one document, under
/// the tag derived from the transaction, that holds the original payload;
/// resolving the record under that tag yields the same document.
pub proof fn publish_then_resolve(
    record: LedgerRecord,
    address: Address,
    payload: Seq<u8>,
    deposit: u64,
    transaction_id: Seq<u8>,
    network: Seq<char>,
)
    requires
        is_new_record(record, address, payload, deposit),
    ensures
        scanned(transaction_id, seq![LedgerOutput::Alias(record)], network) == Ok::<
            Seq<(Seq<char>, Seq<u8>, Seq<u8>)>,
            LedgerError,
        >(seq![(network, alias_id_of_output(transaction_id, 0), payload)]),
        resolved(LedgerOutput::Alias(record), alias_id_of_output(transaction_id, 0), network)
            == Ok::<(Seq<char>, Seq<u8>, Seq<u8>), LedgerError>(
            (network, alias_id_of_output(transaction_id, 0), payload),
        ),
{
    reveal_with_fuel(scanned, 2);
    unpack_after_pack(payload);
    let outputs = seq![LedgerOutput::Alias(record)];
    assert(outputs.drop_last() =~= Seq::<LedgerOutput>::empty());
    assert(Seq::<(Seq<char>, Seq<u8>, Seq<u8>)>::empty().push(
        (network, alias_id_of_output(transaction_id, 0), payload),
    ) =~= seq![(network, alias_id_of_output(transaction_id, 0), payload)]);
}

/// Two updates in a row raise the state index by one each: the second update's
/// index is the first one's plus one.
pub proof fn updates_are_consecutive(
    current: LedgerRecord,
    first: LedgerRecord,
    second: LedgerRecord,
    alias_id: Seq<u8>,
    payload1: Seq<u8>,
    payload2: Seq<u8>,
    deposit1: u64,
    deposit2: u64,
)
    requires
        is_update_of(first, current, alias_id, payload1, deposit1),
        is_update_of(second, first, alias_id, payload2, deposit2),
    ensures
        second.state_index == first.state_index + 1,
        first.state_index == current.state_index + 1,
        second.alias_id@ == first.alias_id@ || is_null_tag(first.alias_id@),
{
}

} // verus!
