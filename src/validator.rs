//! Trust verdicts over credentials and presentations: every applicable reason
//! for refuting one is gathered, none stops the others from being checked.
use vstd::prelude::*;
use crate::ledger::LedgerError;
use crate::ledger::LedgerOutput;
use crate::ledger::NetworkName;
use crate::ledger::ResolvedDocument;
use crate::ledger::resolve_record;
use crate::ledger::resolved;
use crate::refutation::CredentialRefutationCategory;
use crate::refutation::CredentialRefutations;
use crate::refutation::RefutedCredentialDismissalError;

verus! {

/// A resolved document together with the verdict of its check. Only
/// [`CredentialValidator::check_document`] makes one, so a verified document
/// is always one that passed the check.
#[derive(Clone, Debug, PartialEq, Eq)]
pub struct DocumentValidation {
    document: ResolvedDocument,
    verified: bool,
}

impl View for DocumentValidation {
    type V = ((Seq<char>, Seq<u8>, Seq<u8>), bool);

    closed spec fn view(&self) -> ((Seq<char>, Seq<u8>, Seq<u8>), bool) {
        (self.document@, self.verified)
    }
}

impl DocumentValidation {
    /// Whether the document passed its check.
    pub fn is_verified(&self) -> (r: bool)
        ensures
            r == self@.1,
    {
        self.verified
    }

    /// The resolved document.
    pub fn document(&self) -> (r: &ResolvedDocument)
        ensures
            r@ == self@.0,
    {
        &self.document
    }
}

/// Validates credentials and presentations against documents resolved on one
/// network.
#[derive(Clone, Debug)]
pub struct CredentialValidator {
    network: NetworkName,
}

/// The aggregate verdict for a credential that was fully verified.
#[derive(Clone, Debug, PartialEq, Eq)]
pub struct CredentialValidation {
    issuer: DocumentValidation,
    subjects: Vec<(String, DocumentValidation)>,
}

impl CredentialValidation {
    pub closed spec fn spec_issuer(self) -> DocumentValidation {
        self.issuer
    }

    pub closed spec fn spec_subjects(self) -> Vec<(String, DocumentValidation)> {
        self.subjects
    }

    /// The verified issuer document.
    pub fn issuer(&self) -> (r: &DocumentValidation)
        ensures
            *r == self.spec_issuer(),
    {
        &self.issuer
    }

    /// The verified subject documents, by subject identifier.
    pub fn subjects(&self) -> (r: &Vec<(String, DocumentValidation)>)
        ensures
            *r == self.spec_subjects(),
    {
        &self.subjects
    }
}

/// Every reason for which a credential was refuted.
///
/// The closed set of credential categories has none for an untrusted issuer
/// or a mismatched signature: those two reasons are the flags beside the
/// categories. A credential refuted for them alone carries an empty category
/// set, so an empty set means "fully trusted" only together with both flags
/// clear.
#[derive(Clone, Copy, Debug, PartialEq, Eq)]
pub struct CredentialRefutation {
    /// The refutation categories that apply.
    pub categories: CredentialRefutations,
    /// The issuer's document did not pass its check.
    pub untrusted_issuer: bool,
    /// The credential's signature does not match the issuer's document.
    pub invalid_signature: bool,
}

/// The verdict on a credential.
#[derive(Clone, Debug, PartialEq, Eq)]
pub enum CredentialVerdict {
    FullyVerified(CredentialValidation),
    Refuted(CredentialRefutation),
}

/// The refutation categories that a credential's checks call for: some
/// subject document did not pass its check, the expiry date is past, or the
/// issuance date is still to come.
pub open spec fn credential_categories(
    subjects_verified: bool,
    now: i64,
    issuance_date: i64,
    expiration_date: Option<i64>,
) -> Set<CredentialRefutationCategory> {
    Set::new(
        |c: CredentialRefutationCategory|
            match c {
                CredentialRefutationCategory::DeactivatedSubjectDocuments => !subjects_verified,
                CredentialRefutationCategory::Expired => expiration_date matches Some(e) && now > e,
                CredentialRefutationCategory::Dormant => now < issuance_date,
            },
    )
}

/// Whether every subject document passed its check.
pub open spec fn all_verified(subjects: Seq<(Seq<char>, ((Seq<char>, Seq<u8>, Seq<u8>), bool))>) -> bool {
    forall|i: int| 0 <= i < subjects.len() ==> (#[trigger] subjects[i]).1.1
}

/// The view of a list of subject documents.
pub open spec fn subjects_view(subjects: Seq<(String, DocumentValidation)>) -> Seq<
    (Seq<char>, ((Seq<char>, Seq<u8>, Seq<u8>), bool)),
> {
    subjects.map_values(|p: (String, DocumentValidation)| (p.0@, p.1@))
}

impl CredentialVerdict {
    /// The verdict, taken as valid; a refuted verdict fails with every
    /// refutation category that applied. A credential refuted only for an
    /// untrusted issuer or a mismatched signature fails with an empty category
    /// set, whose message names no category.
    pub fn into_validation(self) -> (r: Result<CredentialValidation, RefutedCredentialDismissalError>)
        ensures
            self matches CredentialVerdict::FullyVerified(v) ==> r == Ok::<
                CredentialValidation,
                RefutedCredentialDismissalError,
            >(v),
            self matches CredentialVerdict::Refuted(f) ==> r matches Err(e) && e.categories@
                == f.categories@,
    {
        match self {
            CredentialVerdict::FullyVerified(v) => Ok(v),
            CredentialVerdict::Refuted(f) => Err(RefutedCredentialDismissalError { categories: f.categories }),
        }
    }
}

/// Every reason for which a presentation was refuted.
#[derive(Clone, Copy, Debug, PartialEq, Eq)]
pub struct PresentationRefutation {
    /// The holder's document did not pass its check.
    pub untrusted_holder: bool,
    /// The presentation's signature does not match the holder's document.
    pub invalid_signature: bool,
    /// Some embedded credential was refuted.
    pub refuted_credentials: bool,
}

/// The aggregate verdict for a presentation that was fully verified.
#[derive(Clone, Debug, PartialEq, Eq)]
pub struct PresentationValidation {
    holder: DocumentValidation,
    credentials: Vec<CredentialValidation>,
}

impl PresentationValidation {
    pub closed spec fn spec_holder(self) -> DocumentValidation {
        self.holder
    }

    pub closed spec fn spec_credentials(self) -> Vec<CredentialValidation> {
        self.credentials
    }

    /// The verified holder document.
    pub fn holder(&self) -> (r: &DocumentValidation)
        ensures
            *r == self.spec_holder(),
    {
        &self.holder
    }

    /// The verified embedded credentials, in their order in the presentation.
    pub fn credentials(&self) -> (r: &Vec<CredentialValidation>)
        ensures
            *r == self.spec_credentials(),
    {
        &self.credentials
    }
}

/// The verdict on a presentation.
#[derive(Clone, Debug, PartialEq, Eq)]
pub enum PresentationVerdict {
    FullyVerified(PresentationValidation),
    Refuted(PresentationRefutation),
}

impl CredentialValidator {
    /// The network whose documents the validator resolves.
    pub closed spec fn spec_network(&self) -> Seq<char> {
        self.network@
    }

    /// Creates a validator for documents on the network `network`.
    pub fn new(network: NetworkName) -> (r: Self)
        ensures
            r.spec_network() == network@,
    {
        Self { network }
    }

    /// Resolves the document held by `output`, the ledger output found for the
    /// identifier `tag`, and checks it: it is verified unless it is
    /// deactivated. Fails only where resolution itself fails. Whether the
    /// document is deactivated is read from its encoded payload, which this
    /// library does not decode: the caller hands that reading in.
    pub fn check_document(&self, output: &LedgerOutput, tag: [u8; 32], deactivated: bool) -> (r: Result<
        DocumentValidation,
        LedgerError,
    >)
        ensures
            r is Ok <==> resolved(*output, tag@, self.spec_network()) is Ok,
            r matches Ok(v) ==> resolved(*output, tag@, self.spec_network()) == Ok::<
                (Seq<char>, Seq<u8>, Seq<u8>),
                LedgerError,
            >(v@.0) && v@.1 == !deactivated,
            r matches Err(e) ==> resolved(*output, tag@, self.spec_network()) == Err::<
                (Seq<char>, Seq<u8>, Seq<u8>),
                LedgerError,
            >(e),
    {
        let document = resolve_record(output, tag, &self.network)?;
        Ok(DocumentValidation { document, verified: !deactivated })
    }

    /// The verdict on a credential whose issuer document and subject documents
    /// were checked, whose signature check against the issuer's document gave
    /// `signature_valid`, at time `now`. Every check contributes its reason;
    /// the credential is fully verified only where none applies.
    pub fn validate_credential(
        &self,
        issuer: DocumentValidation,
        subjects: Vec<(String, DocumentValidation)>,
        signature_valid: bool,
        now: i64,
        issuance_date: i64,
        expiration_date: Option<i64>,
    ) -> (r: CredentialVerdict)
        ensures
            ({
                let cats = credential_categories(
                    all_verified(subjects_view(subjects@)),
                    now,
                    issuance_date,
                    expiration_date,
                );
                let ok = cats.is_empty() && issuer@.1 && signature_valid;
                &&& ok ==> (r matches CredentialVerdict::FullyVerified(v) && v.spec_issuer() == issuer
                    && unique_ids(subjects_view(v.spec_subjects()@)) && ids_ascending(
                    subjects_view(v.spec_subjects()@),
                ) && subject_map(subjects_view(v.spec_subjects()@)) == subject_map(
                    subjects_view(subjects@),
                ))
                &&& !ok ==> r == CredentialVerdict::Refuted(
                    CredentialRefutation {
                        categories: r->Refuted_0.categories,
                        untrusted_issuer: !issuer@.1,
                        invalid_signature: !signature_valid,
                    },
                ) && r->Refuted_0.categories@ == cats
            }),
    {
        let ghost sv = subjects_view(subjects@);
        let mut subjects_verified = true;
        let mut i: usize = 0;
        while i < subjects.len()
            invariant
                i <= subjects@.len(),
                sv == subjects_view(subjects@),
                subjects_verified == (forall|j: int| 0 <= j < i ==> (#[trigger] sv[j]).1.1),
            decreases subjects@.len() - i,
        {
            let verified = subjects[i].1.is_verified();
            proof {
                assert(sv[i as int].1.1 == verified);
            }
            subjects_verified = subjects_verified && verified;
            i = i + 1;
            assert(subjects_verified == (forall|j: int| 0 <= j < i ==> (#[trigger] sv[j]).1.1)) by {
                if !subjects_verified {
                    if !verified {
                        assert(!sv[i - 1].1.1);
                    }
                }
            }
        }
        let ghost cats = credential_categories(subjects_verified, now, issuance_date, expiration_date);
        let mut categories = CredentialRefutations::empty();
        if !subjects_verified {
            categories.insert(CredentialRefutationCategory::DeactivatedSubjectDocuments);
        }
        let expired = match expiration_date {
            Some(e) => now > e,
            None => false,
        };
        if expired {
            categories.insert(CredentialRefutationCategory::Expired);
        }
        if now < issuance_date {
            categories.insert(CredentialRefutationCategory::Dormant);
        }
        assert(categories@ =~= cats);
        let none = categories.count() == 0;
        proof {
            if !none {
                assert(categories@.len() > 0);
                assert(!cats.is_empty()) by {
                    if cats.is_empty() {
                        assert(cats =~= Set::<CredentialRefutationCategory>::empty());
                    }
                }
            } else {
                assert(cats =~= Set::<CredentialRefutationCategory>::empty()) by {
                    assert forall|c: CredentialRefutationCategory| !cats.contains(c) by {
                        if cats.contains(c) {
                            vstd::set_lib::lemma_set_empty_equivalency_len(cats);
                        }
                    }
                }
            }
        }
        if none && issuer.is_verified() && signature_valid {
            let subjects = subject_mapping(subjects);
            CredentialVerdict::FullyVerified(CredentialValidation { issuer, subjects })
        } else {
            CredentialVerdict::Refuted(
                CredentialRefutation {
                    categories,
                    untrusted_issuer: !issuer.is_verified(),
                    invalid_signature: !signature_valid,
                },
            )
        }
    }

    /// The verdict on a presentation whose holder document was checked, whose
    /// signature check against the holder's document gave `signature_valid`,
    /// and whose embedded credentials got the verdicts `credentials`. Every
    /// check contributes its reason; the presentation is fully verified only
    /// where none applies.
    pub fn validate_presentation(
        &self,
        holder: DocumentValidation,
        signature_valid: bool,
        credentials: Vec<CredentialVerdict>,
    ) -> (r: PresentationVerdict)
        ensures
            ({
                let all_credentials = forall|i: int|
                    0 <= i < credentials@.len() ==> (#[trigger] credentials@[i]) is FullyVerified;
                let ok = holder@.1 && signature_valid && all_credentials;
                &&& ok ==> (r matches PresentationVerdict::FullyVerified(v) && v.spec_holder() == holder
                    && v.spec_credentials()@.len() == credentials@.len() && forall|i: int|
                    0 <= i < credentials@.len() ==> credentials@[i] == CredentialVerdict::FullyVerified(
                        #[trigger] v.spec_credentials()@[i],
                    ))
                &&& !ok ==> r == PresentationVerdict::Refuted(
                    PresentationRefutation {
                        untrusted_holder: !holder@.1,
                        invalid_signature: !signature_valid,
                        refuted_credentials: !all_credentials,
                    },
                )
            }),
    {
        let ghost original = credentials@;
        let mut verified: Vec<CredentialValidation> = Vec::new();
        let mut refuted = false;
        let mut rest = credentials;
        while rest.len() > 0
            invariant
                rest@.len() <= original.len(),
                rest@ == original.skip(original.len() - rest@.len()),
                refuted == (exists|j: int|
                    0 <= j < original.len() - rest@.len() && !(
                    #[trigger] original[j] is FullyVerified)),
                !refuted ==> verified@.len() == original.len() - rest@.len() && forall|j: int|
                    0 <= j < verified@.len() ==> original[j] == CredentialVerdict::FullyVerified(
                        #[trigger] verified@[j],
                    ),
            decreases rest@.len(),
        {
            let ghost n = rest@.len();
            let verdict = rest.remove(0);
            proof {
                assert(verdict == original[original.len() - n]);
                assert(rest@ =~= original.skip(original.len() - (n - 1)));
            }
            match verdict {
                CredentialVerdict::FullyVerified(v) => {
                    if !refuted {
                        verified.push(v);
                    }
                },
                CredentialVerdict::Refuted(_) => {
                    refuted = true;
                },
            }
        }
        if holder.is_verified() && signature_valid && !refuted {
            PresentationVerdict::FullyVerified(PresentationValidation { holder, credentials: verified })
        } else {
            PresentationVerdict::Refuted(
                PresentationRefutation {
                    untrusted_holder: !holder.is_verified(),
                    invalid_signature: !signature_valid,
                    refuted_credentials: refuted,
                },
            )
        }
    }
}

/// What is known of a subject's checked document.
pub type SubjectView = ((Seq<char>, Seq<u8>, Seq<u8>), bool);

/// Lexicographic order of identifiers, by code point.
pub open spec fn id_less(a: Seq<char>, b: Seq<char>) -> bool
    decreases a.len(),
{
    if a.len() == 0 {
        b.len() > 0
    } else if b.len() == 0 {
        false
    } else if a[0] != b[0] {
        (a[0] as int) < (b[0] as int)
    } else {
        id_less(a.drop_first(), b.drop_first())
    }
}

/// Two distinct identifiers are ordered one way or the other.
pub proof fn id_less_is_total(a: Seq<char>, b: Seq<char>)
    requires
        a != b,
    ensures
        id_less(a, b) || id_less(b, a),
    decreases a.len(),
{
    if a.len() > 0 && b.len() > 0 && a[0] == b[0] {
        if a.drop_first() == b.drop_first() {
            assert(a =~= seq![a[0]] + a.drop_first());
            assert(b =~= seq![b[0]] + b.drop_first());
        }
        id_less_is_total(a.drop_first(), b.drop_first());
    } else if a.len() > 0 && b.len() > 0 {
        assert((a[0] as int) != (b[0] as int));
    } else if a.len() == 0 && b.len() == 0 {
        assert(a =~= b);
    }
}

fn id_precedes(a: &String, b: &String) -> (r: bool)
    ensures
        r == id_less(a@, b@),
{
    let sa = a.as_str();
    let sb = b.as_str();
    let la = sa.unicode_len();
    let lb = sb.unicode_len();
    let mut i: usize = 0;
    assert(a@.skip(0) =~= a@ && b@.skip(0) =~= b@);
    while i < la && i < lb
        invariant
            i <= la,
            i <= lb,
            sa@ == a@,
            sb@ == b@,
            la == a@.len(),
            lb == b@.len(),
            id_less(a@, b@) == id_less(a@.skip(i as int), b@.skip(i as int)),
        decreases la - i,
    {
        let ca = sa.get_char(i);
        let cb = sb.get_char(i);
        if ca != cb {
            return (ca as u32) < (cb as u32);
        }
        proof {
            assert(a@.skip(i + 1) =~= a@.skip(i as int).drop_first());
            assert(b@.skip(i + 1) =~= b@.skip(i as int).drop_first());
        }
        i = i + 1;
    }
    i == la && i < lb
}

/// The mapping from subject identifier to checked document; a later entry
/// for an identifier replaces an earlier one.
pub open spec fn subject_map(entries: Seq<(Seq<char>, SubjectView)>) -> Map<Seq<char>, SubjectView>
    decreases entries.len(),
{
    if entries.len() == 0 {
        Map::empty()
    } else {
        subject_map(entries.drop_last()).insert(entries.last().0, entries.last().1)
    }
}

/// No identifier occurs twice.
pub open spec fn unique_ids(entries: Seq<(Seq<char>, SubjectView)>) -> bool {
    forall|i: int, j: int|
        0 <= i < j < entries.len() ==> (#[trigger] entries[i]).0 != (#[trigger] entries[j]).0
}

/// Each identifier precedes the next.
pub open spec fn ids_ascending(entries: Seq<(Seq<char>, SubjectView)>) -> bool {
    forall|i: int| 0 <= i < entries.len() - 1 ==> id_less(#[trigger] entries[i].0, entries[i + 1].0)
}

/// Every occurrence of an identifier carries the same checked document.
pub open spec fn consistent_ids(entries: Seq<(Seq<char>, SubjectView)>) -> bool {
    forall|i: int, j: int|
        0 <= i < entries.len() && 0 <= j < entries.len() && (#[trigger] entries[i]).0 == (
        #[trigger] entries[j]).0 ==> entries[i].1 == entries[j].1
}

proof fn subject_map_of_consistent(entries: Seq<(Seq<char>, SubjectView)>)
    requires
        consistent_ids(entries),
    ensures
        forall|k: Seq<char>|
            #[trigger] subject_map(entries).contains_key(k) <==> exists|i: int|
                0 <= i < entries.len() && (#[trigger] entries[i]).0 == k,
        forall|i: int| 0 <= i < entries.len() ==> subject_map(entries)[(#[trigger] entries[i]).0] == entries[i].1,
    decreases entries.len(),
{
    if entries.len() > 0 {
        let rest = entries.drop_last();
        let n = entries.len() - 1;
        assert(consistent_ids(rest)) by {
            assert forall|i: int, j: int|
                0 <= i < rest.len() && 0 <= j < rest.len() && (#[trigger] rest[i]).0 == (
                #[trigger] rest[j]).0 implies rest[i].1 == rest[j].1 by {
                assert(rest[i] == entries[i] && rest[j] == entries[j]);
            }
        }
        subject_map_of_consistent(rest);
        assert(subject_map(entries) == subject_map(rest).insert(entries.last().0, entries.last().1));
        assert forall|k: Seq<char>|
            #[trigger] subject_map(entries).contains_key(k) <==> exists|i: int|
                0 <= i < entries.len() && (#[trigger] entries[i]).0 == k by {
            if subject_map(entries).contains_key(k) && k != entries.last().0 {
                assert(subject_map(rest).contains_key(k));
                let i = choose|i: int| 0 <= i < rest.len() && (#[trigger] rest[i]).0 == k;
                assert(entries[i] == rest[i]);
            }
            if subject_map(entries).contains_key(k) && k == entries.last().0 {
                assert(entries[n].0 == k);
            }
            if exists|i: int| 0 <= i < entries.len() && (#[trigger] entries[i]).0 == k {
                let i = choose|i: int| 0 <= i < entries.len() && (#[trigger] entries[i]).0 == k;
                if i < n {
                    assert(rest[i] == entries[i]);
                }
            }
        }
        assert forall|i: int| 0 <= i < entries.len() implies subject_map(entries)[(
        #[trigger] entries[i]).0] == entries[i].1 by {
            if i < n {
                assert(rest[i] == entries[i]);
                if entries[i].0 == entries[n].0 {
                    assert(entries[i].1 == entries[n].1);
                }
            }
        }
    }
}

proof fn subject_map_of_unique(entries: Seq<(Seq<char>, SubjectView)>)
    requires
        unique_ids(entries),
    ensures
        forall|k: Seq<char>|
            #[trigger] subject_map(entries).contains_key(k) <==> exists|i: int|
                0 <= i < entries.len() && (#[trigger] entries[i]).0 == k,
        forall|i: int| 0 <= i < entries.len() ==> subject_map(entries)[(#[trigger] entries[i]).0] == entries[i].1,
{
    assert(consistent_ids(entries)) by {
        assert forall|i: int, j: int|
            0 <= i < entries.len() && 0 <= j < entries.len() && (#[trigger] entries[i]).0 == (
            #[trigger] entries[j]).0 implies entries[i].1 == entries[j].1 by {
            if i < j {
                assert(entries[i].0 != entries[j].0);
            } else if j < i {
                assert(entries[j].0 != entries[i].0);
            }
        }
    }
    subject_map_of_consistent(entries);
}

/// The order in which the subjects' documents were checked does not matter:
/// the same checked subjects, in any order and with any repetition, each
/// identifier always checked to the same document, give the same mapping
/// from identifier to document, and the same verdict on the subjects.
pub proof fn subject_order_is_irrelevant(
    first: Seq<(Seq<char>, SubjectView)>,
    second: Seq<(Seq<char>, SubjectView)>,
)
    requires
        consistent_ids(first),
        consistent_ids(second),
        first.to_set() == second.to_set(),
    ensures
        subject_map(first) == subject_map(second),
        all_verified(first) == all_verified(second),
{
    subject_map_of_consistent(first);
    subject_map_of_consistent(second);
    assert forall|i: int| 0 <= i < first.len() implies exists|j: int|
        0 <= j < second.len() && second[j] == #[trigger] first[i] by {
        assert(first.to_set().contains(first[i]));
    }
    assert forall|j: int| 0 <= j < second.len() implies exists|i: int|
        0 <= i < first.len() && first[i] == #[trigger] second[j] by {
        assert(second.to_set().contains(second[j]));
    }
    assert(subject_map(first) =~= subject_map(second)) by {
        assert forall|k: Seq<char>| #[trigger] subject_map(first).contains_key(k) implies subject_map(
            second,
        ).contains_key(k) && subject_map(first)[k] == subject_map(second)[k] by {
            let i = choose|i: int| 0 <= i < first.len() && (#[trigger] first[i]).0 == k;
            let j = choose|j: int| 0 <= j < second.len() && second[j] == #[trigger] first[i];
            assert(second[j].0 == k);
        }
        assert forall|k: Seq<char>| #[trigger] subject_map(second).contains_key(k) implies subject_map(
            first,
        ).contains_key(k) by {
            let j = choose|j: int| 0 <= j < second.len() && (#[trigger] second[j]).0 == k;
            let i = choose|i: int| 0 <= i < first.len() && first[i] == #[trigger] second[j];
            assert(first[i].0 == k);
        }
    }
    if all_verified(first) {
        assert forall|j: int| 0 <= j < second.len() implies (#[trigger] second[j]).1.1 by {
            let i = choose|i: int| 0 <= i < first.len() && first[i] == #[trigger] second[j];
            assert(first[i].1.1);
        }
    }
    if all_verified(second) {
        assert forall|i: int| 0 <= i < first.len() implies (#[trigger] first[i]).1.1 by {
            let j = choose|j: int| 0 <= j < second.len() && second[j] == #[trigger] first[i];
            assert(second[j].1.1);
        }
    }
}

proof fn subject_map_insert_fresh(
    entries: Seq<(Seq<char>, SubjectView)>,
    p: int,
    entry: (Seq<char>, SubjectView),
)
    requires
        unique_ids(entries),
        0 <= p <= entries.len(),
        forall|i: int| 0 <= i < entries.len() ==> (#[trigger] entries[i]).0 != entry.0,
    ensures
        unique_ids(entries.insert(p, entry)),
        subject_map(entries.insert(p, entry)) == subject_map(entries).insert(entry.0, entry.1),
{
    let next = entries.insert(p, entry);
    assert forall|i: int, j: int| 0 <= i < j < next.len() implies (#[trigger] next[i]).0 != (
    #[trigger] next[j]).0 by {
        if i < p && j < p {
        } else if i < p && j == p {
        } else if i < p {
            assert(next[j] == entries[j - 1]);
        } else if i == p {
            assert(next[j] == entries[j - 1]);
        } else {
            assert(next[i] == entries[i - 1] && next[j] == entries[j - 1]);
        }
    }
    subject_map_of_unique(entries);
    subject_map_of_unique(next);
    assert(next[p] == entry);
    let m = subject_map(entries).insert(entry.0, entry.1);
    assert(subject_map(next).contains_key(entry.0));
    assert(subject_map(next)[entry.0] == entry.1);
    assert forall|k: Seq<char>| #[trigger] subject_map(next).contains_key(k) implies m.contains_key(k)
        && subject_map(next)[k] == m[k] by {
        let i = choose|i: int| 0 <= i < next.len() && (#[trigger] next[i]).0 == k;
        if i < p {
            assert(next[i] == entries[i]);
            assert(entries[i].0 != entry.0);
            assert(subject_map(entries).contains_key(k));
        } else if i > p {
            assert(next[i] == entries[i - 1]);
            assert(entries[i - 1].0 != entry.0);
            assert(subject_map(entries).contains_key(k));
        }
    }
    assert forall|k: Seq<char>| #[trigger] m.contains_key(k) implies subject_map(next).contains_key(k) by {
        if k != entry.0 {
            assert(subject_map(entries).contains_key(k));
            let i = choose|i: int| 0 <= i < entries.len() && (#[trigger] entries[i]).0 == k;
            if i < p {
                assert(next[i] == entries[i]);
            } else {
                assert(next[i + 1] == entries[i]);
            }
        }
    }
    assert(subject_map(next).dom() =~= m.dom());
    assert(subject_map(next) =~= m);
}

proof fn subject_map_replace(entries: Seq<(Seq<char>, SubjectView)>, p: int, entry: (Seq<char>, SubjectView))
    requires
        unique_ids(entries),
        0 <= p < entries.len(),
        entries[p].0 == entry.0,
    ensures
        unique_ids(entries.update(p, entry)),
        subject_map(entries.update(p, entry)) == subject_map(entries).insert(entry.0, entry.1),
{
    let next = entries.update(p, entry);
    assert forall|i: int, j: int| 0 <= i < j < next.len() implies (#[trigger] next[i]).0 != (
    #[trigger] next[j]).0 by {
        assert(entries[i].0 != entries[j].0);
    }
    subject_map_of_unique(entries);
    subject_map_of_unique(next);
    let m = subject_map(entries).insert(entry.0, entry.1);
    assert(next[p] == entry);
    assert(subject_map(next).contains_key(entry.0));
    assert(subject_map(next)[entry.0] == entry.1);
    assert forall|k: Seq<char>| #[trigger] subject_map(next).contains_key(k) implies m.contains_key(k)
        && subject_map(next)[k] == m[k] by {
        let i = choose|i: int| 0 <= i < next.len() && (#[trigger] next[i]).0 == k;
        if i != p {
            assert(next[i] == entries[i]);
            assert(entries[i].0 != entries[p].0);
            assert(subject_map(entries).contains_key(k));
        }
    }
    assert forall|k: Seq<char>| #[trigger] m.contains_key(k) implies subject_map(next).contains_key(k) by {
        if k != entry.0 {
            assert(subject_map(entries).contains_key(k));
            let i = choose|i: int| 0 <= i < entries.len() && (#[trigger] entries[i]).0 == k;
            assert(next[i].0 == entries[i].0);
        }
    }
    assert(subject_map(next).dom() =~= m.dom());
    assert(subject_map(next) =~= m);
}

/// Orders checked subjects by identifier, one entry per identifier; where an
/// identifier occurs more than once, the later entry is kept. The result does
/// not depend on the order in which the subjects were checked.
pub fn subject_mapping(subjects: Vec<(String, DocumentValidation)>) -> (r: Vec<(String, DocumentValidation)>)
    ensures
        unique_ids(subjects_view(r@)),
        ids_ascending(subjects_view(r@)),
        subject_map(subjects_view(r@)) == subject_map(subjects_view(subjects@)),
{
    let ghost original = subjects_view(subjects@);
    let mut rest = subjects;
    let mut r: Vec<(String, DocumentValidation)> = Vec::new();
    assert(subjects_view(r@) =~= Seq::<(Seq<char>, SubjectView)>::empty());
    assert(original.take(0) =~= Seq::<(Seq<char>, SubjectView)>::empty());
    while rest.len() > 0
        invariant
            rest@.len() <= original.len(),
            subjects_view(rest@) == original.skip(original.len() - rest@.len()),
            unique_ids(subjects_view(r@)),
            ids_ascending(subjects_view(r@)),
            subject_map(subjects_view(r@)) == subject_map(original.take(original.len() - rest@.len())),
        decreases rest@.len(),
    {
        let ghost n = rest@.len();
        let ghost done = original.len() - n;
        let ghost before = subjects_view(r@);
        let ghost rest_before = rest@;
        let entry = rest.remove(0);
        let ghost ev = (entry.0@, entry.1@);
        proof {
            assert(entry == rest_before[0]);
            assert(subjects_view(rest_before)[0] == ev);
            assert(original.skip(done)[0] == original[done]);
            assert(original[done] == ev);
            assert(subjects_view(rest@) =~= original.skip(done + 1)) by {
                assert forall|i: int| 0 <= i < rest@.len() implies subjects_view(rest@)[i] == original[done
                    + 1 + i] by {
                    assert(rest@[i] == rest_before[i + 1]);
                    assert(subjects_view(rest_before)[i + 1] == original.skip(done)[i + 1]);
                    assert(original.skip(done)[i + 1] == original[done + 1 + i]);
                }
            }
            assert(original.take(done + 1).drop_last() =~= original.take(done));
            assert(original.take(done + 1).last() == ev);
        }
        let mut found = false;
        let mut j: usize = 0;
        while j < r.len() && !found
            invariant
                j <= r@.len(),
                before == subjects_view(r@),
                ev == (entry.0@, entry.1@),
                found ==> j > 0 && j <= r@.len() && before[j - 1].0 == ev.0,
                !found ==> forall|i: int| 0 <= i < j ==> (#[trigger] before[i]).0 != ev.0,
            decreases r@.len() - j + (if found { 0int } else { 1int }),
        {
            proof {
                assert(before[j as int].0 == r@[j as int].0@);
            }
            if r[j].0 == entry.0 {
                found = true;
            }
            j = j + 1;
        }
        if found {
            let p = j - 1;
            r.remove(p);
            r.insert(p, entry);
            proof {
                subject_map_replace(before, p as int, ev);
                assert(subjects_view(r@) =~= before.update(p as int, ev));
            }
        } else {
            let mut p: usize = 0;
            while p < r.len() && id_precedes(&r[p].0, &entry.0)
                invariant
                    p <= r@.len(),
                    before == subjects_view(r@),
                    ev == (entry.0@, entry.1@),
                    forall|i: int| 0 <= i < p ==> id_less(#[trigger] before[i].0, ev.0),
                decreases r@.len() - p,
            {
                proof {
                    assert(before[p as int].0 == r@[p as int].0@);
                }
                p = p + 1;
            }
            proof {
                if p < r@.len() {
                    assert(before[p as int].0 == r@[p as int].0@);
                    assert(!id_less(before[p as int].0, ev.0));
                    id_less_is_total(before[p as int].0, ev.0);
                }
            }
            r.insert(p, entry);
            proof {
                subject_map_insert_fresh(before, p as int, ev);
                let next = before.insert(p as int, ev);
                assert(subjects_view(r@) =~= next);
                assert forall|i: int| 0 <= i < next.len() - 1 implies id_less(
                    #[trigger] next[i].0,
                    next[i + 1].0,
                ) by {
                    if i + 1 < p {
                        assert(next[i] == before[i] && next[i + 1] == before[i + 1]);
                    } else if i + 1 == p {
                        assert(next[i] == before[i]);
                    } else if i == p {
                        assert(next[i + 1] == before[i]);
                    } else {
                        assert(next[i] == before[i - 1] && next[i + 1] == before[i]);
                    }
                }
            }
        }
    }
    assert(original.take(original.len() as int) =~= original);
    r
}

proof fn id_less_irreflexive(a: Seq<char>)
    ensures
        !id_less(a, a),
    decreases a.len(),
{
    if a.len() > 0 {
        id_less_irreflexive(a.drop_first());
    }
}

proof fn id_less_transitive(a: Seq<char>, b: Seq<char>, c: Seq<char>)
    requires
        id_less(a, b),
        id_less(b, c),
    ensures
        id_less(a, c),
    decreases a.len(),
{
    if a.len() > 0 && b.len() > 0 && c.len() > 0 && a[0] == b[0] && b[0] == c[0] {
        id_less_transitive(a.drop_first(), b.drop_first(), c.drop_first());
    }
}

proof fn ascending_is_strict(entries: Seq<(Seq<char>, SubjectView)>, i: int, j: int)
    requires
        ids_ascending(entries),
        0 <= i < j < entries.len(),
    ensures
        id_less(entries[i].0, entries[j].0),
    decreases j - i,
{
    if j > i + 1 {
        ascending_is_strict(entries, i, j - 1);
        assert(id_less(entries[j - 1].0, entries[j].0));
        id_less_transitive(entries[i].0, entries[j - 1].0, entries[j].0);
    }
}

proof fn sorted_entries_are_determined(first: Seq<(Seq<char>, SubjectView)>, second: Seq<(Seq<char>, SubjectView)>)
    requires
        unique_ids(first),
        unique_ids(second),
        ids_ascending(first),
        ids_ascending(second),
        subject_map(first) == subject_map(second),
    ensures
        first == second,
    decreases first.len(),
{
    subject_map_of_unique(first);
    subject_map_of_unique(second);
    if first.len() == 0 {
        if second.len() > 0 {
            assert(subject_map(second).contains_key(second[0].0));
        }
        assert(first =~= second);
    } else {
        assert(subject_map(first).contains_key(first[0].0));
        assert(second.len() > 0);
        let n1 = first.len() - 1;
        let n2 = second.len() - 1;
        let k1 = first[n1].0;
        let k2 = second[n2].0;
        assert(subject_map(first).contains_key(k1));
        assert(subject_map(second).contains_key(k2));
        let j = choose|j: int| 0 <= j < second.len() && (#[trigger] second[j]).0 == k1;
        let i = choose|i: int| 0 <= i < first.len() && (#[trigger] first[i]).0 == k2;
        if k1 != k2 {
            ascending_is_strict(second, j, n2);
            ascending_is_strict(first, i, n1);
            id_less_transitive(k1, k2, k1);
            id_less_irreflexive(k1);
        }
        let r1 = first.drop_last();
        let r2 = second.drop_last();
        assert(unique_ids(r1)) by {
            assert forall|a: int, b: int| 0 <= a < b < r1.len() implies (#[trigger] r1[a]).0 != (
            #[trigger] r1[b]).0 by {
                assert(r1[a] == first[a] && r1[b] == first[b]);
            }
        }
        assert(unique_ids(r2)) by {
            assert forall|a: int, b: int| 0 <= a < b < r2.len() implies (#[trigger] r2[a]).0 != (
            #[trigger] r2[b]).0 by {
                assert(r2[a] == second[a] && r2[b] == second[b]);
            }
        }
        assert(ids_ascending(r1)) by {
            assert forall|a: int| 0 <= a < r1.len() - 1 implies id_less(#[trigger] r1[a].0, r1[a + 1].0) by {
                assert(r1[a] == first[a] && r1[a + 1] == first[a + 1]);
            }
        }
        assert(ids_ascending(r2)) by {
            assert forall|a: int| 0 <= a < r2.len() - 1 implies id_less(#[trigger] r2[a].0, r2[a + 1].0) by {
                assert(r2[a] == second[a] && r2[a + 1] == second[a + 1]);
            }
        }
        subject_map_of_unique(r1);
        subject_map_of_unique(r2);
        assert(subject_map(r1) =~= subject_map(first).remove(k1)) by {
            assert forall|k: Seq<char>| #[trigger] subject_map(r1).contains_key(k) implies k != k1 by {
                let a = choose|a: int| 0 <= a < r1.len() && (#[trigger] r1[a]).0 == k;
                assert(r1[a] == first[a]);
            }
        }
        assert(subject_map(r2) =~= subject_map(second).remove(k2)) by {
            assert forall|k: Seq<char>| #[trigger] subject_map(r2).contains_key(k) implies k != k2 by {
                let a = choose|a: int| 0 <= a < r2.len() && (#[trigger] r2[a]).0 == k;
                assert(r2[a] == second[a]);
            }
        }
        sorted_entries_are_determined(r1, r2);
        assert(first[n1] == second[n2]);
        assert(first =~= r1.push(first[n1]));
        assert(second =~= r2.push(second[n2]));
    }
}

/// Checking the same subjects in another order yields the identical mapping:
/// two results of [`subject_mapping`] over reorderings of one another are
/// equal entry for entry.
pub proof fn subject_mapping_is_order_independent(
    first: Seq<(Seq<char>, SubjectView)>,
    second: Seq<(Seq<char>, SubjectView)>,
    first_mapped: Seq<(Seq<char>, SubjectView)>,
    second_mapped: Seq<(Seq<char>, SubjectView)>,
)
    requires
        consistent_ids(first),
        consistent_ids(second),
        first.to_set() == second.to_set(),
        unique_ids(first_mapped),
        ids_ascending(first_mapped),
        subject_map(first_mapped) == subject_map(first),
        unique_ids(second_mapped),
        ids_ascending(second_mapped),
        subject_map(second_mapped) == subject_map(second),
    ensures
        first_mapped == second_mapped,
{
    subject_order_is_irrelevant(first, second);
    sorted_entries_are_determined(first_mapped, second_mapped);
}

} // verus!
