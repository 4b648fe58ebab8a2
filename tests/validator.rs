use did_ledger::ledger::new_record;
use did_ledger::ledger::Address;
use did_ledger::ledger::LedgerError;
use did_ledger::ledger::LedgerOutput;
use did_ledger::ledger::NetworkName;
use did_ledger::refutation::CredentialRefutationCategory;
use did_ledger::validator::subject_mapping;
use did_ledger::validator::CredentialValidator;
use did_ledger::validator::CredentialVerdict;
use did_ledger::validator::DocumentValidation;
use did_ledger::validator::PresentationRefutation;
use did_ledger::validator::PresentationVerdict;

fn validator() -> CredentialValidator {
    CredentialValidator::new(NetworkName::try_new("smr".to_string()).unwrap())
}

fn checked(tag: u8, deactivated: bool) -> DocumentValidation {
    let record = new_record(Address::Ed25519([1u8; 32]), &[tag], 10);
    validator().check_document(&LedgerOutput::Alias(record), [tag; 32], deactivated).unwrap()
}

fn subject(id: &str, deactivated: bool) -> (String, DocumentValidation) {
    (id.to_string(), checked(id.len() as u8, deactivated))
}

#[test]
fn check_document_marks_deactivated_documents_unverified() {
    assert!(checked(1, false).is_verified());
    assert!(!checked(1, true).is_verified());
    assert_eq!(checked(2, false).document().payload, vec![2]);
    assert_eq!(checked(2, false).document().did.tag, [2u8; 32]);
    assert_eq!(
        validator().check_document(&LedgerOutput::Other(1), [0u8; 32], false),
        Err(LedgerError::NotARecord)
    );
}

#[test]
fn valid_credential_is_fully_verified_with_subjects_by_identifier() {
    let subjects = vec![subject("did:b", false), subject("did:a", false)];
    let verdict = validator().validate_credential(checked(1, false), subjects, true, 100, 50, Some(200));
    match verdict {
        CredentialVerdict::FullyVerified(v) => {
            assert!(v.issuer().is_verified());
            let ids: Vec<&str> = v.subjects().iter().map(|(id, _)| id.as_str()).collect();
            assert_eq!(ids, vec!["did:a", "did:b"]);
        }
        CredentialVerdict::Refuted(_) => panic!("expected a verified credential"),
    }
}

#[test]
fn expired_credential_with_deactivated_subject_reports_both() {
    let subjects = vec![subject("did:a", true)];
    let verdict = validator().validate_credential(checked(1, false), subjects, true, 300, 50, Some(200));
    match verdict {
        CredentialVerdict::Refuted(r) => {
            assert_eq!(
                r.categories.iter(),
                vec![CredentialRefutationCategory::DeactivatedSubjectDocuments, CredentialRefutationCategory::Expired]
            );
            assert!(!r.untrusted_issuer);
            assert!(!r.invalid_signature);
        }
        CredentialVerdict::FullyVerified(_) => panic!("expected a refuted credential"),
    }
}

#[test]
fn dormant_credential_is_refuted() {
    let verdict = validator().validate_credential(checked(1, false), vec![], true, 10, 50, None);
    match verdict {
        CredentialVerdict::Refuted(r) => {
            assert_eq!(r.categories.iter(), vec![CredentialRefutationCategory::Dormant]);
        }
        CredentialVerdict::FullyVerified(_) => panic!("expected a refuted credential"),
    }
}

#[test]
fn untrusted_issuer_and_bad_signature_refute_without_categories() {
    let verdict = validator().validate_credential(checked(1, true), vec![], false, 100, 50, None);
    match verdict {
        CredentialVerdict::Refuted(r) => {
            assert_eq!(r.categories.count(), 0);
            assert!(r.untrusted_issuer);
            assert!(r.invalid_signature);
        }
        CredentialVerdict::FullyVerified(_) => panic!("expected a refuted credential"),
    }
}

#[test]
fn subject_order_does_not_change_the_verdict() {
    let first = vec![subject("did:c", false), subject("did:a", true), subject("did:bb", false)];
    let second = vec![subject("did:bb", false), subject("did:c", false), subject("did:a", true)];
    let one = validator().validate_credential(checked(1, false), first.clone(), true, 100, 50, None);
    let two = validator().validate_credential(checked(1, false), second.clone(), true, 100, 50, None);
    assert_eq!(one, two);
    let first_ok = vec![subject("did:c", false), subject("did:a", false)];
    let second_ok = vec![subject("did:a", false), subject("did:c", false)];
    let one = validator().validate_credential(checked(1, false), first_ok, true, 100, 50, None);
    let two = validator().validate_credential(checked(1, false), second_ok, true, 100, 50, None);
    assert_eq!(one, two);
    assert_eq!(subject_mapping(first), subject_mapping(second));
}

#[test]
fn subject_mapping_keeps_the_later_entry_for_an_identifier() {
    let mapped = subject_mapping(vec![subject("did:z", false), subject("did:m", false), subject("did:z", true)]);
    assert_eq!(mapped.len(), 2);
    assert_eq!(mapped[0].0, "did:m");
    assert_eq!(mapped[1].0, "did:z");
    assert!(!mapped[1].1.is_verified());
}

#[test]
fn dismissing_a_refuted_credential_lists_its_categories() {
    let verdict = validator().validate_credential(checked(1, false), vec![subject("did:a", true)], true, 300, 400, Some(200));
    let error = verdict.into_validation().unwrap_err();
    assert_eq!(
        error.to_string(),
        "attempted to mark a credential as valid that was refuted for the following reasons: contains subjects with deactivated DID documents, the expiry date is in the past, the activation date is in the future"
    );
    let verified = validator().validate_credential(checked(1, false), vec![], true, 100, 50, None);
    assert!(verified.into_validation().is_ok());
}

#[test]
fn presentation_verdicts() {
    let good = || validator().validate_credential(checked(1, false), vec![], true, 100, 50, None);
    let bad = || validator().validate_credential(checked(1, false), vec![], true, 100, 500, None);
    match validator().validate_presentation(checked(2, false), true, vec![good(), good()]) {
        PresentationVerdict::FullyVerified(v) => {
            assert_eq!(v.credentials().len(), 2);
            assert!(v.holder().is_verified());
        }
        PresentationVerdict::Refuted(_) => panic!("expected a verified presentation"),
    }
    assert_eq!(
        validator().validate_presentation(checked(2, false), false, vec![good(), bad()]),
        PresentationVerdict::Refuted(PresentationRefutation {
            untrusted_holder: false,
            invalid_signature: true,
            refuted_credentials: true,
        })
    );
    assert_eq!(
        validator().validate_presentation(checked(2, true), true, vec![]),
        PresentationVerdict::Refuted(PresentationRefutation {
            untrusted_holder: true,
            invalid_signature: false,
            refuted_credentials: false,
        })
    );
}
