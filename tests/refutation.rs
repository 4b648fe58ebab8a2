use std::collections::HashSet;

use did_ledger::refutation::CredentialRefutationCategory;
use did_ledger::refutation::CredentialRefutations;
use did_ledger::refutation::PresentationRefutationCategory;
use did_ledger::refutation::RefutedCredentialDismissalError;

#[test]
fn credential_refutation_category_count() {
    assert_eq!(
        (0usize..100)
            .map(|i| CredentialRefutationCategory::from_usize(i))
            .take_while(|value| value.is_some())
            .filter_map(|value| value)
            .map(|value| value as usize + 1)
            .max()
            .unwrap(),
        CredentialRefutationCategory::COUNT
    );
}

#[test]
fn display_refuted_credential_dismissal_error_all_categories() {
    let categories = CredentialRefutations::from_iter(&[
        CredentialRefutationCategory::DeactivatedSubjectDocuments,
        CredentialRefutationCategory::Expired,
        CredentialRefutationCategory::Dormant,
    ]);
    let error = RefutedCredentialDismissalError { categories };
    let expected_str = "attempted to mark a credential as valid that was refuted for the following reasons: contains subjects with deactivated DID documents, the expiry date is in the past, the activation date is in the future";
    assert_eq!(expected_str, error.to_string());
}

#[test]
fn credential_refutations_iterator_roundtrip() {
    let categories = [
        CredentialRefutationCategory::DeactivatedSubjectDocuments,
        CredentialRefutationCategory::Dormant,
    ];
    let refutations = CredentialRefutations::from_iter(&categories);
    let expected_set: HashSet<CredentialRefutationCategory> = categories.into_iter().collect();
    let round_trip_set: HashSet<CredentialRefutationCategory> = refutations.iter().into_iter().collect();
    assert_eq!(expected_set, round_trip_set);
}

#[test]
fn credential_refutations_all_count() {
    assert_eq!(CredentialRefutations::all().count(), CredentialRefutationCategory::COUNT);
}

#[test]
fn credential_refutations_empty_count() {
    assert_eq!(CredentialRefutations::empty().count(), 0);
}

#[test]
fn credential_refutations_extend_contains() {
    let dormant = CredentialRefutationCategory::Dormant;
    let deactivated = CredentialRefutationCategory::DeactivatedSubjectDocuments;
    let mut refutations = CredentialRefutations::empty();
    assert!(!refutations.contains(&dormant));
    refutations.extend(&[dormant]);
    assert!(refutations.contains(&dormant));
    refutations.extend(&[dormant, deactivated]);
    assert!(refutations.contains(&deactivated));
    assert!(refutations.contains(&dormant));
}

#[test]
fn credential_refutations_insert() {
    let mut refutations = CredentialRefutations::empty();
    assert!(refutations.insert(CredentialRefutationCategory::DeactivatedSubjectDocuments));
    assert!(!refutations.insert(CredentialRefutationCategory::DeactivatedSubjectDocuments));
}

#[test]
fn credential_refutations_all_contains() {
    let refutations = CredentialRefutations::all();
    for i in 0..CredentialRefutationCategory::COUNT {
        let category = CredentialRefutationCategory::from_usize(i).unwrap();
        assert!(refutations.contains(&category));
    }
}

const EVERY_CATEGORY: [CredentialRefutationCategory; 3] = [
    CredentialRefutationCategory::DeactivatedSubjectDocuments,
    CredentialRefutationCategory::Expired,
    CredentialRefutationCategory::Dormant,
];

#[test]
fn empty_contains_nothing_and_all_contains_everything() {
    for c in EVERY_CATEGORY {
        assert!(!CredentialRefutations::empty().contains(&c));
        assert!(CredentialRefutations::all().contains(&c));
    }
}

#[test]
fn second_insert_leaves_count_unchanged() {
    let mut refutations = CredentialRefutations::empty();
    assert!(refutations.insert(CredentialRefutationCategory::Expired));
    assert_eq!(refutations.count(), 1);
    assert!(!refutations.insert(CredentialRefutationCategory::Expired));
    assert_eq!(refutations.count(), 1);
}

#[test]
fn iter_lists_distinct_members_in_ordinal_order() {
    let refutations = CredentialRefutations::from_iter(&[
        CredentialRefutationCategory::Dormant,
        CredentialRefutationCategory::DeactivatedSubjectDocuments,
        CredentialRefutationCategory::Dormant,
        CredentialRefutationCategory::DeactivatedSubjectDocuments,
    ]);
    assert_eq!(
        refutations.iter(),
        vec![CredentialRefutationCategory::DeactivatedSubjectDocuments, CredentialRefutationCategory::Dormant]
    );
    assert_eq!(refutations.count(), 2);
    assert!(CredentialRefutations::from_iter(&[]).iter().is_empty());
}

#[test]
fn extending_a_full_set_leaves_it_full() {
    let mut refutations = CredentialRefutations::all();
    refutations.extend(&EVERY_CATEGORY);
    refutations.extend(&[CredentialRefutationCategory::Expired, CredentialRefutationCategory::Expired]);
    assert_eq!(refutations, CredentialRefutations::all());
    assert_eq!(refutations.count(), 3);
}

#[test]
fn from_usize_past_the_last_category_is_none() {
    assert_eq!(CredentialRefutationCategory::from_usize(2), Some(CredentialRefutationCategory::Dormant));
    assert_eq!(CredentialRefutationCategory::from_usize(3), None);
    assert_eq!(CredentialRefutationCategory::Expired.to_usize(), 1);
}

#[test]
fn dismissal_message_with_one_category() {
    let categories = CredentialRefutations::from_iter(&[CredentialRefutationCategory::Expired]);
    let error = RefutedCredentialDismissalError { categories };
    assert_eq!(
        error.to_string(),
        "attempted to mark a credential as valid that was refuted for the following reasons: the expiry date is in the past"
    );
}

#[test]
fn dismissal_message_lists_in_ordinal_order() {
    let categories = CredentialRefutations::from_iter(&[
        CredentialRefutationCategory::Dormant,
        CredentialRefutationCategory::Expired,
    ]);
    let error = RefutedCredentialDismissalError { categories };
    assert_eq!(
        error.to_string(),
        "attempted to mark a credential as valid that was refuted for the following reasons: the expiry date is in the past, the activation date is in the future"
    );
}

#[test]
fn presentation_category_descriptions() {
    assert_eq!(
        PresentationRefutationCategory::InvalidSignature.description(),
        "the signature does not match the expected value"
    );
    assert_eq!(PresentationRefutationCategory::RefutedCredentials.description(), "contains refuted credentials");
    assert_eq!(
        CredentialRefutationCategory::DeactivatedSubjectDocuments.description(),
        "contains subjects with deactivated DID documents"
    );
}
