//! Closed sets of reasons for which a credential or a presentation is refuted.
use vstd::prelude::*;

verus! {

/// A reason for which a credential is refuted.
///
/// The enumeration is closed: [`CredentialRefutations`] keeps one slot per
/// category, indexed by the category's ordinal.
#[derive(PartialEq, Eq, Structural, Hash, Clone, Copy, Debug)]
#[non_exhaustive]
pub enum CredentialRefutationCategory {
    /// At least one subject document is deactivated
    DeactivatedSubjectDocuments,
    /// The credential has expired
    Expired,
    /// The credential has not yet become active (its issuance date is in the future)
    Dormant,
}

impl CredentialRefutationCategory {
    /// The number of refutation categories.
    pub const COUNT: usize = 3;

    /// The stable ordinal of the category.
    pub open spec fn ordinal(self) -> nat {
        match self {
            CredentialRefutationCategory::DeactivatedSubjectDocuments => 0,
            CredentialRefutationCategory::Expired => 1,
            CredentialRefutationCategory::Dormant => 2,
        }
    }

    /// The category with the given ordinal, if there is one.
    pub open spec fn with_ordinal(i: int) -> Option<CredentialRefutationCategory> {
        if i == 0 {
            Some(CredentialRefutationCategory::DeactivatedSubjectDocuments)
        } else if i == 1 {
            Some(CredentialRefutationCategory::Expired)
        } else if i == 2 {
            Some(CredentialRefutationCategory::Dormant)
        } else {
            None
        }
    }

    pub open spec fn spec_description(self) -> Seq<char> {
        match self {
            CredentialRefutationCategory::DeactivatedSubjectDocuments =>
                "contains subjects with deactivated DID documents"@,
            CredentialRefutationCategory::Expired => "the expiry date is in the past"@,
            CredentialRefutationCategory::Dormant => "the activation date is in the future"@,
        }
    }

    /// Provides a description of the category
    pub fn description(&self) -> (r: &'static str)
        ensures
            r@ == self.spec_description(),
    {
        match self {
            CredentialRefutationCategory::DeactivatedSubjectDocuments =>
                "contains subjects with deactivated DID documents",
            CredentialRefutationCategory::Expired => "the expiry date is in the past",
            CredentialRefutationCategory::Dormant => "the activation date is in the future",
        }
    }

    /// The ordinal of the category.
    pub fn to_usize(&self) -> (r: usize)
        ensures
            r == self.ordinal(),
            r < Self::COUNT,
    {
        match self {
            CredentialRefutationCategory::DeactivatedSubjectDocuments => 0,
            CredentialRefutationCategory::Expired => 1,
            CredentialRefutationCategory::Dormant => 2,
        }
    }

    /// The category whose ordinal is `i`, or `None` past the last category.
    pub fn from_usize(i: usize) -> (r: Option<CredentialRefutationCategory>)
        ensures
            r == Self::with_ordinal(i as int),
            r.is_some() <==> i < Self::COUNT,
            r matches Some(c) ==> c.ordinal() == i,
    {
        if i == 0 {
            Some(CredentialRefutationCategory::DeactivatedSubjectDocuments)
        } else if i == 1 {
            Some(CredentialRefutationCategory::Expired)
        } else if i == 2 {
            Some(CredentialRefutationCategory::Dormant)
        } else {
            None
        }
    }
}

/// Every credential category, in ascending ordinal order.
pub open spec fn all_credential_categories() -> Seq<CredentialRefutationCategory> {
    seq![
        CredentialRefutationCategory::DeactivatedSubjectDocuments,
        CredentialRefutationCategory::Expired,
        CredentialRefutationCategory::Dormant,
    ]
}

/// A set of credential refutation categories, one flag per category.
#[derive(Clone, Copy, Debug, PartialEq, Eq)]
pub struct CredentialRefutations {
    // the flag at index i belongs to the category whose ordinal is i
    slots: [bool; 3],
}

impl View for CredentialRefutations {
    type V = Set<CredentialRefutationCategory>;

    closed spec fn view(&self) -> Set<CredentialRefutationCategory> {
        Set::new(|c: CredentialRefutationCategory| self.slots@[c.ordinal() as int])
    }
}

impl CredentialRefutations {
    /// The members of the set in ascending ordinal order.
    pub open spec fn members(self) -> Seq<CredentialRefutationCategory> {
        all_credential_categories().filter(|c: CredentialRefutationCategory| self@.contains(c))
    }

    /// Adds a value to the set.
    /// If the set did not have this value present, `true` is returned.
    /// If the set did have this value present, `false` is returned.
    pub fn insert(&mut self, category: CredentialRefutationCategory) -> (r: bool)
        ensures
            final(self)@ == old(self)@.insert(category),
            r == !old(self)@.contains(category),
    {
        let i = category.to_usize();
        let current = self.slots[i];
        self.slots[i] = true;
        assert(final(self)@ =~= old(self)@.insert(category));
        !current
    }

    /// The members of the set, in ascending ordinal order.
    pub fn iter(&self) -> (r: Vec<CredentialRefutationCategory>)
        ensures
            r@ == self.members(),
    {
        let mut r: Vec<CredentialRefutationCategory> = Vec::new();
        let mut i: usize = 0;
        while i < CredentialRefutationCategory::COUNT
            invariant
                i <= CredentialRefutationCategory::COUNT,
                r@ == all_credential_categories().take(i as int).filter(
                    |c: CredentialRefutationCategory| self@.contains(c),
                ),
            decreases CredentialRefutationCategory::COUNT - i,
        {
            let c = CredentialRefutationCategory::from_usize(i).unwrap();
            proof {
                assert(all_credential_categories().take(i + 1).drop_last()
                    =~= all_credential_categories().take(i as int));
                reveal(Seq::filter);
            }
            if self.slots[i] {
                r.push(c);
            }
            i = i + 1;
        }
        assert(all_credential_categories().take(3) =~= all_credential_categories());
        r
    }

    /// The members of the set are its ordinals' categories, each once, in
    /// ascending order.
    pub proof fn lemma_members(self)
        ensures
            self.members().no_duplicates(),
            self.members().to_set() == self@,
            self.members().len() == self@.len(),
            forall|i: int, j: int|
                0 <= i < j < self.members().len() ==> (#[trigger] self.members()[i]).ordinal()
                    < (#[trigger] self.members()[j]).ordinal(),
    {
        reveal_with_fuel(Seq::filter, 4);
        let d = CredentialRefutationCategory::DeactivatedSubjectDocuments;
        let e = CredentialRefutationCategory::Expired;
        let m = self.members();
        assert(all_credential_categories().drop_last().drop_last().drop_last() =~= Seq::<
            CredentialRefutationCategory,
        >::empty());
        assert(all_credential_categories().drop_last().drop_last() =~= seq![d]);
        assert(all_credential_categories().drop_last() =~= seq![d, e]);
        assert(m.to_set() =~= self@) by {
            assert forall|c: CredentialRefutationCategory| m.contains(c) <==> self@.contains(c) by {
                if self@.contains(c) {
                    let k = c.ordinal() as int;
                    assert(all_credential_categories()[k] == c);
                    all_credential_categories().lemma_filter_contains(
                        |c: CredentialRefutationCategory| self@.contains(c),
                        k,
                    );
                }
                if m.contains(c) {
                    let k = choose|k: int| 0 <= k < m.len() && m[k] == c;
                    all_credential_categories().lemma_filter_pred(
                        |c: CredentialRefutationCategory| self@.contains(c),
                        k,
                    );
                }
            }
        }
        m.unique_seq_to_set();
    }

    /// The number of members of the set.
    pub fn count(&self) -> (r: usize)
        ensures
            r == self@.len(),
            r == self.members().len(),
    {
        proof {
            self.lemma_members();
        }
        self.iter().len()
    }

    /// The set with no members.
    pub fn empty() -> (r: Self)
        ensures
            r@ == Set::<CredentialRefutationCategory>::empty(),
    {
        let r = Self { slots: [false, false, false] };
        assert(r@ =~= Set::<CredentialRefutationCategory>::empty());
        r
    }

    /// The set of every category.
    pub fn all() -> (r: Self)
        ensures
            r@ == Set::<CredentialRefutationCategory>::full(),
    {
        let r = Self { slots: [true, true, true] };
        assert(r@ =~= Set::<CredentialRefutationCategory>::full());
        r
    }

    /// Whether `category` is a member of the set.
    pub fn contains(&self, category: &CredentialRefutationCategory) -> (r: bool)
        ensures
            r == self@.contains(*category),
    {
        self.slots[category.to_usize()]
    }

    fn is_full(&self) -> (r: bool)
        ensures
            r == (self@ == Set::<CredentialRefutationCategory>::full()),
    {
        let r = self.slots[0] && self.slots[1] && self.slots[2];
        if r {
            assert(self@ =~= Set::<CredentialRefutationCategory>::full());
        } else if !self.slots[0] {
            assert(!self@.contains(CredentialRefutationCategory::DeactivatedSubjectDocuments));
        } else if !self.slots[1] {
            assert(!self@.contains(CredentialRefutationCategory::Expired));
        } else {
            assert(!self@.contains(CredentialRefutationCategory::Dormant));
        }
        r
    }

    /// Adds every category of `categories`, stopping early once the set holds
    /// every category.
    pub fn extend(&mut self, categories: &[CredentialRefutationCategory])
        ensures
            final(self)@ == old(self)@.union(categories@.to_set()),
    {
        let mut i: usize = 0;
        let mut full = self.is_full();
        while i < categories.len() && !full
            invariant
                i <= categories@.len(),
                self@ == old(self)@.union(categories@.take(i as int).to_set()),
                full == (self@ == Set::<CredentialRefutationCategory>::full()),
            decreases categories@.len() - i,
        {
            self.insert(categories[i]);
            proof {
                assert(categories@.take(i + 1) =~= categories@.take(i as int).push(categories@[i as int]));
                categories@.take(i as int).lemma_push_to_set_commute(categories@[i as int]);
            }
            i = i + 1;
            full = self.is_full();
        }
        proof {
            if full {
                assert(self@ =~= old(self)@.union(categories@.to_set()));
            } else {
                assert(categories@.take(i as int) =~= categories@);
            }
        }
    }

    /// The set of the categories in `categories`.
    pub fn from_iter(categories: &[CredentialRefutationCategory]) -> (r: Self)
        ensures
            r@ == categories@.to_set(),
    {
        let mut r = Self::empty();
        r.extend(categories);
        assert(r@ =~= categories@.to_set());
        r
    }
}

/// The error that dismisses a refuted credential as if it were valid.
#[derive(Debug)]
pub struct RefutedCredentialDismissalError {
    pub categories: CredentialRefutations,
}

pub open spec fn dismissal_header() -> Seq<char> {
    "attempted to mark a credential as valid that was refuted for the following reasons"@
}

/// The descriptions, the first after ": " and each other after ", ".
pub open spec fn listed(descriptions: Seq<Seq<char>>) -> Seq<char>
    decreases descriptions.len(),
{
    if descriptions.len() == 0 {
        Seq::empty()
    } else {
        listed(descriptions.drop_last()) + (if descriptions.len() == 1 {
            ": "@
        } else {
            ", "@
        }) + descriptions.last()
    }
}

impl RefutedCredentialDismissalError {
    /// The descriptions of the refuted categories, in ascending ordinal order.
    pub open spec fn descriptions(self) -> Seq<Seq<char>> {
        self.categories.members().map_values(|c: CredentialRefutationCategory| c.spec_description())
    }

    pub open spec fn spec_message(self) -> Seq<char> {
        dismissal_header() + listed(self.descriptions())
    }

    /// The error message: the header, then the description of every refuted
    /// category in ascending ordinal order, separated by ", ".
    pub fn to_string(&self) -> (r: String)
        ensures
            r@ == self.spec_message(),
    {
        let members = self.categories.iter();
        let mut s = "attempted to mark a credential as valid that was refuted for the following reasons".to_owned();
        let mut i: usize = 0;
        while i < members.len()
            invariant
                i <= members@.len(),
                members@ == self.categories.members(),
                s@ == dismissal_header() + listed(self.descriptions().take(i as int)),
            decreases members@.len() - i,
        {
            if i == 0 {
                s.append(": ");
            } else {
                s.append(", ");
            }
            s.append(members[i].description());
            proof {
                let d = self.descriptions();
                assert(d.take(i + 1).drop_last() =~= d.take(i as int));
                assert(s@ =~= dismissal_header() + listed(d.take(i + 1)));
            }
            i = i + 1;
        }
        assert(self.descriptions().take(i as int) =~= self.descriptions());
        s
    }
}

/// A reason for which a presentation is refuted.
#[derive(PartialEq, Eq, Structural, Hash, Clone, Copy, Debug)]
pub enum PresentationRefutationCategory {
    /// The presentation's signature does not match the expected value
    InvalidSignature,
    /// The presentation contains at least one refuted credential
    RefutedCredentials,
}

impl PresentationRefutationCategory {
    pub open spec fn spec_description(self) -> Seq<char> {
        match self {
            PresentationRefutationCategory::InvalidSignature =>
                "the signature does not match the expected value"@,
            PresentationRefutationCategory::RefutedCredentials => "contains refuted credentials"@,
        }
    }

    /// Provides a description of the category
    pub fn description(&self) -> (r: &'static str)
        ensures
            r@ == self.spec_description(),
    {
        match self {
            PresentationRefutationCategory::InvalidSignature =>
                "the signature does not match the expected value",
            PresentationRefutationCategory::RefutedCredentials => "contains refuted credentials",
        }
    }
}

/// No category is a member of the empty set, and every category is a member
/// of the full set.
pub proof fn empty_and_all_membership(c: CredentialRefutationCategory)
    ensures
        !Set::<CredentialRefutationCategory>::empty().contains(c),
        Set::<CredentialRefutationCategory>::full().contains(c),
{
}

/// Inserting a category into a set that lacks it reports a new member;
/// inserting it again reports none and leaves the set, and so its count,
/// unchanged.
pub proof fn insert_is_idempotent(s: Set<CredentialRefutationCategory>, c: CredentialRefutationCategory)
    requires
        !s.contains(c),
    ensures
        s.insert(c).contains(c),
        s.insert(c).insert(c) == s.insert(c),
        s.insert(c).insert(c).len() == s.insert(c).len(),
{
    assert(s.insert(c).insert(c) =~= s.insert(c));
}

/// The members listed by a set built from a sequence of categories are the
/// distinct categories of the sequence, whatever their order or repetition.
pub proof fn members_round_trip(r: CredentialRefutations, categories: Seq<CredentialRefutationCategory>)
    requires
        r@ == categories.to_set(),
    ensures
        r.members().to_set() == categories.to_set(),
        r.members().no_duplicates(),
{
    r.lemma_members();
}

/// Extending a full set with any categories leaves it full.
pub proof fn extend_full_is_unchanged(categories: Seq<CredentialRefutationCategory>)
    ensures
        Set::<CredentialRefutationCategory>::full().union(categories.to_set())
            == Set::<CredentialRefutationCategory>::full(),
{
    assert(Set::<CredentialRefutationCategory>::full().union(categories.to_set())
        =~= Set::<CredentialRefutationCategory>::full());
}

} // verus!
