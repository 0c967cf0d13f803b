use vstd::prelude::*;

use crate::account::AccountId;
use crate::assoc::{kv_keys_unique, kv_map_of, lemma_kv_absent, lemma_kv_index, lemma_kv_push,
    lemma_kv_remove};
use crate::pseudonyms::{valid_pseudonym, pseudonym_check, info_ok, Identifier, Info, InfoModel};
use crate::result::Error;

verus! {

// ---------------------------------------------------------------------------
// Events
//
// Every successful state change is reported to the event transport. The
// registry builds the notices; handing them to the transport is the host's
// part.
// ---------------------------------------------------------------------------

/// Notice that a verifier attested a pseudonym binding.
pub struct IdentityVerified {
    pub verifier: AccountId,
    pub pseudonym: String,
    pub account: AccountId,
    pub at: u32,
}

/// Notice that an account claimed a pseudonym.
pub struct IdentityInserted {
    pub account: AccountId,
    pub pseudonym: String,
    pub at: u32,
}

/// Notice that an account's previous pseudonym was discarded.
pub struct IdentityRemoved {
    pub account: AccountId,
    pub pseudonym: String,
    pub at: u32,
}

/// Notice that the authority added or removed a verifier.
pub struct VerifierUpdated {
    pub who: AccountId,
    pub removed: bool,
    pub at: u32,
}

/// Notice that the authority reset the registry.
pub struct StoragePurged {
    pub at: u32,
}

/// Notice that the authority redirected the registry to new code.
pub struct ContractUpgraded {
    pub new_code_hash: Vec<u8>,
    pub at: u32,
}

// ---------------------------------------------------------------------------
// The mathematical model of the registry
// ---------------------------------------------------------------------------

/// The registry as mathematics: who administers it, who may attest, and the
/// two mirror mappings between accounts and pseudonyms.
#[verifier::ext_equal]
pub struct StateModel {
    pub authority: Seq<u8>,
    pub verifiers: Set<Seq<u8>>,
    pub accounts: Map<Seq<u8>, Seq<char>>,
    pub pseudonyms: Map<Seq<char>, InfoModel>,
}

/// The registry's cross-collection invariant. The two mappings are mirror
/// images: an account's entry names a pseudonym whose record points back at
/// that account, and every pseudonym record's owner holds exactly that
/// pseudonym. Every stored pseudonym is an accepted one and every record's
/// attestation is an atomic fact.
pub open spec fn inv(m: StateModel) -> bool {
    &&& forall|a: Seq<u8>| #[trigger] m.accounts.dom().contains(a) ==> m.pseudonyms.dom().contains(
        m.accounts[a],
    ) && m.pseudonyms[m.accounts[a]].owner == a
    &&& forall|p: Seq<char>| #[trigger] m.pseudonyms.dom().contains(p) ==> valid_pseudonym(p)
        && info_ok(m.pseudonyms[p]) && m.accounts.dom().contains(m.pseudonyms[p].owner)
        && m.accounts[m.pseudonyms[p].owner] == p
}

// ---------------------------------------------------------------------------
// Transitions of the model
//
// Each operation of the registry is specified as a function from the model,
// the caller and the call's arguments to either the next model or the exact
// error owed. The executable operations are proved to follow these functions
// to the letter, and the laws about the registry are stated over them.
// ---------------------------------------------------------------------------

/// Adding or removing a verifier: only the authority may, adding an existing
/// member or removing a missing one is refused, and nothing but the verifier
/// set changes.
pub open spec fn spec_set_verifier(m: StateModel, caller: Seq<u8>, v: Seq<u8>, add: bool) -> Result<
    StateModel,
    Error,
> {
    if caller != m.authority {
        Err(Error::InsufficientPermission)
    } else if add && m.verifiers.contains(v) {
        Err(Error::VerifierAlreadyExist)
    } else if !add && !m.verifiers.contains(v) {
        Err(Error::VerifierNotExist)
    } else if add {
        Ok(StateModel { verifiers: m.verifiers.insert(v), ..m })
    } else {
        Ok(StateModel { verifiers: m.verifiers.remove(v), ..m })
    }
}

/// The authority's reset: the verifier set is cleared; claimed pseudonyms
/// and their records are deliberately kept.
pub open spec fn spec_reset(m: StateModel, caller: Seq<u8>) -> Result<StateModel, Error> {
    if caller != m.authority {
        Err(Error::InsufficientPermission)
    } else {
        Ok(StateModel { verifiers: Set::empty(), ..m })
    }
}

/// Claiming a pseudonym. The string must pass the codec; a pseudonym bound
/// to a different account cannot be taken over. A previous pseudonym of the
/// caller is discarded wholesale, and the claim is stored fresh and
/// unattested.
pub open spec fn spec_claim(m: StateModel, caller: Seq<u8>, input: Seq<char>) -> Result<
    StateModel,
    Error,
> {
    match pseudonym_check(input) {
        Err(e) => Err(e),
        Ok(_) => if m.pseudonyms.dom().contains(input) && m.pseudonyms[input].owner != caller {
            Err(Error::TakenPseudonym)
        } else {
            let m1 = if m.accounts.dom().contains(caller) {
                StateModel {
                    accounts: m.accounts.remove(caller),
                    pseudonyms: m.pseudonyms.remove(m.accounts[caller]),
                    ..m
                }
            } else {
                m
            };
            Ok(
                StateModel {
                    accounts: m1.accounts.insert(caller, input),
                    pseudonyms: m1.pseudonyms.insert(
                        input,
                        InfoModel { owner: caller, verified_by: None, verified_at: None },
                    ),
                    ..m1
                },
            )
        },
    }
}

/// Attesting a pseudonym. Only a member of the verifier set may attest; the
/// pseudonym must pass the codec, be claimed, and not carry an attestation
/// yet; the attestation then records the verifier and the block height as
/// one fact.
pub open spec fn spec_attest(m: StateModel, caller: Seq<u8>, input: Seq<char>, at: u32) -> Result<
    StateModel,
    Error,
> {
    if !m.verifiers.contains(caller) {
        Err(Error::VerifierNotExist)
    } else {
        match pseudonym_check(input) {
            Err(e) => Err(e),
            Ok(_) => if !m.pseudonyms.dom().contains(input) {
                Err(Error::PseudonymNotExist)
            } else if m.pseudonyms[input].verified_at is Some {
                Err(Error::PseudonymAlreadyVerified)
            } else {
                Ok(
                    StateModel {
                        pseudonyms: m.pseudonyms.insert(
                            input,
                            InfoModel {
                                owner: m.pseudonyms[input].owner,
                                verified_by: Some(caller),
                                verified_at: Some(at),
                            },
                        ),
                        ..m
                    },
                )
            },
        }
    }
}

// ---------------------------------------------------------------------------
// The verifier set's representation
// ---------------------------------------------------------------------------

/// The members of the verifier sequence, each taken by its view, are
/// pairwise distinct.
pub open spec fn verifier_keys_unique(s: Seq<AccountId>) -> bool {
    forall|i: int, j: int| #![trigger s[i], s[j]] 0 <= i < j < s.len() ==> s[i]@ != s[j]@
}

/// The set of accounts a verifier sequence stands for.
pub open spec fn verifier_set_of(s: Seq<AccountId>) -> Set<Seq<u8>> {
    Set::new(|k: Seq<u8>| exists|i: int| 0 <= i < s.len() && s[i]@ == k)
}

/// Appending an absent member inserts exactly it into the set.
proof fn lemma_verifier_push(s: Seq<AccountId>, a: AccountId)
    requires
        verifier_keys_unique(s),
        forall|i: int| 0 <= i < s.len() ==> s[i]@ != a@,
    ensures
        verifier_keys_unique(s.push(a)),
        verifier_set_of(s.push(a)) == verifier_set_of(s).insert(a@),
{
    let t = s.push(a);
    assert forall|i: int, j: int| #![trigger t[i], t[j]] 0 <= i < j < t.len() implies t[i]@
        != t[j]@ by {
        if j < s.len() {
            assert(t[i] == s[i] && t[j] == s[j]);
        } else {
            assert(t[j] == a && t[i] == s[i]);
        }
    }
    assert forall|k: Seq<u8>|
        verifier_set_of(t).contains(k) implies verifier_set_of(s).insert(a@).contains(k) by {
        let i = choose|i: int| 0 <= i < t.len() && t[i]@ == k;
        if i < s.len() {
            assert(s[i]@ == k);
        } else {
            assert(t[i] == a);
        }
    }
    assert forall|k: Seq<u8>|
        verifier_set_of(s).insert(a@).contains(k) implies verifier_set_of(t).contains(k) by {
        if k == a@ {
            let n = s.len() as int;
            assert(t[n] == a);
            assert(0 <= n < t.len() && t[n]@ == k);
        } else {
            let i = choose|i: int| 0 <= i < s.len() && s[i]@ == k;
            assert(t[i] == s[i]);
            assert(0 <= i < t.len() && t[i]@ == k);
        }
    }
    assert(verifier_set_of(t) =~= verifier_set_of(s).insert(a@));
}

/// Taking a member out removes exactly it from the set.
proof fn lemma_verifier_remove(s: Seq<AccountId>, i: int)
    requires
        verifier_keys_unique(s),
        0 <= i < s.len(),
    ensures
        verifier_keys_unique(s.remove(i)),
        verifier_set_of(s.remove(i)) == verifier_set_of(s).remove(s[i]@),
{
    let t = s.remove(i);
    assert forall|x: int, y: int| #![trigger t[x], t[y]] 0 <= x < y < t.len() implies t[x]@
        != t[y]@ by {
        let ox = if x < i {
            x
        } else {
            x + 1
        };
        let oy = if y < i {
            y
        } else {
            y + 1
        };
        assert(t[x] == s[ox] && t[y] == s[oy]);
        assert(s[ox]@ != s[oy]@);
    }
    assert forall|k: Seq<u8>|
        verifier_set_of(t).contains(k) implies verifier_set_of(s).remove(s[i]@).contains(k) by {
        let x = choose|x: int| 0 <= x < t.len() && t[x]@ == k;
        let ox = if x < i {
            x
        } else {
            x + 1
        };
        assert(t[x] == s[ox]);
        assert(0 <= ox < s.len() && s[ox]@ == k);
        if ox < i {
            assert(s[ox]@ != s[i]@);
        } else {
            assert(s[i]@ != s[ox]@);
        }
    }
    assert forall|k: Seq<u8>|
        verifier_set_of(s).remove(s[i]@).contains(k) implies verifier_set_of(t).contains(k) by {
        let ox = choose|ox: int| 0 <= ox < s.len() && s[ox]@ == k;
        if ox < i {
            assert(t[ox] == s[ox]);
            assert(0 <= ox < t.len() && t[ox]@ == k);
        } else {
            assert(ox != i);
            assert(t[ox - 1] == s[ox]);
            assert(0 <= ox - 1 < t.len() && t[ox - 1]@ == k);
        }
    }
    assert(verifier_set_of(t) =~= verifier_set_of(s).remove(s[i]@));
}

// ---------------------------------------------------------------------------
// The registry
// ---------------------------------------------------------------------------

/// The pseudonym identity registry: the authority that administers it, the
/// accounts allowed to attest, and the claimed pseudonyms with their
/// attestation records, kept as mirror mappings.
pub struct SelfIdentify {
    authority: AccountId,
    verifiers: Vec<AccountId>,
    accounts: Vec<(AccountId, Identifier)>,
    pseudonyms: Vec<(Identifier, Info)>,
}

impl View for SelfIdentify {
    type V = StateModel;

    closed spec fn view(&self) -> StateModel {
        StateModel {
            authority: self.authority@,
            verifiers: verifier_set_of(self.verifiers@),
            accounts: kv_map_of(self.accounts@),
            pseudonyms: kv_map_of(self.pseudonyms@),
        }
    }
}

impl SelfIdentify {
    /// The stored collections hold each key at most once.
    pub closed spec fn rep_wf(&self) -> bool {
        &&& verifier_keys_unique(self.verifiers@)
        &&& kv_keys_unique(self.accounts@)
        &&& kv_keys_unique(self.pseudonyms@)
    }

    /// A well-formed registry: sound representation and the mirror
    /// invariant of the model. Every operation preserves this.
    pub open spec fn wf(&self) -> bool {
        &&& self.rep_wf()
        &&& inv(self@)
    }

    /// Creates an empty registry whose authority is its creator, fixed for
    /// the registry's lifetime.
    pub fn new(creator: AccountId) -> (r: SelfIdentify)
        ensures
            r.wf(),
            r@.authority == creator@,
            r@.verifiers == Set::<Seq<u8>>::empty(),
            r@.accounts == Map::<Seq<u8>, Seq<char>>::empty(),
            r@.pseudonyms == Map::<Seq<char>, InfoModel>::empty(),
    {
        let r = SelfIdentify {
            authority: creator,
            verifiers: Vec::new(),
            accounts: Vec::new(),
            pseudonyms: Vec::new(),
        };
        proof {
            assert(r@.verifiers =~= Set::<Seq<u8>>::empty());
            assert(r@.accounts =~= Map::<Seq<u8>, Seq<char>>::empty());
            assert(r@.pseudonyms =~= Map::<Seq<char>, InfoModel>::empty());
        }
        r
    }

    /// The authority account.
    pub fn any_get_authority(&self) -> (r: AccountId)
        ensures
            r@ == self@.authority,
    {
        self.authority.clone()
    }

    /// Looks a verifier up in the stored sequence.
    fn find_verifier(&self, a: &AccountId) -> (r: Option<usize>)
        ensures
            r matches Some(i) ==> i < self.verifiers@.len() && self.verifiers@[i as int]@ == a@
                && self@.verifiers.contains(a@),
            r is None ==> !self@.verifiers.contains(a@),
    {
        let mut i: usize = 0;
        while i < self.verifiers.len()
            invariant
                i <= self.verifiers@.len(),
                forall|j: int| 0 <= j < i ==> self.verifiers@[j]@ != a@,
            decreases self.verifiers@.len() - i,
        {
            if self.verifiers[i].same_as(a) {
                return Some(i);
            }
            i += 1;
        }
        proof {
            if self@.verifiers.contains(a@) {
                let j = choose|j: int| 0 <= j < self.verifiers@.len() && self.verifiers@[j]@ == a@;
                assert(false);
            }
        }
        None
    }

    /// Looks an account's entry up in the stored account sequence.
    fn find_account(&self, a: &AccountId) -> (r: Option<usize>)
        requires
            self.rep_wf(),
        ensures
            r matches Some(i) ==> i < self.accounts@.len() && self.accounts@[i as int].0@ == a@
                && self@.accounts.dom().contains(a@) && self@.accounts[a@] == self.accounts@[
                i as int
            ].1@,
            r is None ==> !self@.accounts.dom().contains(a@),
    {
        let mut i: usize = 0;
        while i < self.accounts.len()
            invariant
                self.rep_wf(),
                i <= self.accounts@.len(),
                forall|j: int| 0 <= j < i ==> self.accounts@[j].0@ != a@,
            decreases self.accounts@.len() - i,
        {
            if self.accounts[i].0.same_as(a) {
                proof {
                    lemma_kv_index(self.accounts@, i as int);
                }
                return Some(i);
            }
            i += 1;
        }
        proof {
            lemma_kv_absent(self.accounts@, a@);
        }
        None
    }

    /// Looks a pseudonym's record up in the stored pseudonym sequence.
    fn find_pseudonym(&self, p: &Identifier) -> (r: Option<usize>)
        requires
            self.rep_wf(),
        ensures
            r matches Some(i) ==> i < self.pseudonyms@.len() && self.pseudonyms@[i as int].0@ == p@
                && self@.pseudonyms.dom().contains(p@) && self@.pseudonyms[p@] == self.pseudonyms@[
                i as int
            ].1@,
            r is None ==> !self@.pseudonyms.dom().contains(p@),
    {
        let mut i: usize = 0;
        while i < self.pseudonyms.len()
            invariant
                self.rep_wf(),
                i <= self.pseudonyms@.len(),
                forall|j: int| 0 <= j < i ==> self.pseudonyms@[j].0@ != p@,
            decreases self.pseudonyms@.len() - i,
        {
            if self.pseudonyms[i].0.same_as(p) {
                proof {
                    lemma_kv_index(self.pseudonyms@, i as int);
                }
                return Some(i);
            }
            i += 1;
        }
        proof {
            lemma_kv_absent(self.pseudonyms@, p@);
        }
        None
    }

    /// Lets a call through only when the caller is the authority.
    fn ensure_caller_is_authority(&self, caller: &AccountId) -> (r: Result<(), Error>)
        ensures
            r is Ok <==> caller@ == self@.authority,
            r is Err ==> r == Err::<(), Error>(Error::InsufficientPermission),
    {
        if caller.same_as(&self.authority) {
            Ok(())
        } else {
            Err(Error::InsufficientPermission)
        }
    }

    /// Lets a call through only when the caller is a registered verifier:
    /// membership in the verifier set is what authorizes attesting.
    fn ensure_caller_is_verifier(&self, caller: &AccountId) -> (r: Result<(), Error>)
        ensures
            r is Ok <==> self@.verifiers.contains(caller@),
            r is Err ==> r == Err::<(), Error>(Error::VerifierNotExist),
    {
        match self.find_verifier(caller) {
            Some(_) => Ok(()),
            None => Err(Error::VerifierNotExist),
        }
    }

    /// Decides a code-redirect request: only the authority may point the
    /// registry at new code. Performing the switch is the host's part — and
    /// fatal to the call on host failure, by design — so success hands back
    /// the notice to emit once the host has switched.
    pub fn authority_redirect_code(&self, caller: &AccountId, new_code_hash: Vec<u8>, at: u32) -> (r:
        Result<ContractUpgraded, Error>)
        ensures
            r is Ok <==> caller@ == self@.authority,
            r matches Ok(ev) ==> ev.new_code_hash@ == new_code_hash@ && ev.at == at,
            r is Err ==> r == Err::<ContractUpgraded, Error>(Error::InsufficientPermission),
    {
        if let Err(e) = self.ensure_caller_is_authority(caller) {
            return Err(e);
        }
        Ok(ContractUpgraded { new_code_hash, at })
    }

    /// The authority's reset: clears the verifier set and reports the purge.
    /// Claimed pseudonyms and their attestation records are deliberately
    /// kept.
    pub fn authority_reset_all(&mut self, caller: &AccountId, at: u32) -> (r: Result<
        StoragePurged,
        Error,
    >)
        requires
            old(self).wf(),
        ensures
            final(self).wf(),
            (match spec_reset(old(self)@, caller@) {
                Ok(m2) => r matches Ok(ev) && final(self)@ == m2 && ev.at == at,
                Err(e) => r == Err::<StoragePurged, Error>(e) && final(self)@ == old(self)@,
            }),
    {
        if let Err(e) = self.ensure_caller_is_authority(caller) {
            return Err(e);
        }
        self.verifiers = Vec::new();
        proof {
            assert(self@.verifiers =~= Set::<Seq<u8>>::empty());
            let m2 = match spec_reset(old(self)@, caller@) {
                Ok(m) => m,
                Err(_) => old(self)@,
            };
            assert(self@ =~= m2);
        }
        Ok(StoragePurged { at })
    }

    /// The authority's verifier administration: adds the account to the
    /// verifier set, or removes it, and reports the change. Adding a member
    /// twice and removing a non-member are refused.
    pub fn authority_verifier(
        &mut self,
        caller: &AccountId,
        verifier: AccountId,
        add: bool,
        at: u32,
    ) -> (r: Result<VerifierUpdated, Error>)
        requires
            old(self).wf(),
        ensures
            final(self).wf(),
            (match spec_set_verifier(old(self)@, caller@, verifier@, add) {
                Ok(m2) => r matches Ok(ev) && final(self)@ == m2 && ev.who@ == verifier@
                    && ev.removed == !add && ev.at == at,
                Err(e) => r == Err::<VerifierUpdated, Error>(e) && final(self)@ == old(self)@,
            }),
    {
        if let Err(e) = self.ensure_caller_is_authority(caller) {
            return Err(e);
        }
        let found = self.find_verifier(&verifier);
        if add {
            if found.is_some() {
                return Err(Error::VerifierAlreadyExist);
            }
            let ev = VerifierUpdated { who: verifier.clone(), removed: false, at };
            proof {
                lemma_verifier_push(self.verifiers@, verifier);
            }
            self.verifiers.push(verifier);
            proof {
                let m2 = match spec_set_verifier(old(self)@, caller@, ev.who@, true) {
                    Ok(m) => m,
                    Err(_) => old(self)@,
                };
                assert(self@ =~= m2);
            }
            Ok(ev)
        } else {
            match found {
                None => Err(Error::VerifierNotExist),
                Some(i) => {
                    proof {
                        lemma_verifier_remove(self.verifiers@, i as int);
                    }
                    self.verifiers.remove(i);
                    proof {
                        let m2 = match spec_set_verifier(old(self)@, caller@, verifier@, false) {
                            Ok(m) => m,
                            Err(_) => old(self)@,
                        };
                        assert(self@ =~= m2);
                    }
                    Ok(VerifierUpdated { who: verifier, removed: true, at })
                },
            }
        }
    }

    /// Looks up the pseudonym an account holds: the decoded text, or nothing
    /// when the account never claimed one. A pure read, open to anyone.
    pub fn any_get_pseudonym_of(&self, of: &AccountId) -> (r: Option<String>)
        requires
            self.wf(),
        ensures
            r matches Some(s) ==> self@.accounts.dom().contains(of@) && s@ == self@.accounts[of@],
            r is None ==> !self@.accounts.dom().contains(of@),
    {
        match self.find_account(of) {
            Some(i) => Some(self.accounts[i].1.to_text()),
            None => None,
        }
    }

    /// Looks up the caller's own pseudonym. A pure read, open to anyone.
    pub fn any_get_pseudonym(&self, caller: &AccountId) -> (r: Option<String>)
        requires
            self.wf(),
        ensures
            r matches Some(s) ==> self@.accounts.dom().contains(caller@) && s@ == self@.accounts[
                caller@
            ],
            r is None ==> !self@.accounts.dom().contains(caller@),
    {
        self.any_get_pseudonym_of(caller)
    }

    /// A verifier's attestation of a pseudonym. Only a registered verifier
    /// may attest; the pseudonym must pass the codec, be claimed, and be
    /// unattested so far. Success records the verifier and the block height
    /// as one fact and reports the attestation; any failure leaves the
    /// registry untouched.
    pub fn verifier_pseudonym_verify(&mut self, caller: &AccountId, pseudonym: String, at: u32) -> (r:
        Result<IdentityVerified, Error>)
        requires
            old(self).wf(),
        ensures
            final(self).wf(),
            (match spec_attest(old(self)@, caller@, pseudonym@, at) {
                Ok(m2) => r matches Ok(ev) && final(self)@ == m2 && ev.verifier@ == caller@
                    && ev.pseudonym@ == pseudonym@ && ev.account@ == old(self)@.pseudonyms[
                    pseudonym@
                ].owner && ev.at == at,
                Err(e) => r == Err::<IdentityVerified, Error>(e) && final(self)@ == old(self)@,
            }),
    {
        if let Err(e) = self.ensure_caller_is_verifier(caller) {
            return Err(e);
        }
        let id = match Identifier::try_from_str(pseudonym.as_str()) {
            Ok(id) => id,
            Err(e) => return Err(e),
        };
        let j = match self.find_pseudonym(&id) {
            Some(j) => j,
            None => return Err(Error::PseudonymNotExist),
        };
        if self.pseudonyms[j].1.verified_at.is_some() {
            return Err(Error::PseudonymAlreadyVerified);
        }
        let owner = self.pseudonyms[j].1.owner.clone();
        proof {
            lemma_kv_remove(self.pseudonyms@, j as int);
        }
        self.pseudonyms.remove(j);
        proof {
            assert forall|x: int| 0 <= x < self.pseudonyms@.len() implies self.pseudonyms@[x].0@
                != id@ by {
                if self.pseudonyms@[x].0@ == id@ {
                    lemma_kv_index(self.pseudonyms@, x);
                }
            }
        }
        let info = Info {
            owner: owner.clone(),
            verified_by: Some(caller.clone()),
            verified_at: Some(at),
        };
        let entry = (id, info);
        proof {
            lemma_kv_push(self.pseudonyms@, entry);
        }
        self.pseudonyms.push(entry);
        let ev = IdentityVerified { verifier: caller.clone(), pseudonym, account: owner, at };
        proof {
            let m0 = old(self)@;
            let c = caller@;
            let p = ev.pseudonym@;
            let rec = InfoModel {
                owner: m0.pseudonyms[p].owner,
                verified_by: Some(c),
                verified_at: Some(at),
            };
            let m2 = StateModel { pseudonyms: m0.pseudonyms.insert(p, rec), ..m0 };
            assert(self@.pseudonyms =~= m2.pseudonyms);
            assert(self@ =~= m2);
            assert forall|q: Seq<char>| #[trigger] m2.pseudonyms.dom().contains(
                q,
            ) implies valid_pseudonym(q) && info_ok(m2.pseudonyms[q]) && m2.accounts.dom().contains(
                m2.pseudonyms[q].owner,
            ) && m2.accounts[m2.pseudonyms[q].owner] == q by {
                assert(m0.pseudonyms.dom().contains(q));
            }
            assert(inv(m2));
        }
        Ok(ev)
    }

    /// An account's claim of a pseudonym. The string must pass the codec,
    /// and a pseudonym bound to a different account cannot be taken over. A
    /// previous pseudonym of the caller is discarded first — record and
    /// attestation and all — and reported as removed; the claim is then
    /// stored fresh and unattested and reported as inserted. Any failure
    /// leaves the registry untouched and reports nothing.
    pub fn any_add_or_update_pseudonym(&mut self, caller: &AccountId, pseudonym: String, at: u32) -> (r:
        Result<(Option<IdentityRemoved>, IdentityInserted), Error>)
        requires
            old(self).wf(),
        ensures
            final(self).wf(),
            (match spec_claim(old(self)@, caller@, pseudonym@) {
                Ok(m2) => r matches Ok(evs) && final(self)@ == m2 && evs.1.account@ == caller@
                    && evs.1.pseudonym@ == pseudonym@ && evs.1.at == at && (evs.0 is Some
                    <==> old(self)@.accounts.dom().contains(caller@)) && (evs.0 matches Some(rm)
                    ==> rm.account@ == caller@ && rm.pseudonym@ == old(self)@.accounts[caller@]
                    && rm.at == at),
                Err(e) => r == Err::<(Option<IdentityRemoved>, IdentityInserted), Error>(e)
                    && final(self)@ == old(self)@,
            }),
    {
        let id = match Identifier::try_from_str(pseudonym.as_str()) {
            Ok(id) => id,
            Err(e) => return Err(e),
        };
        if let Some(j) = self.find_pseudonym(&id) {
            if !self.pseudonyms[j].1.owner.same_as(caller) {
                return Err(Error::TakenPseudonym);
            }
        }
        let mut removed: Option<IdentityRemoved> = None;
        if let Some(i) = self.find_account(caller) {
            let old_text = self.accounts[i].1.to_text();
            let j2opt = self.find_pseudonym(&self.accounts[i].1);
            proof {
                assert(j2opt is Some);
            }
            let j2 = j2opt.unwrap();
            proof {
                lemma_kv_remove(self.accounts@, i as int);
            }
            self.accounts.remove(i);
            proof {
                lemma_kv_remove(self.pseudonyms@, j2 as int);
            }
            self.pseudonyms.remove(j2);
            removed = Some(IdentityRemoved { account: caller.clone(), pseudonym: old_text, at });
        }
        proof {
            assert forall|x: int| 0 <= x < self.accounts@.len() implies self.accounts@[x].0@
                != caller@ by {
                if self.accounts@[x].0@ == caller@ {
                    lemma_kv_index(self.accounts@, x);
                }
            }
            assert forall|x: int| 0 <= x < self.pseudonyms@.len() implies self.pseudonyms@[x].0@
                != id@ by {
                if self.pseudonyms@[x].0@ == id@ {
                    lemma_kv_index(self.pseudonyms@, x);
                }
            }
        }
        let acct_entry = (caller.clone(), id.clone());
        proof {
            lemma_kv_push(self.accounts@, acct_entry);
        }
        self.accounts.push(acct_entry);
        let info = Info { owner: caller.clone(), verified_by: None, verified_at: None };
        let pseu_entry = (id, info);
        proof {
            lemma_kv_push(self.pseudonyms@, pseu_entry);
        }
        self.pseudonyms.push(pseu_entry);
        let inserted = IdentityInserted { account: caller.clone(), pseudonym, at };
        proof {
            let m0 = old(self)@;
            let c = caller@;
            let p = inserted.pseudonym@;
            let m1 = if m0.accounts.dom().contains(c) {
                StateModel {
                    accounts: m0.accounts.remove(c),
                    pseudonyms: m0.pseudonyms.remove(m0.accounts[c]),
                    ..m0
                }
            } else {
                m0
            };
            let fresh = InfoModel { owner: c, verified_by: None, verified_at: None };
            let m2 = StateModel {
                accounts: m1.accounts.insert(c, p),
                pseudonyms: m1.pseudonyms.insert(p, fresh),
                ..m1
            };
            assert(self@.accounts =~= m2.accounts);
            assert(self@.pseudonyms =~= m2.pseudonyms);
            assert(self@ =~= m2);
            assert(spec_claim(m0, c, p) == Ok::<StateModel, Error>(m2));
            assert forall|a: Seq<u8>| #[trigger] m2.accounts.dom().contains(
                a,
            ) implies m2.pseudonyms.dom().contains(m2.accounts[a]) && m2.pseudonyms[m2.accounts[a]].owner
                == a by {
                if a != c {
                    let pa = m2.accounts[a];
                    assert(m0.accounts.dom().contains(a) && m0.accounts[a] == pa);
                    assert(m0.pseudonyms.dom().contains(pa) && m0.pseudonyms[pa].owner == a);
                    if m0.accounts.dom().contains(c) {
                        assert(m0.pseudonyms[m0.accounts[c]].owner == c);
                        assert(pa != m0.accounts[c]);
                    }
                    if m0.pseudonyms.dom().contains(p) {
                        assert(m0.accounts[m0.pseudonyms[p].owner] == p);
                        assert(pa != p);
                    } else {
                        assert(pa != p);
                    }
                }
            }
            assert forall|q: Seq<char>| #[trigger] m2.pseudonyms.dom().contains(
                q,
            ) implies valid_pseudonym(q) && info_ok(m2.pseudonyms[q]) && m2.accounts.dom().contains(
                m2.pseudonyms[q].owner,
            ) && m2.accounts[m2.pseudonyms[q].owner] == q by {
                if q != p {
                    let o = m2.pseudonyms[q].owner;
                    assert(m0.pseudonyms.dom().contains(q) && m0.pseudonyms[q] == m2.pseudonyms[q]);
                    assert(m0.accounts.dom().contains(o) && m0.accounts[o] == q);
                    if m0.accounts.dom().contains(c) {
                        assert(q != m0.accounts[c]);
                        assert(o != c);
                    } else {
                        assert(o != c);
                    }
                }
            }
            assert(inv(m2));
        }
        Ok((removed, inserted))
    }
}

} // verus!
