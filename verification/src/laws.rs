use vstd::prelude::*;

use crate::pseudonyms::{valid_pseudonym, pseudonym_check};
use crate::registry::{inv, spec_attest, spec_claim, StateModel};
use crate::result::Error;

verus! {

/// A lookup that succeeds names the very pseudonym whose record points back
/// at the looked-up account: in every well-formed registry the account
/// mapping and the pseudonym mapping are mirror images, so
/// `m.accounts[a]`'s record is owned by `a` itself.
pub proof fn lemma_lookup_mirror(m: StateModel, a: Seq<u8>)
    requires
        inv(m),
        m.accounts.dom().contains(a),
    ensures
        m.pseudonyms.dom().contains(m.accounts[a]),
        m.pseudonyms[m.accounts[a]].owner == a,
{
}

/// Claiming a different pseudonym discards the old one wholesale: after an
/// account that held `m.accounts[a]` successfully claims `p2`, the old
/// pseudonym is gone from the records and the account holds `p2` and
/// nothing else.
pub proof fn lemma_reclaim_replaces(m: StateModel, a: Seq<u8>, p2: Seq<char>)
    requires
        inv(m),
        m.accounts.dom().contains(a),
        spec_claim(m, a, p2) is Ok,
        p2 != m.accounts[a],
    ensures
        spec_claim(m, a, p2) matches Ok(m2) && !m2.pseudonyms.dom().contains(m.accounts[a])
            && m2.accounts.dom().contains(a) && m2.accounts[a] == p2,
{
}

/// Attestation is owed exactly once per claim: on a claimed, unattested
/// pseudonym the attestation of any registered verifier succeeds and
/// records the verifier and the height together, and from then on every
/// further attestation of that pseudonym — by any registered verifier, at
/// any height — is refused as already verified, until the pseudonym is
/// claimed anew.
pub proof fn lemma_attest_exactly_once(m: StateModel, c: Seq<u8>, p: Seq<char>, at: u32)
    requires
        inv(m),
        m.verifiers.contains(c),
        m.pseudonyms.dom().contains(p),
        m.pseudonyms[p].verified_at is None,
    ensures
        spec_attest(m, c, p, at) matches Ok(m2) && m2.pseudonyms.dom().contains(p)
            && m2.pseudonyms[p].verified_by == Some(c) && m2.pseudonyms[p].verified_at == Some(at)
            && (forall|c2: Seq<u8>, at2: u32|
            m2.verifiers.contains(c2) ==> spec_attest(m2, c2, p, at2) == Err::<StateModel, Error>(
                Error::PseudonymAlreadyVerified,
            )),
{
    assert(valid_pseudonym(p));
    assert(pseudonym_check(p) is Ok);
}

} // verus!
