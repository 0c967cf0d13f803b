use vstd::prelude::*;

verus! {

/// Everything that can go wrong in a registry call. A failed call reports
/// exactly one of these and leaves the registry untouched.
#[derive(Clone, Copy, Debug, PartialEq, Eq, Structural)]
pub enum Error {
    /// A pseudonym held a character outside the allowed alphabet.
    BadStringInput,
    /// A pseudonym was shorter or longer than the allowed range.
    BadPseudonymLength,
    /// The pseudonym is already bound to a different account.
    TakenPseudonym,
    /// The caller is not the authority.
    InsufficientPermission,
    /// The account is already a member of the verifier set.
    VerifierAlreadyExist,
    /// The account is not a member of the verifier set.
    VerifierNotExist,
    /// No record is bound to the pseudonym.
    PseudonymNotExist,
    /// The pseudonym's record already carries an attestation.
    PseudonymAlreadyVerified,
}

} // verus!
