use self_identify::account::AccountId;
use self_identify::pseudonyms::Identifier;
use self_identify::registry::SelfIdentify;
use self_identify::result::Error;

fn acct(tag: u8) -> AccountId {
    AccountId::from_bytes(vec![tag; 32])
}

#[test]
fn codec_round_trip() {
    let id = Identifier::try_from_str("alice_01").unwrap();
    assert_eq!(id.to_text(), "alice_01");
    let id2 = Identifier::try_from_str("AZaz09__").unwrap();
    assert_eq!(id2.to_text(), "AZaz09__");
    let id3 = Identifier::try_from_str("The_Quick_Brown_Fox_Jumps_Over_0").unwrap();
    assert_eq!(id3.to_text(), "The_Quick_Brown_Fox_Jumps_Over_0");
}

#[test]
fn codec_encode_is_padded() {
    let id = Identifier::try_from_str("abcd").unwrap();
    let mut expect = vec![b'a', b'b', b'c', b'd'];
    expect.resize(32, 0u8);
    assert_eq!(id.encode(), expect);
    let full = Identifier::try_from_str("abcdefghijklmnopqrstuvwxyz_01234").unwrap();
    assert_eq!(full.encode(), b"abcdefghijklmnopqrstuvwxyz_01234".to_vec());
}

#[test]
fn codec_boundaries() {
    assert!(matches!(Identifier::try_from_str("abc"), Err(Error::BadPseudonymLength)));
    let long = "a".repeat(33);
    assert!(matches!(Identifier::try_from_str(&long), Err(Error::BadPseudonymLength)));
    assert!(Identifier::try_from_str("abcd").is_ok());
    assert!(Identifier::try_from_str(&"a".repeat(32)).is_ok());
    assert!(matches!(Identifier::try_from_str("ab-de"), Err(Error::BadStringInput)));
    assert!(matches!(Identifier::try_from_str("alice 01"), Err(Error::BadStringInput)));
    // the length check precedes the character check
    assert!(matches!(Identifier::try_from_str("a-"), Err(Error::BadPseudonymLength)));
}

#[test]
fn codec_takes_unicode_alphanumerics() {
    // the alphabet is Unicode letters and numbers plus underscore, and the
    // length is measured in characters, not in bytes
    let id = Identifier::try_from_str("h\u{00e9}llo").unwrap();
    assert_eq!(id.to_text(), "h\u{00e9}llo");
    let id = Identifier::try_from_str("\u{00e9}\u{00e9}\u{00e9}\u{00e9}").unwrap();
    assert_eq!(id.to_text(), "\u{00e9}\u{00e9}\u{00e9}\u{00e9}");
    assert!(matches!(
        Identifier::try_from_str("\u{00e9}\u{00e9}\u{00e9}"),
        Err(Error::BadPseudonymLength)
    ));
    // punctuation and whitespace stay outside the alphabet, wide or not
    assert!(matches!(Identifier::try_from_str("na\u{00ef}ve!"), Err(Error::BadStringInput)));
    assert!(matches!(Identifier::try_from_str("a\u{2014}bc"), Err(Error::BadStringInput)));
}

#[test]
fn codec_encodes_utf8() {
    // the canonical buffer holds the UTF-8 bytes, zero-padded: a wide
    // character takes more bytes than one
    let id = Identifier::try_from_str("h\u{00e9}llo").unwrap();
    let mut expect = vec![b'h', 0xC3, 0xA9, b'l', b'l', b'o'];
    expect.resize(32, 0u8);
    assert_eq!(id.encode(), expect);
}

#[test]
fn claim_and_get() {
    let authority = acct(0);
    let a = acct(1);
    let mut reg = SelfIdentify::new(authority);
    let (removed, inserted) = reg
        .any_add_or_update_pseudonym(&a, String::from("alice_01"), 7)
        .unwrap();
    assert!(removed.is_none());
    assert!(inserted.account.same_as(&a));
    assert_eq!(inserted.pseudonym, "alice_01");
    assert_eq!(inserted.at, 7);
    assert_eq!(reg.any_get_pseudonym_of(&a), Some(String::from("alice_01")));
    assert_eq!(reg.any_get_pseudonym(&a), Some(String::from("alice_01")));
    assert_eq!(reg.any_get_pseudonym_of(&acct(9)), None);
}

#[test]
fn reclaim_replaces() {
    let authority = acct(0);
    let a = acct(1);
    let mut reg = SelfIdentify::new(authority);
    reg.any_add_or_update_pseudonym(&a, String::from("alice_01"), 7).unwrap();
    let (removed, inserted) = reg
        .any_add_or_update_pseudonym(&a, String::from("alice_02"), 8)
        .unwrap();
    let rm = removed.unwrap();
    assert!(rm.account.same_as(&a));
    assert_eq!(rm.pseudonym, "alice_01");
    assert_eq!(rm.at, 8);
    assert!(inserted.account.same_as(&a));
    assert_eq!(inserted.pseudonym, "alice_02");
    assert_eq!(reg.any_get_pseudonym_of(&a), Some(String::from("alice_02")));
    // the old pseudonym is unbound again: another account may claim it
    let b = acct(2);
    assert!(reg.any_add_or_update_pseudonym(&b, String::from("alice_01"), 9).is_ok());
    assert_eq!(reg.any_get_pseudonym_of(&b), Some(String::from("alice_01")));
}

#[test]
fn verifier_administration() {
    let authority = acct(0);
    let v = acct(3);
    let mut reg = SelfIdentify::new(authority.clone());
    let ev = reg.authority_verifier(&authority, v.clone(), true, 4).unwrap();
    assert!(ev.who.same_as(&v));
    assert!(!ev.removed);
    assert_eq!(ev.at, 4);
    assert!(matches!(
        reg.authority_verifier(&authority, v.clone(), true, 5),
        Err(Error::VerifierAlreadyExist)
    ));
    let ev = reg.authority_verifier(&authority, v.clone(), false, 6).unwrap();
    assert!(ev.removed);
    assert!(matches!(
        reg.authority_verifier(&authority, v.clone(), false, 7),
        Err(Error::VerifierNotExist)
    ));
    let outsider = acct(8);
    assert!(matches!(
        reg.authority_verifier(&outsider, v, true, 8),
        Err(Error::InsufficientPermission)
    ));
}

#[test]
fn attest_flow() {
    let authority = acct(0);
    let a = acct(1);
    let v = acct(3);
    let w = acct(4);
    let mut reg = SelfIdentify::new(authority.clone());
    reg.any_add_or_update_pseudonym(&a, String::from("alice_02"), 7).unwrap();
    reg.authority_verifier(&authority, v.clone(), true, 7).unwrap();
    // only a registered verifier may attest
    assert!(matches!(
        reg.verifier_pseudonym_verify(&w, String::from("alice_02"), 8),
        Err(Error::VerifierNotExist)
    ));
    let ev = reg.verifier_pseudonym_verify(&v, String::from("alice_02"), 8).unwrap();
    assert!(ev.verifier.same_as(&v));
    assert!(ev.account.same_as(&a));
    assert_eq!(ev.pseudonym, "alice_02");
    assert_eq!(ev.at, 8);
    assert!(matches!(
        reg.verifier_pseudonym_verify(&v, String::from("alice_02"), 9),
        Err(Error::PseudonymAlreadyVerified)
    ));
    assert!(matches!(
        reg.verifier_pseudonym_verify(&v, String::from("nobody_1"), 9),
        Err(Error::PseudonymNotExist)
    ));
    assert!(matches!(
        reg.verifier_pseudonym_verify(&v, String::from("ab"), 9),
        Err(Error::BadPseudonymLength)
    ));
    assert!(matches!(
        reg.verifier_pseudonym_verify(&v, String::from("ab-de"), 9),
        Err(Error::BadStringInput)
    ));
}

#[test]
fn unicode_pseudonym_in_registry() {
    let authority = acct(0);
    let a = acct(1);
    let v = acct(3);
    let mut reg = SelfIdentify::new(authority.clone());
    let (_, inserted) = reg
        .any_add_or_update_pseudonym(&a, String::from("Jos\u{00e9}_99"), 1)
        .unwrap();
    assert_eq!(inserted.pseudonym, "Jos\u{00e9}_99");
    assert_eq!(reg.any_get_pseudonym_of(&a), Some(String::from("Jos\u{00e9}_99")));
    reg.authority_verifier(&authority, v.clone(), true, 1).unwrap();
    let ev = reg.verifier_pseudonym_verify(&v, String::from("Jos\u{00e9}_99"), 2).unwrap();
    assert!(ev.account.same_as(&a));
    assert!(matches!(
        reg.verifier_pseudonym_verify(&v, String::from("Jos\u{00e9}_99"), 3),
        Err(Error::PseudonymAlreadyVerified)
    ));
}

#[test]
fn removed_verifier_cannot_attest() {
    let authority = acct(0);
    let a = acct(1);
    let v = acct(3);
    let mut reg = SelfIdentify::new(authority.clone());
    reg.any_add_or_update_pseudonym(&a, String::from("alice_01"), 1).unwrap();
    reg.authority_verifier(&authority, v.clone(), true, 1).unwrap();
    reg.authority_verifier(&authority, v.clone(), false, 2).unwrap();
    assert!(matches!(
        reg.verifier_pseudonym_verify(&v, String::from("alice_01"), 3),
        Err(Error::VerifierNotExist)
    ));
}

#[test]
fn attest_guard_precedes_codec() {
    let authority = acct(0);
    let w = acct(4);
    let mut reg = SelfIdentify::new(authority);
    assert!(matches!(
        reg.verifier_pseudonym_verify(&w, String::from("ab"), 1),
        Err(Error::VerifierNotExist)
    ));
}

#[test]
fn reclaim_resets_attestation() {
    let authority = acct(0);
    let a = acct(1);
    let v = acct(3);
    let mut reg = SelfIdentify::new(authority.clone());
    reg.any_add_or_update_pseudonym(&a, String::from("alice_01"), 1).unwrap();
    reg.authority_verifier(&authority, v.clone(), true, 1).unwrap();
    reg.verifier_pseudonym_verify(&v, String::from("alice_01"), 2).unwrap();
    // claiming the same text anew stores a fresh, unattested record
    let (removed, _) = reg
        .any_add_or_update_pseudonym(&a, String::from("alice_01"), 3)
        .unwrap();
    assert_eq!(removed.unwrap().pseudonym, "alice_01");
    assert!(reg.verifier_pseudonym_verify(&v, String::from("alice_01"), 4).is_ok());
}

#[test]
fn taken_pseudonym_refused() {
    let authority = acct(0);
    let a = acct(1);
    let b = acct(2);
    let mut reg = SelfIdentify::new(authority);
    reg.any_add_or_update_pseudonym(&a, String::from("alice_01"), 1).unwrap();
    assert!(matches!(
        reg.any_add_or_update_pseudonym(&b, String::from("alice_01"), 2),
        Err(Error::TakenPseudonym)
    ));
    assert_eq!(reg.any_get_pseudonym_of(&b), None);
    assert_eq!(reg.any_get_pseudonym_of(&a), Some(String::from("alice_01")));
    // re-claiming one's own pseudonym is no theft
    assert!(reg.any_add_or_update_pseudonym(&a, String::from("alice_01"), 3).is_ok());
}

#[test]
fn reset_all_scope_and_gate() {
    let authority = acct(0);
    let a = acct(1);
    let v = acct(3);
    let outsider = acct(8);
    let mut reg = SelfIdentify::new(authority.clone());
    reg.authority_verifier(&authority, v.clone(), true, 1).unwrap();
    reg.any_add_or_update_pseudonym(&a, String::from("alice_01"), 1).unwrap();
    // a non-authority cannot reset, and the verifier set stays
    assert!(matches!(
        reg.authority_reset_all(&outsider, 2),
        Err(Error::InsufficientPermission)
    ));
    assert!(matches!(
        reg.authority_verifier(&authority, v.clone(), true, 2),
        Err(Error::VerifierAlreadyExist)
    ));
    // the authority's reset clears the verifier set and keeps the pseudonyms
    let ev = reg.authority_reset_all(&authority, 5).unwrap();
    assert_eq!(ev.at, 5);
    assert!(reg.authority_verifier(&authority, v, true, 6).is_ok());
    assert_eq!(reg.any_get_pseudonym_of(&a), Some(String::from("alice_01")));
}

#[test]
fn claim_invalid_no_mutation() {
    let authority = acct(0);
    let a = acct(1);
    let mut reg = SelfIdentify::new(authority);
    assert!(matches!(
        reg.any_add_or_update_pseudonym(&a, String::from("ab"), 1),
        Err(Error::BadPseudonymLength)
    ));
    assert!(matches!(
        reg.any_add_or_update_pseudonym(&a, String::from("ab-de"), 1),
        Err(Error::BadStringInput)
    ));
    assert_eq!(reg.any_get_pseudonym_of(&a), None);
}

#[test]
fn redirect_code_gate() {
    let authority = acct(0);
    let outsider = acct(8);
    let reg = SelfIdentify::new(authority.clone());
    let ev = reg.authority_redirect_code(&authority, vec![7u8; 32], 9).unwrap();
    assert_eq!(ev.new_code_hash, vec![7u8; 32]);
    assert_eq!(ev.at, 9);
    assert!(matches!(
        reg.authority_redirect_code(&outsider, vec![7u8; 32], 9),
        Err(Error::InsufficientPermission)
    ));
}

#[test]
fn authority_is_fixed() {
    let authority = acct(0);
    let reg = SelfIdentify::new(authority.clone());
    assert!(reg.any_get_authority().same_as(&authority));
}
