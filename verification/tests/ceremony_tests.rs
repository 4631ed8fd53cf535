use ed25519_dalek::{Signer, SigningKey};
use opolys::ceremony::{check_ceremony_commitment, validate_ceremony_sources, CeremonySource};

fn source(name: &str, has_value: bool) -> CeremonySource {
    CeremonySource {
        name: name.to_string(),
        has_value,
        value_origin: "extracted".to_string(),
        evidence_note: None,
        evidence_timestamp_ms: None,
    }
}

fn manual(name: &str, note: Option<&str>, timestamp: Option<u64>) -> CeremonySource {
    CeremonySource {
        name: name.to_string(),
        has_value: true,
        value_origin: "manual_entry".to_string(),
        evidence_note: note.map(|n| n.to_string()),
        evidence_timestamp_ms: timestamp,
    }
}

fn five_production() -> Vec<CeremonySource> {
    ["usgs", "wgc", "lbma", "cme", "sge"].iter().map(|n| source(n, true)).collect()
}

#[test]
fn ceremony_sources_accepted() {
    let price = vec![source("lbma_price", true)];
    assert_eq!(validate_ceremony_sources(&five_production(), &price), Ok(()));
}

#[test]
fn ceremony_sources_too_few_production() {
    let mut production = five_production();
    production[2].has_value = false;
    production.push(source("extra", false));
    let price = vec![source("lbma_price", true)];
    assert_eq!(
        validate_ceremony_sources(&production, &price),
        Err("Genesis ceremony has only 4 production sources; need at least 5".to_string())
    );
}

#[test]
fn ceremony_sources_need_a_price() {
    let price = vec![source("lbma_price", false)];
    assert_eq!(
        validate_ceremony_sources(&five_production(), &price),
        Err("Genesis ceremony must include at least one price source".to_string())
    );
    assert_eq!(
        validate_ceremony_sources(&five_production(), &vec![]),
        Err("Genesis ceremony must include at least one price source".to_string())
    );
}

#[test]
fn ceremony_manual_source_needs_evidence() {
    let price = vec![source("lbma_price", true)];
    let mut production = five_production();
    production.push(manual("hand_entered", Some("   short note   "), Some(1_700_000_000_000)));
    assert_eq!(
        validate_ceremony_sources(&production, &price),
        Err("Genesis ceremony manual source 'hand_entered' is missing evidence".to_string())
    );

    let mut production = five_production();
    production.push(manual("hand_entered", Some("copied from the annual report"), None));
    assert!(validate_ceremony_sources(&production, &price).is_err());

    let mut production = five_production();
    production.push(manual("hand_entered", Some("copied from the annual report"), Some(1)));
    assert_eq!(validate_ceremony_sources(&production, &price), Ok(()));

    let price = vec![source("lbma_price", true), manual("price_by_hand", None, Some(1))];
    assert_eq!(
        validate_ceremony_sources(&five_production(), &price),
        Err("Genesis ceremony manual source 'price_by_hand' is missing evidence".to_string())
    );
}

fn hex(bytes: &[u8]) -> String {
    bytes.iter().map(|b| format!("{:02x}", b)).collect()
}

fn signed_commitment(canonical: &[u8]) -> (String, String, String) {
    let key = SigningKey::from_bytes(&[7u8; 32]);
    let master = opolys::crypto::hash(canonical);
    let signature = key.sign(master.as_bytes());
    (hex(master.as_bytes()), hex(key.verifying_key().as_bytes()), hex(&signature.to_bytes()))
}

#[test]
fn ceremony_commitment_accepted() {
    let canonical = br#"{"ceremony":"genesis","master_hash":"","operator_signature":""}"#;
    let (m, k, s) = signed_commitment(canonical);
    let (master, key, sig) = check_ceremony_commitment(canonical, &m, &k, &s).unwrap();
    assert_eq!(master, *opolys::crypto::hash(canonical).as_bytes());
    assert_eq!(key, *SigningKey::from_bytes(&[7u8; 32]).verifying_key().as_bytes());
    assert_eq!(hex(&sig), s);
}

#[test]
fn ceremony_commitment_refusals() {
    let canonical = br#"{"ceremony":"genesis"}"#;
    let (m, k, s) = signed_commitment(canonical);

    let err = check_ceremony_commitment(b"{\"ceremony\":\"other\"}", &m, &k, &s).unwrap_err();
    assert_eq!(err, "Genesis ceremony master_hash does not match attestation contents");

    let err = check_ceremony_commitment(canonical, "zz", &k, &s).unwrap_err();
    assert!(err.starts_with("master_hash must be hex: "));

    let err = check_ceremony_commitment(canonical, &m, &k[..62], &s).unwrap_err();
    assert_eq!(err, "operator_public_key must be 32 bytes, got 31");

    let err = check_ceremony_commitment(canonical, &m, &k, "abc").unwrap_err();
    assert!(err.starts_with("operator_signature must be hex: "));

    let mut bad_sig = s.clone().into_bytes();
    bad_sig[0] = if bad_sig[0] == b'0' { b'1' } else { b'0' };
    let bad_sig = String::from_utf8(bad_sig).unwrap();
    let err = check_ceremony_commitment(canonical, &m, &k, &bad_sig).unwrap_err();
    assert_eq!(err, "Genesis ceremony operator_signature verification failed");

    let other_key = hex(SigningKey::from_bytes(&[9u8; 32]).verifying_key().as_bytes());
    let err = check_ceremony_commitment(canonical, &m, &other_key, &s).unwrap_err();
    assert_eq!(err, "Genesis ceremony operator_signature verification failed");
}
