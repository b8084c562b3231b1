use solver_registry::attestation::{
    compose_fingerprint, verify, AttestationError, AttestationReport, QuoteVerdict, ReportData,
};
use solver_registry::codec::normalize_digest_hex;

const KEY: &str = "ed25519:3tTbKJ6nqPbXaQzoZrA6Y9Nmu6EfTJcRXMyeEz4pmLfb";
const COMPOSE: &str = "services:\n  solver:\n    image: solver:1.0\n";

fn report_data_for(key: &str) -> Vec<u8> {
    let mut out = vec![0u8, 1u8];
    out.extend_from_slice(&near_sdk::env::sha256(key.as_bytes()));
    out.extend_from_slice(&[0u8; 30]);
    out
}

fn quote_with(report_data: &[u8]) -> String {
    let mut quote = vec![0xabu8; 568];
    quote.extend_from_slice(report_data);
    quote.extend_from_slice(&[0xcd; 16]);
    hex::encode(quote)
}

fn good_verdict() -> QuoteVerdict {
    QuoteVerdict { signature_valid: true, collateral_not_before_s: 1_000, collateral_not_after_s: 2_000 }
}

fn report(quote_hex: String, verdict: QuoteVerdict, compose: Option<&str>) -> AttestationReport {
    AttestationReport { quote_hex, verdict, docker_compose_file: compose.map(|c| c.to_string()) }
}

fn fingerprint() -> String {
    hex::encode(near_sdk::env::sha256(COMPOSE.as_bytes()))
}

#[test]
fn report_data_binds_the_key() {
    let bytes = ReportData::new(KEY.to_string()).to_bytes();
    assert_eq!(bytes, report_data_for(KEY));
    assert_eq!(bytes.len(), 64);
}

#[test]
fn fingerprint_is_lowercase_sha256_hex() {
    let fp = compose_fingerprint(&COMPOSE.to_string());
    assert_eq!(fp, fingerprint());
    assert_eq!(fp.len(), 64);
    assert_eq!(
        compose_fingerprint(&String::new()),
        "e3b0c44298fc1c149afbf4c8996fb92427ae41e4649b934ca495991b7852b855"
    );
}

#[test]
fn digest_hex_is_normalized() {
    let upper = "E3B0C44298FC1C149AFBF4C8996FB92427AE41E4649B934CA495991B7852B855".to_string();
    assert_eq!(
        normalize_digest_hex(&upper),
        Some("e3b0c44298fc1c149afbf4c8996fb92427ae41e4649b934ca495991b7852b855".to_string())
    );
    assert_eq!(normalize_digest_hex(&"abcd".to_string()), None);
    assert_eq!(normalize_digest_hex(&"zz".repeat(32)), None);
    assert_eq!(normalize_digest_hex(&"a".repeat(63)), None);
}

#[test]
fn valid_report_yields_its_fingerprint() {
    let r = report(quote_with(&report_data_for(KEY)), good_verdict(), Some(COMPOSE));
    assert_eq!(verify(&r, &KEY.to_string(), 1_500, &vec![fingerprint()]), Ok(fingerprint()));
}

#[test]
fn three_rejections_are_distinct() {
    let approved = vec![fingerprint()];
    let wrong_key = report(quote_with(&report_data_for("ed25519:other")), good_verdict(), Some(COMPOSE));
    assert_eq!(
        verify(&wrong_key, &KEY.to_string(), 1_500, &approved),
        Err(AttestationError::ReportDataMismatch)
    );
    let unapproved = report(quote_with(&report_data_for(KEY)), good_verdict(), Some("services: {}\n"));
    assert_eq!(
        verify(&unapproved, &KEY.to_string(), 1_500, &approved),
        Err(AttestationError::UnapprovedFingerprint)
    );
    let fresh = report(quote_with(&report_data_for(KEY)), good_verdict(), Some(COMPOSE));
    assert_eq!(verify(&fresh, &KEY.to_string(), 2_001, &approved), Err(AttestationError::StaleCollateral));
    assert_eq!(verify(&fresh, &KEY.to_string(), 999, &approved), Err(AttestationError::StaleCollateral));
}

#[test]
fn malformed_and_unverified_reports() {
    let approved = vec![fingerprint()];
    let bad_hex = report("xyz".to_string(), good_verdict(), Some(COMPOSE));
    assert_eq!(verify(&bad_hex, &KEY.to_string(), 1_500, &approved), Err(AttestationError::MalformedInput));
    let short = report(hex::encode([0u8; 100]), good_verdict(), Some(COMPOSE));
    assert_eq!(verify(&short, &KEY.to_string(), 1_500, &approved), Err(AttestationError::MalformedInput));
    let no_compose = report(quote_with(&report_data_for(KEY)), good_verdict(), None);
    assert_eq!(verify(&no_compose, &KEY.to_string(), 1_500, &approved), Err(AttestationError::MalformedInput));
    let unsigned = report(
        quote_with(&report_data_for(KEY)),
        QuoteVerdict { signature_valid: false, ..good_verdict() },
        Some(COMPOSE),
    );
    assert_eq!(verify(&unsigned, &KEY.to_string(), 1_500, &approved), Err(AttestationError::VerificationFailed));
    let upper_quote = report(quote_with(&report_data_for(KEY)).to_uppercase(), good_verdict(), Some(COMPOSE));
    assert_eq!(verify(&upper_quote, &KEY.to_string(), 1_500, &approved), Ok(fingerprint()));
}
