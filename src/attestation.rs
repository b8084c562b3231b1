//! Checking a worker's remote-attestation report: the quote binds the
//! worker's signing key, the collateral is current, the cryptographic check
//! passed, and the compose document hashes to an approved fingerprint.
use vstd::prelude::*;
use vstd::string::StrSliceExecFns;
use vstd::string::StringSliceAdditionalSpecFns;
use vstd::utf8::encode_utf8;
use crate::codec::{hex_decode, hex_decoded, hex_encode, hex_of, sha256, sha256_of};

verus! {

/// Where the report-data field lies in a TDX quote: after the 48-byte
/// header and the first 520 bytes of the TD report body.
pub const REPORT_DATA_OFFSET: usize = 568;

/// Length of the report-data field.
pub const REPORT_DATA_LEN: usize = 64;

/// Why an attestation report was refused.
#[derive(PartialEq, Eq, Structural, Debug, Clone, Copy)]
pub enum AttestationError {
    /// Bad hex, a quote too short to hold report data, or a TCB descriptor
    /// whose compose document could not be read.
    MalformedInput,
    /// The quote's signature chain did not verify.
    VerificationFailed,
    /// The current time lies outside the collateral's validity window.
    StaleCollateral,
    /// The quote's report data does not bind the caller's signing key.
    ReportDataMismatch,
    /// The compose document's fingerprint is not on the approved list.
    UnapprovedFingerprint,
}

/// What the cryptographic verification of a quote against its collateral
/// found.
#[derive(PartialEq, Eq, Structural, Debug, Clone, Copy)]
pub struct QuoteVerdict {
    /// The quote's signature chain verified against the collateral.
    pub signature_valid: bool,
    /// Start of the collateral's validity window, in seconds.
    pub collateral_not_before_s: u64,
    /// End of the collateral's validity window, in seconds.
    pub collateral_not_after_s: u64,
}

/// A worker's attestation report.
pub struct AttestationReport {
    /// The quote, as hex text.
    pub quote_hex: String,
    /// The outcome of verifying the quote and its collateral.
    pub verdict: QuoteVerdict,
    /// The docker compose file named by the TCB descriptor's application
    /// compose document; `None` where that document could not be read.
    pub docker_compose_file: Option<String>,
}

/// Version tags of the report-data payload.
pub enum ReportData {
    /// Version 1: the tag `0x0001`, the SHA-256 of the signing key's text,
    /// then zeros up to 64 bytes.
    V1 { public_key: String },
}

/// The report data that binds signing key `pk` (version 1).
pub open spec fn report_data_v1(pk: Seq<char>) -> Seq<u8> {
    seq![0u8, 1u8] + sha256_of(encode_utf8(pk)) + Seq::new(30, |i: int| 0u8)
}

/// The compose fingerprint of a compose file: its SHA-256 as lowercase hex.
pub open spec fn fingerprint_of(file: Seq<char>) -> Seq<char> {
    hex_of(sha256_of(encode_utf8(file)))
}

/// Whether `fp` stands on the list `approved`.
pub open spec fn listed(approved: Seq<String>, fp: Seq<char>) -> bool {
    exists|i: int| 0 <= i < approved.len() && (#[trigger] approved[i])@ == fp
}

/// The verdict on a report: the fingerprint it attests, or the first check
/// it fails, in this order: input well formed, signature, collateral window,
/// key binding, approval.
pub open spec fn attestation_outcome(
    report: AttestationReport,
    pk: Seq<char>,
    now_s: u64,
    approved: Seq<String>,
) -> Result<Seq<char>, AttestationError> {
    match hex_decoded(encode_utf8(report.quote_hex@)) {
        None => Err(AttestationError::MalformedInput),
        Some(quote) => if quote.len() < REPORT_DATA_OFFSET + REPORT_DATA_LEN
            || report.docker_compose_file is None {
            Err(AttestationError::MalformedInput)
        } else if !report.verdict.signature_valid {
            Err(AttestationError::VerificationFailed)
        } else if now_s < report.verdict.collateral_not_before_s || now_s
            > report.verdict.collateral_not_after_s {
            Err(AttestationError::StaleCollateral)
        } else if quote.subrange(
            REPORT_DATA_OFFSET as int,
            REPORT_DATA_OFFSET + REPORT_DATA_LEN,
        ) != report_data_v1(pk) {
            Err(AttestationError::ReportDataMismatch)
        } else if !listed(approved, fingerprint_of(report.docker_compose_file->Some_0@)) {
            Err(AttestationError::UnapprovedFingerprint)
        } else {
            Ok(fingerprint_of(report.docker_compose_file->Some_0@))
        },
    }
}

impl ReportData {
    pub open spec fn spec_bytes(&self) -> Seq<u8> {
        match self {
            ReportData::V1 { public_key } => report_data_v1(public_key@),
        }
    }

    /// The report data that binds `public_key`, in the current version.
    pub fn new(public_key: String) -> (r: ReportData)
        ensures
            r.spec_bytes() == report_data_v1(public_key@),
    {
        ReportData::V1 { public_key }
    }

    /// The 64 bytes of the payload.
    pub fn to_bytes(&self) -> (r: Vec<u8>)
        ensures
            r@ == self.spec_bytes(),
            r@.len() == REPORT_DATA_LEN,
    {
        match self {
            ReportData::V1 { public_key } => {
                let key_str = public_key.as_str();
                let digest = sha256(&key_str.as_bytes_vec());
                assert(key_str.spec_bytes() == encode_utf8(public_key@));
                let mut out: Vec<u8> = Vec::new();
                out.push(0u8);
                out.push(1u8);
                let mut i: usize = 0;
                while i < digest.len()
                    invariant
                        digest@.len() == 32,
                        i <= 32,
                        out@ == seq![0u8, 1u8] + digest@.subrange(0, i as int),
                    decreases 32 - i,
                {
                    out.push(digest[i]);
                    proof {
                        assert(digest@.subrange(0, i + 1) =~= digest@.subrange(0, i as int).push(digest@[i as int]));
                    }
                    i = i + 1;
                }
                let mut j: usize = 0;
                while j < 30
                    invariant
                        j <= 30,
                        digest@.len() == 32,
                        out@ == seq![0u8, 1u8] + digest@ + Seq::new(j as nat, |k: int| 0u8),
                    decreases 30 - j,
                {
                    out.push(0u8);
                    proof {
                        assert(Seq::new((j + 1) as nat, |k: int| 0u8) =~= Seq::new(j as nat, |k: int| 0u8).push(0u8));
                        assert(seq![0u8, 1u8] + digest@ + Seq::new((j + 1) as nat, |k: int| 0u8) =~= (seq![0u8, 1u8] + digest@ + Seq::new(j as nat, |k: int| 0u8)).push(0u8));
                    }
                    j = j + 1;
                }
                proof {
                    assert(digest@.subrange(0, 32) =~= digest@);
                }
                out
            },
        }
    }
}

/// The compose fingerprint of `docker_compose_file`.
pub fn compose_fingerprint(docker_compose_file: &String) -> (r: String)
    ensures
        r@ == fingerprint_of(docker_compose_file@),
{
    let bytes = docker_compose_file.as_str().as_bytes_vec();
    hex_encode(&sha256(&bytes))
}

fn find_listed(approved: &Vec<String>, fp: &String) -> (r: bool)
    ensures
        r == listed(approved@, fp@),
{
    let mut i: usize = 0;
    while i < approved.len()
        invariant
            i <= approved@.len(),
            forall|j: int| 0 <= j < i ==> (#[trigger] approved@[j])@ != fp@,
        decreases approved@.len() - i,
    {
        if approved[i] == *fp {
            return true;
        }
        i = i + 1;
    }
    false
}

/// Checks `report` for a worker whose signing key is `public_key`, at time
/// `now_s` in seconds, against the approved fingerprints `approved`;
/// returns the attested fingerprint.
#[verifier::loop_isolation(false)]
pub fn verify(
    report: &AttestationReport,
    public_key: &String,
    now_s: u64,
    approved: &Vec<String>,
) -> (r: Result<String, AttestationError>)
    ensures
        match (r, attestation_outcome(*report, public_key@, now_s, approved@)) {
            (Ok(fp), Ok(expected)) => fp@ == expected,
            (Err(e), Err(expected)) => e == expected,
            _ => false,
        },
{
    let quote = match hex_decode(report.quote_hex.as_str()) {
        Some(q) => q,
        None => {
            return Err(AttestationError::MalformedInput);
        },
    };
    if quote.len() < REPORT_DATA_OFFSET + REPORT_DATA_LEN {
        return Err(AttestationError::MalformedInput);
    }
    let file = match &report.docker_compose_file {
        Some(f) => f,
        None => {
            return Err(AttestationError::MalformedInput);
        },
    };
    if !report.verdict.signature_valid {
        return Err(AttestationError::VerificationFailed);
    }
    if now_s < report.verdict.collateral_not_before_s || now_s > report.verdict.collateral_not_after_s {
        return Err(AttestationError::StaleCollateral);
    }
    let key = public_key.clone();
    let expected = ReportData::new(key).to_bytes();
    assert(expected@ == report_data_v1(public_key@));
    let mut i: usize = 0;
    while i < REPORT_DATA_LEN
        invariant
            i <= REPORT_DATA_LEN,
            expected@.len() == REPORT_DATA_LEN,
            quote@.len() >= REPORT_DATA_OFFSET + REPORT_DATA_LEN,
            expected@ == report_data_v1(public_key@),
            forall|j: int| 0 <= j < i ==> quote@[REPORT_DATA_OFFSET + j] == #[trigger] expected@[j],
        decreases REPORT_DATA_LEN - i,
    {
        if quote[REPORT_DATA_OFFSET + i] != expected[i] {
            proof {
                let sub = quote@.subrange(REPORT_DATA_OFFSET as int, REPORT_DATA_OFFSET + REPORT_DATA_LEN);
                assert(sub[i as int] != expected@[i as int]);
                assert(sub != report_data_v1(public_key@));
            }
            return Err(AttestationError::ReportDataMismatch);
        }
        i = i + 1;
    }
    proof {
        let sub = quote@.subrange(REPORT_DATA_OFFSET as int, REPORT_DATA_OFFSET + REPORT_DATA_LEN);
        assert(sub =~= expected@);
    }
    let fp = compose_fingerprint(file);
    if !find_listed(approved, &fp) {
        return Err(AttestationError::UnapprovedFingerprint);
    }
    Ok(fp)
}

} // verus!
