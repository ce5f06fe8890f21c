use eidos_service::staging::{
    check_inspection, encoded_command, judge_identity, BoundedDownload, BoundedOutput, Inspection,
    ReportedIdentity, StagedDigest,
};
use eidos_service::updates::{ReleaseArtifact, RELEASE_DOWNLOAD_PREFIX};

/// The digest of the three bytes `abc`.
const ABC: &str = "ba7816bf8f01cfea414140de5dae2223b00361a396177a9cb410ff61f20015ad";

fn artifact(size: u64, sha256: &str) -> ReleaseArtifact {
    ReleaseArtifact {
        version: "0.5.1".into(),
        name: "eidos-v0.5.1-setup.exe".into(),
        download_url: format!("{RELEASE_DOWNLOAD_PREFIX}v0.5.1/eidos-v0.5.1-setup.exe"),
        size,
        sha256: sha256.into(),
    }
}

#[test]
fn a_download_must_have_the_announced_size_and_digest() {
    let a = artifact(3, ABC);
    let mut d = BoundedDownload::begin(&a, "0.5.0", 100).unwrap();
    d.accept(b"ab").unwrap();
    d.accept(b"c").unwrap();
    assert_eq!(d.complete(), Ok(()));

    let mut d = BoundedDownload::begin(&a, "0.5.0", 100).unwrap();
    d.accept(b"ab").unwrap();
    assert!(d.complete().is_err(), "one byte is missing");

    let mut d = BoundedDownload::begin(&a, "0.5.0", 100).unwrap();
    d.accept(b"abd").unwrap();
    assert!(d.complete().is_err(), "another digest");

    let mut d = BoundedDownload::begin(&a, "0.5.0", 100).unwrap();
    assert!(d.accept(b"abcd").is_err(), "more than was announced");
}

#[test]
fn staged_bytes_are_checked_again() {
    let a = artifact(3, ABC);
    let mut d = StagedDigest::begin(&a, 100, true, 3).unwrap();
    d.take(b"abc");
    assert_eq!(d.complete(&a), Ok(()));
    let mut d = StagedDigest::begin(&a, 100, true, 3).unwrap();
    d.take(b"abC");
    assert!(d.complete(&a).is_err());
    assert!(StagedDigest::begin(&a, 100, false, 3).is_err());
    assert!(StagedDigest::begin(&a, 100, true, 4).is_err());
    assert!(StagedDigest::begin(&a, 2, true, 3).is_err());
}

fn identity(status: &str, publisher: &str, product: &str, version: &str) -> ReportedIdentity {
    ReportedIdentity {
        status: status.into(),
        publisher: publisher.into(),
        product: Some(product.into()),
        version: Some(version.into()),
    }
}

#[test]
fn an_installer_must_be_signed_by_the_expected_publisher() {
    let judge = |i| judge_identity(i, "0.5.1", "CN=Test Publisher", "Eidos");
    let ok = judge(identity("Valid", "CN=Test Publisher", "Eidos", "0.5.1.0")).unwrap();
    assert_eq!(ok.publisher, "CN=Test Publisher");
    assert_eq!(ok.product, "Eidos");
    assert!(judge(identity("NotSigned", "CN=Test Publisher", "Eidos", "0.5.1")).is_err());
    assert!(judge(identity("Valid", "CN=Other", "Eidos", "0.5.1")).is_err());
    assert!(judge(identity("Valid", "CN=Test Publisher", "Other", "0.5.1")).is_err());
    assert!(judge(identity("Valid", "CN=Test Publisher", "Eidos", "0.5.2")).is_err());
}

#[test]
fn an_inspection_must_end_well() {
    let inspection = |timed_out, overflowed, success| Inspection {
        timed_out,
        overflowed,
        success,
        stderr: "boom".into(),
    };
    assert!(check_inspection(&inspection(false, false, true)).is_ok());
    assert!(check_inspection(&inspection(true, false, true)).is_err());
    assert!(check_inspection(&inspection(false, true, true)).is_err());
    assert!(check_inspection(&inspection(false, false, false))
        .unwrap_err()
        .contains("boom"));
}

#[test]
fn output_beyond_the_limit_is_dropped_and_noticed() {
    let mut out = BoundedOutput::new(4);
    out.accept(b"abc");
    assert!(!out.overflow);
    out.accept(b"def");
    assert_eq!(out.kept, b"abcd");
    assert!(out.overflow);
}

#[test]
fn a_script_is_handed_over_as_utf16_in_base64() {
    assert_eq!(encoded_command("A").as_deref(), Some("QQA="));
    assert_eq!(encoded_command("dir").as_deref(), Some("ZABpAHIA"));
    assert_eq!(encoded_command("").as_deref(), Some(""));
}
