//! Checks on a downloaded installer: its size and digest while it streams in,
//! the same again on the staged bytes, and its signed identity.

use crate::domain::opt_text;
use crate::encoding::{
    absorbed, base64_encode, base64_text, digest_finish, digest_new, digest_update, for_sha256,
    hex, hex_string, sha256, utf16, utf16_bytes, SHA256_LIMIT,
};
use crate::text::{decimal, push_decimal, same, trim, trimmed};
use crate::updates::{
    artifact_problem, names_release, product_version_matches, setup_url, validate_artifact,
    ArtifactModel, ReleaseArtifact, RELEASE_DOWNLOAD_PREFIX,
};
use vstd::prelude::*;
use vstd::string::*;

verus! {

// ----- the download ---------------------------------------------------------

/// Why a download is refused before it starts.
pub open spec fn download_problem(a: ArtifactModel, current: Seq<char>, max: u64) -> Option<
    Seq<char>,
> {
    match artifact_problem(a, current, max) {
        Some(p) => Some(p),
        None => if a.download_url != setup_url(a.version, a.name) {
            Some("artifact URL is not allowlisted"@)
        } else {
            None
        },
    }
}

/// Only an artifact that may be staged is downloaded, and only from the address
/// that its version and name give.
pub proof fn law_only_the_canonical_address_is_downloaded(
    a: ArtifactModel,
    current: Seq<char>,
    max: u64,
)
    ensures
        download_problem(a, current, max) is None <==> artifact_problem(a, current, max) is None
            && a.download_url == RELEASE_DOWNLOAD_PREFIX@ + "v"@ + a.version + "/"@ + a.name,
{
}

/// A download while its bytes come in.
pub struct BoundedDownload {
    size: u64,
    max: u64,
    expected: String,
    total: u64,
    digest: ring::digest::Context,
}

impl BoundedDownload {
    /// The bytes that were accepted.
    pub closed spec fn received(&self) -> Seq<u8> {
        absorbed(self.digest)
    }

    /// The size that the release declares.
    pub closed spec fn declared_size(&self) -> u64 {
        self.size
    }

    /// The configured bound.
    pub closed spec fn bound(&self) -> u64 {
        self.max
    }

    /// The digest that the release declares.
    pub closed spec fn declared_digest(&self) -> Seq<char> {
        self.expected@
    }

    pub closed spec fn wf(&self) -> bool {
        &&& for_sha256(self.digest)
        &&& self.total == absorbed(self.digest).len()
        &&& self.total <= self.size
        &&& self.total <= self.max
    }

    /// Begin a download, unless the artifact is not one this build stages, or
    /// not at its canonical address.
    pub fn begin(a: &ReleaseArtifact, current: &str, max: u64) -> (r: Result<
        BoundedDownload,
        String,
    >)
        ensures
            match download_problem(a@, current@, max) {
                Some(p) => r matches Err(e) && e@ == p,
                None => r matches Ok(d) && {
                    &&& d.wf()
                    &&& d.received() == Seq::<u8>::empty()
                    &&& d.declared_size() == a.size
                    &&& d.bound() == max
                    &&& d.declared_digest() == a.sha256@
                },
            },
    {
        match validate_artifact(a, current, max) {
            Err(e) => {
                return Err(e);
            },
            Ok(()) => {},
        }
        let url = RELEASE_DOWNLOAD_PREFIX.to_owned().concat("v").concat(&a.version).concat(
            "/",
        ).concat(&a.name);
        if !same(&a.download_url, &url) {
            return Err("artifact URL is not allowlisted".to_owned());
        }
        Ok(
            BoundedDownload {
                size: a.size,
                max,
                expected: a.sha256.clone(),
                total: 0,
                digest: digest_new(),
            },
        )
    }

    /// Take in the next bytes, unless they take the download past its declared
    /// size or the bound.
    pub fn accept(&mut self, chunk: &[u8]) -> (r: Result<(), String>)
        requires
            old(self).wf(),
        ensures
            final(self).wf(),
            final(self).declared_size() == old(self).declared_size(),
            final(self).bound() == old(self).bound(),
            final(self).declared_digest() == old(self).declared_digest(),
            ({
                let n = old(self).received().len() + chunk@.len();
                if n > u64::MAX {
                    &&& r matches Err(e) && e@ == "artifact size overflow"@
                    &&& final(self).received() == old(self).received()
                } else if n > old(self).bound() || n > old(self).declared_size() {
                    &&& r matches Err(e) && e@ == "artifact exceeded its declared size"@
                    &&& final(self).received() == old(self).received()
                } else {
                    r is Ok && final(self).received() == old(self).received() + chunk@
                }
            }),
    {
        let total = match self.total.checked_add(chunk.len() as u64) {
            Some(t) => t,
            None => {
                return Err("artifact size overflow".to_owned());
            },
        };
        if !(total <= self.max && total <= self.size) {
            return Err("artifact exceeded its declared size".to_owned());
        }
        digest_update(&mut self.digest, chunk);
        self.total = total;
        Ok(())
    }

    /// The stream ended: the download is good if it has exactly the declared
    /// size and digest.
    pub fn complete(self) -> (r: Result<(), String>)
        requires
            self.wf(),
            self.declared_size() < SHA256_LIMIT,
        ensures
            if self.received().len() != self.declared_size() {
                r matches Err(e) && e@ == "artifact size mismatch: expected "@ + decimal(
                    self.declared_size() as nat,
                ) + ", got "@ + decimal(self.received().len())
            } else if hex(sha256(self.received())) != self.declared_digest() {
                r matches Err(e) && e@ == "artifact SHA-256 mismatch"@
            } else {
                r is Ok
            },
    {
        if self.total != self.size {
            let mut m = "artifact size mismatch: expected ".to_owned();
            push_decimal(&mut m, self.size);
            m.append(", got ");
            push_decimal(&mut m, self.total);
            return Err(m);
        }
        let got = hex_string(&digest_finish(self.digest));
        if !same(&got, &self.expected) {
            return Err("artifact SHA-256 mismatch".to_owned());
        }
        Ok(())
    }
}

// ----- the staged bytes -----------------------------------------------------

/// A running check of the bytes that were staged.
pub struct StagedDigest {
    digest: ring::digest::Context,
}

impl StagedDigest {
    pub closed spec fn read(&self) -> Seq<u8> {
        absorbed(self.digest)
    }

    pub closed spec fn wf(&self) -> bool {
        for_sha256(self.digest)
    }

    /// Begin the check of a staged file, given whether it is a plain file and
    /// how long it is.
    pub fn begin(a: &ReleaseArtifact, max: u64, is_file: bool, len: u64) -> (r: Result<
        StagedDigest,
        String,
    >)
        ensures
            r is Ok <==> is_file && len == a.size && len <= max,
            r matches Ok(d) ==> d.wf() && d.read() == Seq::<u8>::empty(),
            r matches Err(e) ==> e@
                == "staged artifact size does not match the bounded release asset"@,
    {
        if !(is_file && len == a.size && len <= max) {
            return Err(
                "staged artifact size does not match the bounded release asset".to_owned(),
            );
        }
        Ok(StagedDigest { digest: digest_new() })
    }

    pub fn take(&mut self, chunk: &[u8])
        requires
            old(self).wf(),
        ensures
            final(self).wf(),
            final(self).read() == old(self).read() + chunk@,
    {
        digest_update(&mut self.digest, chunk);
    }

    pub fn complete(self, a: &ReleaseArtifact) -> (r: Result<(), String>)
        requires
            self.wf(),
            self.read().len() < SHA256_LIMIT,
        ensures
            r is Ok <==> hex(sha256(self.read())) == a.sha256@,
            r matches Err(e) ==> e@ == "staged artifact SHA-256 mismatch"@,
    {
        let got = hex_string(&digest_finish(self.digest));
        if !same(&got, &a.sha256) {
            return Err("staged artifact SHA-256 mismatch".to_owned());
        }
        Ok(())
    }
}

// ----- the signed identity --------------------------------------------------

#[derive(Debug)]
pub struct VerifiedIdentity {
    pub publisher: String,
    pub product: String,
}

/// What the system reports of a signed file.
#[derive(Debug)]
pub struct ReportedIdentity {
    pub status: String,
    pub publisher: String,
    pub product: Option<String>,
    pub version: Option<String>,
}

pub open spec fn or_missing(s: Option<String>) -> Seq<char> {
    match s {
        Some(t) => t@,
        None => "<missing>"@,
    }
}

fn text_or_missing(s: &Option<String>) -> (r: String)
    ensures
        r@ == or_missing(*s),
{
    match s {
        Some(t) => t.clone(),
        None => "<missing>".to_owned(),
    }
}

/// Why a reported identity is not the expected one.
pub open spec fn identity_problem(
    got: ReportedIdentity,
    version: Seq<char>,
    publisher: Seq<char>,
    product: Seq<char>,
) -> Option<Seq<char>> {
    if got.status@ != "Valid"@ {
        Some("Authenticode trust failed: "@ + got.status@)
    } else if got.publisher@ != publisher {
        Some("publisher mismatch: expected "@ + publisher + ", got "@ + got.publisher@)
    } else if opt_text(got.product) != Some(product) {
        Some("product mismatch: expected "@ + product + ", got "@ + or_missing(got.product))
    } else if !(got.version matches Some(v) && names_release(v@, version)) {
        Some("version mismatch: expected "@ + version + ", got "@ + or_missing(got.version))
    } else {
        None
    }
}

/// An identity is accepted exactly if the signature is valid, the publisher and
/// the product are the expected ones, letter for letter, and the version
/// resource names this very release. What is not reported is not accepted.
pub proof fn law_only_the_expected_identity_passes(
    got: ReportedIdentity,
    version: Seq<char>,
    publisher: Seq<char>,
    product: Seq<char>,
)
    ensures
        identity_problem(got, version, publisher, product) is None <==> {
            &&& got.status@ == "Valid"@
            &&& got.publisher@ == publisher
            &&& got.product is Some && got.product->0@ == product
            &&& got.version is Some && names_release(got.version->0@, version)
        },
{
}

/// Judge a reported identity: trusted, by the expected publisher, of the
/// expected product, and of exactly this release.
pub fn judge_identity(got: ReportedIdentity, version: &str, publisher: &str, product: &str) -> (r:
    Result<VerifiedIdentity, String>)
    ensures
        match identity_problem(got, version@, publisher@, product@) {
            Some(p) => r matches Err(e) && e@ == p,
            None => r matches Ok(v) && v.publisher@ == publisher@ && v.product@ == product@,
        },
{
    if !same(&got.status, "Valid") {
        return Err("Authenticode trust failed: ".to_owned().concat(&got.status));
    }
    if !same(&got.publisher, publisher) {
        return Err(
            "publisher mismatch: expected ".to_owned().concat(publisher).concat(", got ").concat(
                &got.publisher,
            ),
        );
    }
    let product_ok: bool = match &got.product {
        Some(p) => same(p, product),
        None => false,
    };
    if !product_ok {
        return Err(
            "product mismatch: expected ".to_owned().concat(product).concat(", got ").concat(
                &text_or_missing(&got.product),
            ),
        );
    }
    let version_ok: bool = match &got.version {
        Some(v) => product_version_matches(v, version),
        None => false,
    };
    if !version_ok {
        return Err(
            "version mismatch: expected ".to_owned().concat(version).concat(", got ").concat(
                &text_or_missing(&got.version),
            ),
        );
    }
    Ok(VerifiedIdentity { publisher: got.publisher, product: product.to_owned() })
}

/// How the process that inspects a signature ended.
#[derive(Debug)]
pub struct Inspection {
    pub timed_out: bool,
    /// Its output, or what it reported as errors, was longer than the bound.
    pub overflowed: bool,
    pub success: bool,
    pub stderr: String,
}

/// Why an inspection gives no answer.
pub open spec fn inspection_problem(i: Inspection) -> Option<Seq<char>> {
    if i.timed_out {
        Some("Windows signature inspection timed out"@)
    } else if i.overflowed {
        Some("Windows signature inspection output exceeded its bound"@)
    } else if !i.success {
        Some("Windows signature inspection failed: "@ + trim(i.stderr@))
    } else {
        None
    }
}

/// An inspection counts exactly if it ended in time, within bounds and well.
pub proof fn law_only_a_complete_inspection_counts(i: Inspection)
    ensures
        inspection_problem(i) is None <==> !i.timed_out && !i.overflowed && i.success,
{
}

pub fn check_inspection(i: &Inspection) -> (r: Result<(), String>)
    ensures
        match inspection_problem(*i) {
            Some(p) => r matches Err(e) && e@ == p,
            None => r is Ok,
        },
{
    if i.timed_out {
        return Err("Windows signature inspection timed out".to_owned());
    }
    if i.overflowed {
        return Err("Windows signature inspection output exceeded its bound".to_owned());
    }
    if !i.success {
        return Err(
            "Windows signature inspection failed: ".to_owned().concat(&trimmed(&i.stderr)),
        );
    }
    Ok(())
}

/// The largest output of an inspection.
pub const OUTPUT_LIMIT: usize = 64 * 1024;

/// How long an inspection may take.
pub const VERIFY_TIMEOUT_S: u64 = 30;

/// The output of a process, as far as the bound goes.
#[derive(Debug)]
pub struct BoundedOutput {
    pub kept: Vec<u8>,
    pub overflow: bool,
    pub limit: usize,
}

impl BoundedOutput {
    pub fn new(limit: usize) -> (r: BoundedOutput)
        ensures
            r.kept@ == Seq::<u8>::empty(),
            !r.overflow,
            r.limit == limit,
    {
        BoundedOutput { kept: Vec::new(), overflow: false, limit }
    }

    /// Keep what still fits, and remember whether anything did not.
    pub fn accept(&mut self, chunk: &[u8])
        requires
            old(self).kept@.len() <= old(self).limit,
        ensures
            final(self).limit == old(self).limit,
            final(self).kept@.len() <= final(self).limit,
            ({
                let room = old(self).limit - old(self).kept@.len();
                let n = if chunk@.len() <= room {
                    chunk@.len() as int
                } else {
                    room
                };
                &&& final(self).kept@ == old(self).kept@ + chunk@.take(n)
                &&& final(self).overflow == (old(self).overflow || chunk@.len() > room)
            }),
    {
        let room: usize = self.limit - self.kept.len();
        let mut i: usize = 0;
        assert(old(self).kept@ + chunk@.take(0) =~= old(self).kept@);
        while i < chunk.len() && i < room
            invariant
                0 <= i <= chunk.len(),
                i <= room,
                self.limit == old(self).limit,
                self.overflow == old(self).overflow,
                self.kept@ == old(self).kept@ + chunk@.take(i as int),
            decreases chunk.len() - i,
        {
            self.kept.push(chunk[i]);
            i += 1;
            assert(self.kept@ =~= old(self).kept@ + chunk@.take(i as int));
        }
        if chunk.len() > room {
            self.overflow = true;
        }
    }
}

/// The script that reports a file's signature and version resource. The path
/// is carried in the environment, so no punctuation in it can become script.
pub const INSPECTION_SCRIPT: &'static str =
    "$ErrorActionPreference='Stop';$p=[Environment]::GetEnvironmentVariable('EIDOS_UPDATE_VERIFY_PATH','Process');if([string]::IsNullOrWhiteSpace($p)){throw 'verification path is unavailable'};$s=Get-AuthenticodeSignature -LiteralPath $p;$v=[Diagnostics.FileVersionInfo]::GetVersionInfo($p);[pscustomobject]@{status=[string]$s.Status;publisher=if($s.SignerCertificate){$s.SignerCertificate.Subject}else{''};product=$v.ProductName;version=$v.ProductVersion}|ConvertTo-Json -Compress";

/// A script as the argument of an encoded command: UTF-16, then Base64.
pub fn encoded_command(script: &str) -> (r: Option<String>)
    ensures
        utf16(script@).len() <= usize::MAX / 2 ==> r is Some,
        r matches Some(s) ==> s@ == base64_text(utf16(script@)),
{
    let bytes = utf16_bytes(script);
    if bytes.len() > usize::MAX / 2 {
        return None;
    }
    Some(base64_encode(&bytes))
}

} // verus!
