//! Release discovery and verified, bounded installer staging.
//!
//! This module deliberately stops before installation. It accepts only the
//! canonical setup asset of the latest release from the project's repository,
//! verifies its release digest and Windows publisher/product metadata, and
//! keeps durable progress.

use crate::domain::{copy_opt, opt_text, UnixNanos};
use crate::text::{
    all_digits, chars_of, decimal, decimal_string, ends_with, has_prefix, has_suffix,
    hex_digit_char, is_digit, is_hex_digit, law_decimal_reads_back, lemma_split_join,
    lemma_split_single, lower_all, lowered, parse_unsigned, parts_at, push_decimal, same, split,
    split_bounds, starts_with, string_of, trim, trim_bounds, trimmed, unsigned_value,
};
use crate::staging::VerifiedIdentity;
use vstd::prelude::*;
use vstd::string::*;

verus! {

pub const RELEASE_DOWNLOAD_PREFIX: &'static str =
    "https://github.com/josiah-nelson/eidos/releases/download/";

pub const DEFAULT_MAX_ARTIFACT_BYTES: u64 = 256 * 1024 * 1024;

pub const HARD_MAX_ARTIFACT_BYTES: u64 = 512 * 1024 * 1024;

pub const MIN_ARTIFACT_BYTES: u64 = 1024 * 1024;

// ----- versions -------------------------------------------------------------

/// `s` without its `v` prefix, if it has one.
pub open spec fn without_v(s: Seq<char>) -> Seq<char> {
    if s.len() > 0 && s[0] == 'v' {
        s.subrange(1, s.len() as int)
    } else {
        s
    }
}

/// `s` without any leading `v`.
pub open spec fn without_any_v(s: Seq<char>) -> Seq<char>
    decreases s.len(),
{
    if s.len() > 0 && s[0] == 'v' {
        without_any_v(s.subrange(1, s.len() as int))
    } else {
        s
    }
}

/// The numbers of a dotted version, if every part is one.
pub open spec fn numbers(parts: Seq<Seq<char>>) -> Option<Seq<u64>>
    decreases parts.len(),
{
    if parts.len() == 0 {
        Some(Seq::empty())
    } else {
        match (numbers(parts.drop_last()), unsigned_value(parts.last())) {
            (Some(init), Some(n)) => Some(init.push(n)),
            _ => None,
        }
    }
}

/// The parts of a version, with an optional `v` prefix.
pub open spec fn version_parts(value: Seq<char>) -> Option<Seq<u64>> {
    numbers(split(without_v(trim(value)), '.'))
}

/// The parts of a version resource, behind any leading `v`.
pub open spec fn resource_parts(value: Seq<char>) -> Option<Seq<u64>> {
    numbers(split(without_any_v(trim(value)), '.'))
}

pub struct VersionModel {
    pub major: u64,
    pub minor: u64,
    pub patch: u64,
}

/// Exactly three numeric components, with an optional `v` prefix. Anything
/// else (a nightly tag, a docs tag) is not a release this build reasons about.
pub open spec fn version_of(value: Seq<char>) -> Option<VersionModel> {
    match version_parts(value) {
        Some(n) => if n.len() == 3 {
            Some(VersionModel { major: n[0], minor: n[1], patch: n[2] })
        } else {
            None
        },
        None => None,
    }
}

/// Whether `b` comes after `a`.
pub open spec fn later(a: VersionModel, b: VersionModel) -> bool {
    b.major > a.major || (b.major == a.major && (b.minor > a.minor || (b.minor == a.minor && b.patch
        > a.patch)))
}

/// Newer in any direction, including a new major. Advisory only.
pub open spec fn is_newer(current: Seq<char>, candidate: Seq<char>) -> bool {
    match (version_of(current), version_of(candidate)) {
        (Some(c), Some(n)) => later(c, n),
        _ => false,
    }
}

/// Newer *and* the same major: the only shape this build will ever stage.
pub open spec fn is_compatible_newer(current: Seq<char>, candidate: Seq<char>) -> bool {
    match (version_of(current), version_of(candidate)) {
        (Some(c), Some(n)) => n.major == c.major && later(c, n),
        _ => false,
    }
}

fn parse_parts(value: &str) -> (r: Option<Vec<u64>>)
    ensures
        match r {
            Some(v) => version_parts(value@) == Some(v@),
            None => version_parts(value@) is None,
        },
{
    let v = chars_of(value);
    let (from, to) = trim_bounds(&v);
    let mut a: usize = from;
    let ghost trimmed_text = trim(value@);
    if a < to && v[a] == 'v' {
        assert(v@.subrange(a as int, to as int).subrange(1, to - a) =~= v@.subrange(
            a + 1,
            to as int,
        ));
        a += 1;
    }
    assert(v@.subrange(a as int, to as int) == without_v(trimmed_text));
    parse_numbers(&v, a, to)
}

fn parse_resource(value: &str) -> (r: Option<Vec<u64>>)
    ensures
        match r {
            Some(v) => resource_parts(value@) == Some(v@),
            None => resource_parts(value@) is None,
        },
{
    let v = chars_of(value);
    let (from, to) = trim_bounds(&v);
    let mut a: usize = from;
    let ghost trimmed_text = trim(value@);
    while a < to && v[a] == 'v'
        invariant
            from <= a <= to <= v.len(),
            v@ == value@,
            without_any_v(v@.subrange(a as int, to as int)) == without_any_v(trimmed_text),
        decreases to - a,
    {
        assert(v@.subrange(a as int, to as int).subrange(1, to - a) =~= v@.subrange(
            a + 1,
            to as int,
        ));
        a += 1;
    }
    assert(v@.subrange(a as int, to as int) == without_any_v(trimmed_text));
    parse_numbers(&v, a, to)
}

fn parse_numbers(v: &Vec<char>, from: usize, to: usize) -> (r: Option<Vec<u64>>)
    requires
        from <= to <= v.len(),
    ensures
        ({
            let found = numbers(split(v@.subrange(from as int, to as int), '.'));
            match r {
                Some(n) => found == Some(n@),
                None => found is None,
            }
        }),
{
    let bounds = split_bounds(v, from, to, '.');
    let ghost parts = parts_at(v@, bounds@);
    let mut out: Vec<u64> = Vec::new();
    let mut i: usize = 0;
    assert(numbers(parts.take(0)) == Some(out@)) by {
        assert(out@ =~= Seq::<u64>::empty());
    }
    while i < bounds.len()
        invariant
            0 <= i <= bounds.len(),
            parts == parts_at(v@, bounds@),
            parts == split(v@.subrange(from as int, to as int), '.'),
            forall|k: int|
                0 <= k < bounds.len() ==> (#[trigger] bounds@[k]).0 <= bounds@[k].1 <= v.len(),
            numbers(parts.take(i as int)) == Some(out@),
        decreases bounds.len() - i,
    {
        assert(parts.take(i + 1).drop_last() =~= parts.take(i as int));
        assert(parts.take(i + 1).last() == v@.subrange(
            bounds@[i as int].0 as int,
            bounds@[i as int].1 as int,
        ));
        match parse_unsigned(v, bounds[i].0, bounds[i].1) {
            Some(n) => {
                out.push(n);
            },
            None => {
                proof {
                    lemma_numbers_prefix(parts, i + 1);
                }
                return None;
            },
        }
        i += 1;
    }
    assert(parts.take(i as int) =~= parts);
    Some(out)
}

proof fn lemma_numbers_prefix(parts: Seq<Seq<char>>, k: int)
    requires
        0 <= k <= parts.len(),
        numbers(parts.take(k)) is None,
    ensures
        numbers(parts) is None,
    decreases parts.len() - k,
{
    if k < parts.len() {
        assert(parts.take(k + 1).drop_last() =~= parts.take(k));
        lemma_numbers_prefix(parts, k + 1);
    } else {
        assert(parts.take(k) =~= parts);
    }
}

/// A release version.
#[derive(Debug, Clone, Copy, PartialEq, Eq, Structural)]
pub struct Version {
    pub major: u64,
    pub minor: u64,
    pub patch: u64,
}

impl View for Version {
    type V = VersionModel;

    open spec fn view(&self) -> VersionModel {
        VersionModel { major: self.major, minor: self.minor, patch: self.patch }
    }
}

/// The canonical spelling of a version.
pub open spec fn version_text(v: VersionModel) -> Seq<char> {
    decimal(v.major as nat) + "."@ + decimal(v.minor as nat) + "."@ + decimal(v.patch as nat)
}

impl Version {
    pub fn text(&self) -> (r: String)
        ensures
            r@ == version_text(self@),
    {
        let mut s = decimal_string(self.major);
        s.append(".");
        push_decimal(&mut s, self.minor);
        s.append(".");
        push_decimal(&mut s, self.patch);
        s
    }
}

pub fn parse_version(value: &str) -> (r: Option<Version>)
    ensures
        match r {
            Some(v) => version_of(value@) == Some(v@),
            None => version_of(value@) is None,
        },
{
    match parse_parts(value) {
        None => None,
        Some(p) => if p.len() == 3 {
            Some(Version { major: p[0], minor: p[1], patch: p[2] })
        } else {
            None
        },
    }
}

fn is_later(a: &Version, b: &Version) -> (r: bool)
    ensures
        r == later(a@, b@),
{
    b.major > a.major || (b.major == a.major && (b.minor > a.minor || (b.minor == a.minor && b.patch
        > a.patch)))
}

pub fn version_is_newer(current: &str, candidate: &str) -> (r: bool)
    ensures
        r == is_newer(current@, candidate@),
{
    match (parse_version(current), parse_version(candidate)) {
        (Some(c), Some(n)) => is_later(&c, &n),
        _ => false,
    }
}

pub fn version_is_compatible_newer(current: &str, candidate: &str) -> (r: bool)
    ensures
        r == is_compatible_newer(current@, candidate@),
{
    match (parse_version(current), parse_version(candidate)) {
        (Some(c), Some(n)) => n.major == c.major && is_later(&c, &n),
        _ => false,
    }
}

/// Whether a Windows version resource names exactly this release. The resource
/// may carry more components than the three-part release version, so the
/// remainder is required to be zero rather than discarded: `0.5.1.999` is a
/// different build and must not verify as `0.5.1`.
pub open spec fn names_release(value: Seq<char>, expected: Seq<char>) -> bool {
    match (version_of(expected), resource_parts(value)) {
        (Some(want), Some(got)) => {
            &&& got.len() >= 3
            &&& got[0] == want.major && got[1] == want.minor && got[2] == want.patch
            &&& forall|i: int| 3 <= i < got.len() ==> #[trigger] got[i] == 0
        },
        _ => false,
    }
}

pub fn product_version_matches(value: &str, expected: &str) -> (r: bool)
    ensures
        r == names_release(value@, expected@),
{
    let want = match parse_version(expected) {
        Some(w) => w,
        None => {
            return false;
        },
    };
    let got = match parse_resource(value) {
        Some(g) => g,
        None => {
            return false;
        },
    };
    if got.len() < 3 || got[0] != want.major || got[1] != want.minor || got[2] != want.patch {
        return false;
    }
    let mut i: usize = 3;
    while i < got.len()
        invariant
            3 <= i <= got.len(),
            version_of(expected@) == Some(want@),
            resource_parts(value@) == Some(got@),
            forall|k: int| 3 <= k < i ==> #[trigger] got@[k] == 0,
        decreases got.len() - i,
    {
        if got[i] != 0 {
            assert(got@[i as int] != 0);
            return false;
        }
        i += 1;
    }
    true
}

/// A compatible upgrade is an upgrade, and never to another major.
pub proof fn law_compatible_is_newer(current: Seq<char>, candidate: Seq<char>)
    ensures
        is_compatible_newer(current, candidate) ==> is_newer(current, candidate)
            && version_of(candidate)->0.major == version_of(current)->0.major,
        !is_newer(current, current),
        is_newer(current, candidate) ==> !is_newer(candidate, current),
{
}

/// Versions are totally ordered, by the first of major, minor and patch in
/// which they differ: of two different versions exactly one is the later, the
/// order is transitive, and a higher number is later whatever follows it.
pub proof fn law_versions_are_totally_ordered(a: VersionModel, b: VersionModel, c: VersionModel)
    ensures
        !later(a, a),
        a.major != b.major || a.minor != b.minor || a.patch != b.patch ==> (later(a, b)
            <==> !later(b, a)),
        later(a, b) && later(b, c) ==> later(a, c),
        a.major < b.major ==> later(a, b),
        a.major == b.major && a.minor < b.minor ==> later(a, b),
        a.major == b.major && a.minor == b.minor && a.patch < b.patch ==> later(a, b),
{
}

/// Of two texts that are versions, the later is newer, and offered for staging
/// exactly if it is of the same major; a text that is no version is neither
/// newer than another nor older.
pub proof fn law_newer_goes_by_the_first_number_that_differs(
    current: Seq<char>,
    candidate: Seq<char>,
    a: VersionModel,
    b: VersionModel,
)
    requires
        version_of(current) == Some(a),
        version_of(candidate) == Some(b),
    ensures
        a.major < b.major ==> is_newer(current, candidate) && !is_compatible_newer(
            current,
            candidate,
        ),
        a.major == b.major && a.minor < b.minor ==> is_newer(current, candidate)
            && is_compatible_newer(current, candidate),
        a.major == b.major && a.minor == b.minor ==> (is_newer(current, candidate) <==> a.patch
            < b.patch) && (is_compatible_newer(current, candidate) <==> a.patch < b.patch),
        a.major == b.major && a.minor > b.minor ==> !is_newer(current, candidate)
            && !is_compatible_newer(current, candidate),
        a.major > b.major ==> !is_newer(current, candidate) && !is_compatible_newer(
            current,
            candidate,
        ),
        forall|other: Seq<char>| #[trigger]
            version_of(other) is None ==> !is_newer(current, other) && !is_newer(other, candidate)
                && !is_compatible_newer(current, other) && !is_compatible_newer(other, candidate),
{
}

/// Numbers with full stops between them.
pub open spec fn dotted(n: Seq<u64>) -> Seq<char>
    decreases n.len(),
{
    if n.len() == 0 {
        Seq::empty()
    } else if n.len() == 1 {
        decimal(n[0] as nat)
    } else {
        dotted(n.drop_last()).push('.') + decimal(n.last() as nat)
    }
}

proof fn lemma_dotted(n: Seq<u64>)
    requires
        n.len() > 0,
    ensures
        numbers(split(dotted(n), '.')) == Some(n),
        dotted(n).len() > 0,
        is_digit(dotted(n)[0]),
        is_digit(dotted(n).last()),
    decreases n.len(),
{
    let last = decimal(n.last() as nat);
    law_decimal_reads_back(n.last());
    lemma_digits_have_no_dot(last);
    lemma_split_single(last, '.');
    assert(is_digit(last[0]) && is_digit(last[last.len() - 1]));
    if n.len() == 1 {
        let parts = split(dotted(n), '.');
        assert(parts == seq![last]);
        assert(parts.drop_last() =~= Seq::<Seq<char>>::empty());
        reveal_with_fuel(numbers, 2);
        assert(numbers(parts)->0 =~= n);
    } else {
        let init = n.drop_last();
        lemma_dotted(init);
        lemma_split_join(dotted(init), last, '.');
        let parts = split(dotted(n), '.');
        assert(parts =~= split(dotted(init), '.').push(last));
        assert(parts.drop_last() =~= split(dotted(init), '.'));
        assert(numbers(parts)->0 =~= n);
        assert(dotted(n)[0] == dotted(init)[0]);
        assert(dotted(n).last() == last.last());
    }
}

proof fn lemma_trim_dotted(n: Seq<u64>)
    requires
        n.len() > 0,
    ensures
        trim(dotted(n)) == dotted(n),
        trim(seq!['v'] + dotted(n)) == seq!['v'] + dotted(n),
        without_v(dotted(n)) == dotted(n),
        without_v(seq!['v'] + dotted(n)) == dotted(n),
        without_any_v(dotted(n)) == dotted(n),
{
    lemma_dotted(n);
    let s = dotted(n);
    let t = seq!['v'] + s;
    assert(t.last() == s.last());
    assert(crate::text::trim_start(s) == s);
    assert(crate::text::trim_end(s) == s);
    assert(crate::text::trim_start(t) == t);
    assert(crate::text::trim_end(t) == t);
    assert(t.subrange(1, t.len() as int) =~= s);
}

/// A version is three numbers, no fewer and no more, with or without a `v`
/// before them, and reads as those numbers in that order.
pub proof fn law_a_version_is_three_numbers(n: Seq<u64>)
    requires
        n.len() > 0,
    ensures
        n.len() == 3 ==> version_of(dotted(n)) == Some(
            VersionModel { major: n[0], minor: n[1], patch: n[2] },
        ),
        n.len() != 3 ==> version_of(dotted(n)) is None,
        version_of(seq!['v'] + dotted(n)) == version_of(dotted(n)),
{
    lemma_dotted(n);
    lemma_trim_dotted(n);
}

/// A version resource names a release exactly if it begins with the release's
/// three numbers and everything after them is zero.
pub proof fn law_a_resource_names_one_release(got: Seq<u64>, want: Seq<u64>)
    requires
        got.len() > 0,
        want.len() > 0,
    ensures
        names_release(dotted(got), dotted(want)) <==> {
            &&& want.len() == 3
            &&& got.len() >= 3
            &&& got[0] == want[0] && got[1] == want[1] && got[2] == want[2]
            &&& forall|i: int| 3 <= i < got.len() ==> #[trigger] got[i] == 0
        },
{
    law_a_version_is_three_numbers(want);
    lemma_dotted(got);
    lemma_trim_dotted(got);
}

// ----- settings -------------------------------------------------------------

#[derive(Debug)]
pub struct UpdateSettings {
    /// Automatic advisory checks. Manual checks remain available when false.
    pub automatic_checks: bool,
    /// Exact Authenticode certificate subject expected for release artifacts.
    pub expected_publisher: Option<String>,
    /// Exact Windows version-resource ProductName.
    pub expected_product: String,
    pub max_artifact_bytes: u64,
}

pub struct SettingsModel {
    pub automatic_checks: bool,
    pub expected_publisher: Option<Seq<char>>,
    pub expected_product: Seq<char>,
    pub max_artifact_bytes: u64,
}

impl View for UpdateSettings {
    type V = SettingsModel;

    open spec fn view(&self) -> SettingsModel {
        SettingsModel {
            automatic_checks: self.automatic_checks,
            expected_publisher: opt_text(self.expected_publisher),
            expected_product: self.expected_product@,
            max_artifact_bytes: self.max_artifact_bytes,
        }
    }
}

impl SettingsModel {
    pub open spec fn standard() -> SettingsModel {
        SettingsModel {
            automatic_checks: true,
            expected_publisher: None,
            expected_product: "Eidos"@,
            max_artifact_bytes: DEFAULT_MAX_ARTIFACT_BYTES,
        }
    }

    /// The settings with their texts trimmed; a blank publisher is none.
    pub open spec fn cleaned(self) -> SettingsModel {
        SettingsModel {
            expected_publisher: match self.expected_publisher {
                Some(p) => if trim(p).len() > 0 {
                    Some(trim(p))
                } else {
                    None
                },
                None => None,
            },
            expected_product: trim(self.expected_product),
            ..self
        }
    }

    /// Why settings are refused.
    pub open spec fn problem(self) -> Option<Seq<char>> {
        if trim(self.expected_product).len() == 0 {
            Some("expected product is required"@)
        } else if !(MIN_ARTIFACT_BYTES <= self.max_artifact_bytes <= HARD_MAX_ARTIFACT_BYTES) {
            Some("maximum artifact size must be between 1 MiB and 512 MiB"@)
        } else {
            None
        }
    }
}

impl Default for UpdateSettings {
    fn default() -> (r: UpdateSettings)
        ensures
            r@ == SettingsModel::standard(),
    {
        UpdateSettings {
            automatic_checks: true,
            expected_publisher: None,
            expected_product: "Eidos".to_owned(),
            max_artifact_bytes: DEFAULT_MAX_ARTIFACT_BYTES,
        }
    }
}

impl UpdateSettings {
    pub fn validated(self) -> (r: Result<UpdateSettings, String>)
        ensures
            match self@.problem() {
                Some(p) => r matches Err(e) && e@ == p,
                None => r matches Ok(s) && s@ == self@.cleaned(),
            },
    {
        let publisher: Option<String> = match &self.expected_publisher {
            Some(p) => {
                let t = trimmed(p);
                if t.as_str().is_empty() {
                    None
                } else {
                    Some(t)
                }
            },
            None => None,
        };
        let product = trimmed(&self.expected_product);
        if product.as_str().is_empty() {
            return Err("expected product is required".to_owned());
        }
        if !(MIN_ARTIFACT_BYTES <= self.max_artifact_bytes && self.max_artifact_bytes
            <= HARD_MAX_ARTIFACT_BYTES) {
            return Err("maximum artifact size must be between 1 MiB and 512 MiB".to_owned());
        }
        Ok(
            UpdateSettings {
                automatic_checks: self.automatic_checks,
                expected_publisher: publisher,
                expected_product: product,
                max_artifact_bytes: self.max_artifact_bytes,
            },
        )
    }

    pub fn copy(&self) -> (r: UpdateSettings)
        ensures
            r@ == self@,
    {
        UpdateSettings {
            automatic_checks: self.automatic_checks,
            expected_publisher: copy_opt(&self.expected_publisher),
            expected_product: self.expected_product.clone(),
            max_artifact_bytes: self.max_artifact_bytes,
        }
    }

    /// The standard settings with automatic checks off.
    fn closed_down() -> (r: UpdateSettings)
        ensures
            r@ == (SettingsModel { automatic_checks: false, ..SettingsModel::standard() }),
    {
        let mut s = UpdateSettings::default();
        s.automatic_checks = false;
        s
    }
}

/// Validating what was validated changes nothing more.
pub proof fn law_validation_is_idempotent(s: SettingsModel)
    requires
        s.problem() is None,
    ensures
        s.cleaned().problem() is None,
        s.cleaned().cleaned() == s.cleaned(),
{
    lemma_trim_twice(s.expected_product);
    if let Some(p) = s.expected_publisher {
        lemma_trim_twice(p);
    }
}

/// Settings are accepted exactly if they name a product and bound an artifact
/// between 1 MiB and 512 MiB; what is accepted keeps every value, without the
/// white space around its texts, and a blank publisher is none.
pub proof fn law_accepted_settings_are_usable(s: SettingsModel)
    ensures
        s.problem() is None <==> trim(s.expected_product).len() > 0 && 1_048_576
            <= s.max_artifact_bytes <= 536_870_912,
        s.cleaned().automatic_checks == s.automatic_checks,
        s.cleaned().max_artifact_bytes == s.max_artifact_bytes,
        s.cleaned().expected_product == trim(s.expected_product),
        s.cleaned().expected_publisher == (if s.expected_publisher is Some && trim(
            s.expected_publisher->0,
        ).len() > 0 {
            Some(trim(s.expected_publisher->0))
        } else {
            None
        }),
{
}

proof fn lemma_trim_twice(s: Seq<char>)
    ensures
        trim(trim(s)) == trim(s),
{
    let t = crate::text::trim_start(s);
    lemma_trim_start_head(s);
    lemma_trim_end_tail(t);
    let u = crate::text::trim_end(t);
    lemma_trim_end_head(t);
    assert(crate::text::trim_start(u) == u);
    assert(crate::text::trim_end(u) == u);
}

proof fn lemma_trim_start_head(s: Seq<char>)
    ensures
        crate::text::trim_start(s).len() > 0 ==> !crate::text::is_space(
            crate::text::trim_start(s)[0],
        ),
    decreases s.len(),
{
    if s.len() > 0 && crate::text::is_space(s[0]) {
        lemma_trim_start_head(s.subrange(1, s.len() as int));
    }
}

proof fn lemma_trim_end_tail(s: Seq<char>)
    ensures
        crate::text::trim_end(s).len() > 0 ==> !crate::text::is_space(
            crate::text::trim_end(s).last(),
        ),
    decreases s.len(),
{
    if s.len() > 0 && crate::text::is_space(s.last()) {
        lemma_trim_end_tail(s.drop_last());
    }
}

proof fn lemma_trim_end_head(s: Seq<char>)
    ensures
        crate::text::trim_end(s).len() > 0 ==> crate::text::trim_end(s)[0] == s[0],
    decreases s.len(),
{
    if s.len() > 0 && crate::text::is_space(s.last()) {
        lemma_trim_end_head(s.drop_last());
    }
}

// ----- releases -------------------------------------------------------------

#[derive(Debug)]
pub struct ReleaseArtifact {
    pub version: String,
    pub name: String,
    pub download_url: String,
    pub size: u64,
    pub sha256: String,
}

pub struct ArtifactModel {
    pub version: Seq<char>,
    pub name: Seq<char>,
    pub download_url: Seq<char>,
    pub size: u64,
    pub sha256: Seq<char>,
}

impl View for ReleaseArtifact {
    type V = ArtifactModel;

    open spec fn view(&self) -> ArtifactModel {
        ArtifactModel {
            version: self.version@,
            name: self.name@,
            download_url: self.download_url@,
            size: self.size,
            sha256: self.sha256@,
        }
    }
}

impl ReleaseArtifact {
    pub fn copy(&self) -> (r: ReleaseArtifact)
        ensures
            r@ == self@,
    {
        ReleaseArtifact {
            version: self.version.clone(),
            name: self.name.clone(),
            download_url: self.download_url.clone(),
            size: self.size,
            sha256: self.sha256.clone(),
        }
    }
}

/// One completed look at the project's latest release. `latest_version` is the
/// newest published release whatever this build can do with it; `artifact` is
/// only present when that release is also a stageable candidate.
#[derive(Debug)]
pub struct ReleaseCheck {
    pub latest_version: Option<String>,
    pub artifact: Option<ReleaseArtifact>,
}

pub struct CheckModel {
    pub latest_version: Option<Seq<char>>,
    pub artifact: Option<ArtifactModel>,
}

pub open spec fn opt_artifact(a: Option<ReleaseArtifact>) -> Option<ArtifactModel> {
    match a {
        Some(a) => Some(a@),
        None => None,
    }
}

impl View for ReleaseCheck {
    type V = CheckModel;

    open spec fn view(&self) -> CheckModel {
        CheckModel {
            latest_version: opt_text(self.latest_version),
            artifact: opt_artifact(self.artifact),
        }
    }
}

impl CheckModel {
    /// Nothing newer is known.
    pub open spec fn nothing() -> CheckModel {
        CheckModel { latest_version: None, artifact: None }
    }
}

impl Default for ReleaseCheck {
    fn default() -> (r: ReleaseCheck)
        ensures
            r@ == CheckModel::nothing(),
    {
        ReleaseCheck { latest_version: None, artifact: None }
    }
}

/// A release as the project's host describes it.
#[derive(Debug)]
pub struct GithubRelease {
    pub tag_name: String,
    pub assets: Vec<GithubAsset>,
}

#[derive(Debug)]
pub struct GithubAsset {
    pub name: String,
    pub browser_download_url: String,
    pub size: u64,
    pub digest: Option<String>,
    pub state: String,
}

/// The name of a version's setup asset.
pub open spec fn setup_name(version: Seq<char>) -> Seq<char> {
    "eidos-v"@ + version + "-setup.exe"@
}

/// The address of a version's setup asset.
pub open spec fn setup_url(version: Seq<char>, name: Seq<char>) -> Seq<char> {
    RELEASE_DOWNLOAD_PREFIX@ + "v"@ + version + "/"@ + name
}

pub fn setup_file(version: &str) -> (r: String)
    ensures
        r@ == setup_name(version@),
{
    "eidos-v".to_owned().concat(version).concat("-setup.exe")
}

fn setup_address(version: &str, name: &str) -> (r: String)
    ensures
        r@ == setup_url(version@, name@),
{
    RELEASE_DOWNLOAD_PREFIX.to_owned().concat("v").concat(version).concat("/").concat(name)
}

/// Sixty-four hexadecimal digits.
pub open spec fn is_digest(s: Seq<char>) -> bool {
    s.len() == 64 && forall|i: int| 0 <= i < s.len() ==> is_hex_digit(#[trigger] s[i])
}

fn well_formed_digest(s: &str) -> (r: bool)
    ensures
        r == is_digest(s@),
{
    let v = chars_of(s);
    if v.len() != 64 {
        return false;
    }
    let mut i: usize = 0;
    while i < v.len()
        invariant
            0 <= i <= v.len() == 64,
            v@ == s@,
            forall|k: int| 0 <= k < i ==> is_hex_digit(#[trigger] v@[k]),
        decreases v.len() - i,
    {
        if !hex_digit_char(v[i]) {
            assert(!is_hex_digit(s@[i as int]));
            return false;
        }
        i += 1;
    }
    true
}

/// Whether an asset is the uploaded asset of this name.
pub open spec fn is_asset(a: GithubAsset, name: Seq<char>) -> bool {
    a.name@ == name && a.state@ == "uploaded"@
}

/// The first such asset.
pub open spec fn asset_index(assets: Seq<GithubAsset>, name: Seq<char>) -> Option<int>
    decreases assets.len(),
{
    if assets.len() == 0 {
        None
    } else {
        match asset_index(assets.drop_last(), name) {
            Some(i) => Some(i),
            None => if is_asset(assets.last(), name) {
                Some(assets.len() - 1)
            } else {
                None
            },
        }
    }
}

/// What an asset's digest says, if it is a SHA-256 digest.
pub open spec fn asset_digest(digest: Option<String>) -> Option<Seq<char>> {
    match digest {
        Some(d) => if starts_with(d@, "sha256:"@) {
            Some(d@.skip(7))
        } else {
            None
        },
        None => None,
    }
}

/// What a look at the latest release finds. A newer release is reported even
/// when this build refuses to stage it; a release that it would stage has to
/// carry its canonical asset, within bounds, at its canonical address and with
/// a digest.
pub open spec fn selected(release: GithubRelease, current: Seq<char>, max: u64) -> Result<
    CheckModel,
    Seq<char>,
> {
    match version_of(release.tag_name@) {
        None => Ok(CheckModel::nothing()),
        Some(v) => {
            let version = version_text(v);
            let name = setup_name(version);
            if !is_newer(current, version) {
                Ok(CheckModel::nothing())
            } else if !is_compatible_newer(current, version) {
                Ok(CheckModel { latest_version: Some(version), artifact: None })
            } else {
                match asset_index(release.assets@, name) {
                    None => Err("release v"@ + version + " has no canonical setup asset"@),
                    Some(i) => {
                        let asset = release.assets@[i];
                        if !(0 < asset.size <= max) {
                            Err("release asset size is outside the configured bound"@)
                        } else if asset.browser_download_url@ != setup_url(version, name) {
                            Err("release asset URL is not canonical"@)
                        } else {
                            match asset_digest(asset.digest) {
                                None => Err("release asset has no SHA-256 digest"@),
                                Some(d) => if !is_digest(d) {
                                    Err("release asset SHA-256 digest is malformed"@)
                                } else {
                                    Ok(
                                        CheckModel {
                                            latest_version: Some(version),
                                            artifact: Some(
                                                ArtifactModel {
                                                    version,
                                                    name,
                                                    download_url: setup_url(version, name),
                                                    size: asset.size,
                                                    sha256: lower_all(d),
                                                },
                                            ),
                                        },
                                    )
                                },
                            }
                        }
                    },
                }
            }
        },
    }
}

fn find_asset(assets: &Vec<GithubAsset>, name: &str) -> (r: Option<usize>)
    ensures
        match r {
            Some(i) => i < assets.len() && asset_index(assets@, name@) == Some(i as int),
            None => asset_index(assets@, name@) is None,
        },
{
    let mut i: usize = 0;
    while i < assets.len()
        invariant
            0 <= i <= assets.len(),
            asset_index(assets@.take(i as int), name@) is None,
        decreases assets.len() - i,
    {
        assert(assets@.take(i + 1).drop_last() =~= assets@.take(i as int));
        if same(&assets[i].name, name) && same(&assets[i].state, "uploaded") {
            proof {
                lemma_asset_found(assets@, name@, i + 1);
            }
            return Some(i);
        }
        i += 1;
    }
    assert(assets@.take(i as int) =~= assets@);
    None
}

proof fn lemma_asset_found(assets: Seq<GithubAsset>, name: Seq<char>, k: int)
    requires
        0 <= k <= assets.len(),
        asset_index(assets.take(k), name) is Some,
    ensures
        asset_index(assets, name) == asset_index(assets.take(k), name),
    decreases assets.len() - k,
{
    if k < assets.len() {
        assert(assets.take(k + 1).drop_last() =~= assets.take(k));
        lemma_asset_found(assets, name, k + 1);
    } else {
        assert(assets.take(k) =~= assets);
    }
}

/// Select what a description of the latest release offers this build.
pub fn select_release(release: &GithubRelease, current: &str, max: u64) -> (r: Result<
    ReleaseCheck,
    String,
>)
    ensures
        match selected(*release, current@, max) {
            Ok(c) => r matches Ok(x) && x@ == c,
            Err(e) => r matches Err(x) && x@ == e,
        },
{
    let parsed = match parse_version(&release.tag_name) {
        Some(v) => v,
        None => {
            return Ok(ReleaseCheck::default());
        },
    };
    let version = parsed.text();
    if !version_is_newer(current, &version) {
        return Ok(ReleaseCheck::default());
    }
    if !version_is_compatible_newer(current, &version) {
        return Ok(ReleaseCheck { latest_version: Some(version), artifact: None });
    }
    let name = setup_file(&version);
    let at = match find_asset(&release.assets, &name) {
        Some(i) => i,
        None => {
            return Err(
                "release v".to_owned().concat(&version).concat(" has no canonical setup asset"),
            );
        },
    };
    let asset = &release.assets[at];
    if !(0 < asset.size && asset.size <= max) {
        return Err("release asset size is outside the configured bound".to_owned());
    }
    let url = setup_address(&version, &name);
    if !same(&asset.browser_download_url, &url) {
        return Err("release asset URL is not canonical".to_owned());
    }
    proof {
        reveal_strlit("sha256:");
        assert("sha256:"@.len() == 7);
    }
    let digest: Option<String> = match &asset.digest {
        Some(d) => if has_prefix(d, "sha256:") {
            let v = chars_of(d);
            let rest = string_of(&v, 7, v.len());
            assert(rest@ =~= d@.skip(7));
            Some(rest)
        } else {
            None
        },
        None => None,
    };
    let digest = match digest {
        Some(d) => d,
        None => {
            return Err("release asset has no SHA-256 digest".to_owned());
        },
    };
    if !well_formed_digest(&digest) {
        return Err("release asset SHA-256 digest is malformed".to_owned());
    }
    let artifact = ReleaseArtifact {
        version: version.clone(),
        name,
        download_url: url,
        size: asset.size,
        sha256: lowered(&digest),
    };
    Ok(ReleaseCheck { latest_version: Some(version), artifact: Some(artifact) })
}

/// Why an artifact cannot be staged.
pub open spec fn artifact_problem(a: ArtifactModel, current: Seq<char>, max: u64) -> Option<
    Seq<char>,
> {
    if !is_compatible_newer(current, a.version) {
        Some("artifact version is not a compatible upgrade"@)
    } else if a.name != setup_name(a.version) {
        Some("artifact name is not canonical"@)
    } else if !(0 < a.size <= max) {
        Some("artifact size is outside the configured bound"@)
    } else if !is_digest(a.sha256) {
        Some("artifact SHA-256 is malformed"@)
    } else {
        None
    }
}

pub fn validate_artifact(a: &ReleaseArtifact, current: &str, max: u64) -> (r: Result<(), String>)
    ensures
        match artifact_problem(a@, current@, max) {
            None => r is Ok,
            Some(p) => r matches Err(e) && e@ == p,
        },
{
    if !version_is_compatible_newer(current, &a.version) {
        return Err("artifact version is not a compatible upgrade".to_owned());
    }
    if !same(&a.name, &setup_file(&a.version)) {
        return Err("artifact name is not canonical".to_owned());
    }
    if !(0 < a.size && a.size <= max) {
        return Err("artifact size is outside the configured bound".to_owned());
    }
    if !well_formed_digest(&a.sha256) {
        return Err("artifact SHA-256 is malformed".to_owned());
    }
    Ok(())
}

proof fn lemma_asset_index(assets: Seq<GithubAsset>, name: Seq<char>)
    ensures
        match asset_index(assets, name) {
            Some(i) => 0 <= i < assets.len() && is_asset(assets[i], name) && forall|j: int|
                0 <= j < i ==> !is_asset(#[trigger] assets[j], name),
            None => forall|j: int| 0 <= j < assets.len() ==> !is_asset(#[trigger] assets[j], name),
        },
    decreases assets.len(),
{
    if assets.len() > 0 {
        let init = assets.drop_last();
        lemma_asset_index(init, name);
        match asset_index(init, name) {
            Some(i) => {
                assert(init[i] == assets[i]);
                assert forall|j: int| 0 <= j < i implies !is_asset(#[trigger] assets[j], name) by {
                    assert(init[j] == assets[j]);
                }
            },
            None => {
                assert forall|j: int| 0 <= j < init.len() implies !is_asset(
                    #[trigger] assets[j],
                    name,
                ) by {
                    assert(init[j] == assets[j]);
                }
            },
        }
    }
}

/// A later release of the same major that carries its setup asset, uploaded,
/// within bounds, at its canonical address and with a SHA-256 digest, is
/// reported and offered for staging with that asset's own size and digest.
pub proof fn law_a_sound_release_is_offered(
    release: GithubRelease,
    current: Seq<char>,
    max: u64,
    c: VersionModel,
    v: VersionModel,
    i: int,
    hex: Seq<char>,
)
    requires
        version_of(current) == Some(c),
        version_of(release.tag_name@) == Some(v),
        v.major == c.major,
        v.minor > c.minor || (v.minor == c.minor && v.patch > c.patch),
        0 <= i < release.assets@.len(),
        release.assets@[i].name@ == "eidos-v"@ + version_text(v) + "-setup.exe"@,
        release.assets@[i].state@ == "uploaded"@,
        forall|j: int|
            0 <= j < i ==> (#[trigger] release.assets@[j]).name@ != release.assets@[i].name@
                || release.assets@[j].state@ != "uploaded"@,
        0 < release.assets@[i].size <= max,
        release.assets@[i].browser_download_url@ == RELEASE_DOWNLOAD_PREFIX@ + "v"@ + version_text(
            v,
        ) + "/"@ + release.assets@[i].name@,
        release.assets@[i].digest is Some,
        release.assets@[i].digest->0@ == "sha256:"@ + hex,
        hex.len() == 64,
        forall|k: int| 0 <= k < 64 ==> is_hex_digit(#[trigger] hex[k]),
    ensures
        selected(release, current, max) == Ok::<CheckModel, Seq<char>>(
            CheckModel {
                latest_version: Some(version_text(v)),
                artifact: Some(
                    ArtifactModel {
                        version: version_text(v),
                        name: release.assets@[i].name@,
                        download_url: release.assets@[i].browser_download_url@,
                        size: release.assets@[i].size,
                        sha256: lower_all(hex),
                    },
                ),
            },
        ),
{
    let name = release.assets@[i].name@;
    law_version_reads_back(v);
    lemma_asset_index(release.assets@, name);
    assert(is_asset(release.assets@[i], name));
    assert(asset_index(release.assets@, name) == Some(i)) by {
        match asset_index(release.assets@, name) {
            Some(j) => {
                if j < i {
                    assert(release.assets@[j].name@ == name);
                }
            },
            None => {},
        }
    }
    let d = release.assets@[i].digest->0@;
    reveal_strlit("sha256:");
    assert(d.take(7) =~= "sha256:"@);
    assert(d.skip(7) =~= hex);
}

/// A release that is not later than the running version, or whose tag is no
/// version, is not reported at all.
pub proof fn law_an_old_release_is_not_reported(
    release: GithubRelease,
    current: Seq<char>,
    max: u64,
    c: VersionModel,
)
    requires
        version_of(current) == Some(c),
        match version_of(release.tag_name@) {
            None => true,
            Some(v) => v.major < c.major || (v.major == c.major && (v.minor < c.minor || (v.minor
                == c.minor && v.patch <= c.patch))),
        },
    ensures
        selected(release, current, max) == Ok::<CheckModel, Seq<char>>(
            CheckModel { latest_version: None, artifact: None },
        ),
{
    if let Some(v) = version_of(release.tag_name@) {
        law_version_reads_back(v);
    }
}

/// Everything that a look at the latest release offers for staging passes the
/// checks that staging makes.
pub proof fn law_selected_artifacts_can_be_staged(
    release: GithubRelease,
    current: Seq<char>,
    max: u64,
)
    requires
        selected(release, current, max) matches Ok(c) && c.artifact is Some,
    ensures
        artifact_problem(selected(release, current, max)->Ok_0.artifact->0, current, max) is None,
        selected(release, current, max)->Ok_0.artifact->0.download_url == setup_url(
            selected(release, current, max)->Ok_0.artifact->0.version,
            selected(release, current, max)->Ok_0.artifact->0.name,
        ),
{
    let a = selected(release, current, max)->Ok_0.artifact->0;
    let i = asset_index(release.assets@, a.name)->0;
    let d = asset_digest(release.assets@[i].digest)->0;
    assert(a.sha256 == lower_all(d));
    assert forall|k: int| 0 <= k < a.sha256.len() implies is_hex_digit(#[trigger] a.sha256[k]) by {
        assert(is_hex_digit(d[k]));
    }
}

/// An artifact can be staged exactly if it is a later version of the same
/// major, carries its version's setup name, is not empty and within bounds, and
/// has a SHA-256 digest.
pub proof fn law_only_sound_artifacts_are_staged(
    a: ArtifactModel,
    current: Seq<char>,
    max: u64,
    c: VersionModel,
    v: VersionModel,
)
    requires
        version_of(current) == Some(c),
        version_of(a.version) == Some(v),
    ensures
        artifact_problem(a, current, max) is None <==> {
            &&& v.major == c.major
            &&& v.minor > c.minor || (v.minor == c.minor && v.patch > c.patch)
            &&& a.name == "eidos-v"@ + a.version + "-setup.exe"@
            &&& 0 < a.size && a.size <= max
            &&& a.sha256.len() == 64
            &&& forall|k: int| 0 <= k < a.sha256.len() ==> is_hex_digit(#[trigger] a.sha256[k])
        },
{
}

/// A release of another major is never offered for staging; a newer one is
/// still reported.
pub proof fn law_another_major_is_never_stageable(
    release: GithubRelease,
    current: Seq<char>,
    max: u64,
)
    requires
        version_of(release.tag_name@) is Some,
        version_of(current) is Some,
        version_of(release.tag_name@)->0.major != version_of(current)->0.major,
    ensures
        selected(release, current, max) matches Ok(c) && c.artifact is None && (c.latest_version
            is Some <==> later(version_of(current)->0, version_of(release.tag_name@)->0)),
{
    law_version_reads_back(version_of(release.tag_name@)->0);
}

/// The canonical spelling of a version reads as that version.
pub proof fn law_version_reads_back(v: VersionModel)
    ensures
        version_of(version_text(v)) == Some(v),
{
    let a = decimal(v.major as nat);
    let b = decimal(v.minor as nat);
    let c = decimal(v.patch as nat);
    law_decimal_reads_back(v.major);
    law_decimal_reads_back(v.minor);
    law_decimal_reads_back(v.patch);
    reveal_strlit(".");
    assert("."@ =~= seq!['.']);
    let s = version_text(v);
    assert(s =~= (a.push('.') + b).push('.') + c);
    assert(crate::text::is_digit(a[0]));
    assert(crate::text::is_digit(c[c.len() - 1]));
    assert(s[0] == a[0]);
    assert(s.last() == c.last());
    assert(crate::text::trim_start(s) == s);
    assert(crate::text::trim_end(s) == s);
    assert(without_v(s) == s);
    lemma_digits_have_no_dot(a);
    lemma_digits_have_no_dot(b);
    lemma_digits_have_no_dot(c);
    lemma_split_single(a, '.');
    lemma_split_single(b, '.');
    lemma_split_single(c, '.');
    lemma_split_join(a, b, '.');
    lemma_split_join(a.push('.') + b, c, '.');
    let parts = split(s, '.');
    assert(parts =~= seq![a, b, c]);
    assert(parts.drop_last() =~= seq![a, b]);
    assert(parts.drop_last().drop_last() =~= seq![a]);
    assert(parts.drop_last().drop_last().drop_last() =~= Seq::<Seq<char>>::empty());
    reveal_with_fuel(numbers, 4);
    assert(numbers(parts) == Some(seq![v.major, v.minor, v.patch])) by {
        assert(numbers(parts)->0 =~= seq![v.major, v.minor, v.patch]);
    }
}

proof fn lemma_digits_have_no_dot(s: Seq<char>)
    requires
        all_digits(s),
    ensures
        !s.contains('.'),
{
    if s.contains('.') {
        let i = s.index_of('.');
        assert(is_digit(s[i]));
    }
}

// ----- state ----------------------------------------------------------------

#[derive(Debug, Clone, Copy, PartialEq, Eq, Structural)]
pub enum StagePhase {
    Idle,
    Downloading,
    Verifying,
    Staged,
    Failed,
}

#[derive(Debug)]
pub struct StagedArtifact {
    pub version: String,
    pub path: String,
    pub size: u64,
    pub sha256: String,
    pub publisher: String,
    pub product: String,
}

pub struct StagedModel {
    pub version: Seq<char>,
    pub path: Seq<char>,
    pub size: u64,
    pub sha256: Seq<char>,
    pub publisher: Seq<char>,
    pub product: Seq<char>,
}

impl View for StagedArtifact {
    type V = StagedModel;

    open spec fn view(&self) -> StagedModel {
        StagedModel {
            version: self.version@,
            path: self.path@,
            size: self.size,
            sha256: self.sha256@,
            publisher: self.publisher@,
            product: self.product@,
        }
    }
}

impl StagedArtifact {
    pub fn copy(&self) -> (r: StagedArtifact)
        ensures
            r@ == self@,
    {
        StagedArtifact {
            version: self.version.clone(),
            path: self.path.clone(),
            size: self.size,
            sha256: self.sha256.clone(),
            publisher: self.publisher.clone(),
            product: self.product.clone(),
        }
    }
}

#[derive(Debug)]
pub struct UpdateState {
    pub checks_enabled: bool,
    pub current_version: String,
    pub checked_at: Option<UnixNanos>,
    pub check_error: Option<String>,
    /// Newest published release, even when this build cannot stage it.
    pub latest_version: Option<String>,
    pub available: Option<ReleaseArtifact>,
    pub stage_phase: StagePhase,
    pub stage_error: Option<String>,
    pub staged: Option<StagedArtifact>,
}

pub struct StateModel {
    pub checks_enabled: bool,
    pub current_version: Seq<char>,
    pub checked_at: Option<UnixNanos>,
    pub check_error: Option<Seq<char>>,
    pub latest_version: Option<Seq<char>>,
    pub available: Option<ArtifactModel>,
    pub stage_phase: StagePhase,
    pub stage_error: Option<Seq<char>>,
    pub staged: Option<StagedModel>,
}

pub open spec fn opt_staged(s: Option<StagedArtifact>) -> Option<StagedModel> {
    match s {
        Some(a) => Some(a@),
        None => None,
    }
}

impl View for UpdateState {
    type V = StateModel;

    open spec fn view(&self) -> StateModel {
        StateModel {
            checks_enabled: self.checks_enabled,
            current_version: self.current_version@,
            checked_at: self.checked_at,
            check_error: opt_text(self.check_error),
            latest_version: opt_text(self.latest_version),
            available: opt_artifact(self.available),
            stage_phase: self.stage_phase,
            stage_error: opt_text(self.stage_error),
            staged: opt_staged(self.staged),
        }
    }
}

impl StateModel {
    /// What a build of this version knows at first.
    pub open spec fn initial(current: Seq<char>) -> StateModel {
        StateModel {
            checks_enabled: true,
            current_version: current,
            checked_at: None,
            check_error: None,
            latest_version: None,
            available: None,
            stage_phase: StagePhase::Idle,
            stage_error: None,
            staged: None,
        }
    }

    pub open spec fn in_phase(self, phase: StagePhase, error: Option<Seq<char>>) -> StateModel {
        StateModel { stage_phase: phase, stage_error: error, ..self }
    }

    /// The state without what this build can no longer use: an advisory that
    /// is not newer, an artifact or staged bytes that are no compatible
    /// upgrade.
    pub open spec fn still_useful(self, current: Seq<char>) -> StateModel {
        let keeps_staged = self.staged matches Some(a) ==> is_compatible_newer(current, a.version);
        StateModel {
            available: match self.available {
                Some(a) => if is_compatible_newer(current, a.version) {
                    Some(a)
                } else {
                    None
                },
                None => None,
            },
            latest_version: match self.latest_version {
                Some(v) => if is_newer(current, v) {
                    Some(v)
                } else {
                    None
                },
                None => None,
            },
            staged: if keeps_staged {
                self.staged
            } else {
                None
            },
            stage_phase: if keeps_staged {
                self.stage_phase
            } else {
                StagePhase::Idle
            },
            stage_error: if keeps_staged {
                self.stage_error
            } else {
                None
            },
            ..self
        }
    }

    /// The state after a look at the latest release.
    pub open spec fn looked(self, now: UnixNanos, result: Result<CheckModel, Seq<char>>) -> StateModel {
        match result {
            Ok(found) => StateModel {
                checked_at: Some(now),
                latest_version: found.latest_version,
                available: found.artifact,
                check_error: None,
                ..self
            },
            Err(e) => StateModel { checked_at: Some(now), check_error: Some(e), ..self },
        }
    }

    /// A stage that was interrupted has failed.
    pub open spec fn interruption_noted(self) -> StateModel {
        if self.stage_phase == StagePhase::Downloading || self.stage_phase
            == StagePhase::Verifying {
            self.in_phase(
                StagePhase::Failed,
                Some("staging was interrupted; retry to download a fresh artifact"@),
            )
        } else {
            self
        }
    }
}

impl UpdateState {
    pub fn initial(current: &str) -> (r: UpdateState)
        ensures
            r@ == StateModel::initial(current@),
    {
        UpdateState {
            checks_enabled: true,
            current_version: current.to_owned(),
            checked_at: None,
            check_error: None,
            latest_version: None,
            available: None,
            stage_phase: StagePhase::Idle,
            stage_error: None,
            staged: None,
        }
    }

    pub fn copy(&self) -> (r: UpdateState)
        ensures
            r@ == self@,
    {
        UpdateState {
            checks_enabled: self.checks_enabled,
            current_version: self.current_version.clone(),
            checked_at: self.checked_at,
            check_error: copy_opt(&self.check_error),
            latest_version: copy_opt(&self.latest_version),
            available: match &self.available {
                Some(a) => Some(a.copy()),
                None => None,
            },
            stage_phase: self.stage_phase,
            stage_error: copy_opt(&self.stage_error),
            staged: match &self.staged {
                Some(a) => Some(a.copy()),
                None => None,
            },
        }
    }

    fn drop_useless(&mut self, current: &str)
        ensures
            final(self)@ == old(self)@.still_useful(current@),
    {
        let available_ok: bool = match &self.available {
            Some(a) => version_is_compatible_newer(current, &a.version),
            None => true,
        };
        if !available_ok {
            self.available = None;
        }
        let latest_ok: bool = match &self.latest_version {
            Some(v) => version_is_newer(current, v),
            None => true,
        };
        if !latest_ok {
            self.latest_version = None;
        }
        let staged_ok: bool = match &self.staged {
            Some(a) => version_is_compatible_newer(current, &a.version),
            None => true,
        };
        if !staged_ok {
            self.staged = None;
            self.stage_phase = StagePhase::Idle;
            self.stage_error = None;
        }
    }

    fn note_interruption(&mut self)
        ensures
            final(self)@ == old(self)@.interruption_noted(),
    {
        if self.stage_phase == StagePhase::Downloading || self.stage_phase
            == StagePhase::Verifying {
            self.stage_phase = StagePhase::Failed;
            self.stage_error = Some(
                "staging was interrupted; retry to download a fresh artifact".to_owned(),
            );
        }
    }
}

/// A look that succeeded replaces what was known with what it found and clears
/// the last error; one that failed says why and keeps what was known. Neither
/// touches what is staged.
pub proof fn law_a_failed_look_keeps_what_was_known(
    s: StateModel,
    now: UnixNanos,
    found: CheckModel,
    error: Seq<char>,
)
    ensures
        ({
            let ok = s.looked(now, Ok(found));
            let failed = s.looked(now, Err(error));
            &&& ok.latest_version == found.latest_version && ok.available == found.artifact
            &&& ok.check_error is None && ok.checked_at == Some(now)
            &&& failed.latest_version == s.latest_version && failed.available == s.available
            &&& failed.check_error == Some(error) && failed.checked_at == Some(now)
            &&& ok.staged == s.staged && failed.staged == s.staged
            &&& ok.stage_phase == s.stage_phase && failed.stage_phase == s.stage_phase
            &&& ok.checks_enabled == s.checks_enabled && failed.checks_enabled == s.checks_enabled
        }),
{
}

/// A build keeps of what it remembers exactly what it can still use: an
/// advisory of a newer version, an artifact and staged bytes that are a
/// compatible upgrade. Staged bytes that are none take their phase with them.
pub proof fn law_only_what_is_useful_is_kept(s: StateModel, current: Seq<char>)
    ensures
        ({
            let r = s.still_useful(current);
            &&& r.available == s.available || r.available is None
            &&& s.available is Some ==> (r.available is Some <==> is_compatible_newer(
                current,
                s.available->0.version,
            ))
            &&& r.latest_version == s.latest_version || r.latest_version is None
            &&& s.latest_version is Some ==> (r.latest_version is Some <==> is_newer(
                current,
                s.latest_version->0,
            ))
            &&& r.staged == s.staged || r.staged is None
            &&& s.staged is Some ==> (r.staged is Some <==> is_compatible_newer(
                current,
                s.staged->0.version,
            ))
            &&& r.staged == s.staged ==> r.stage_phase == s.stage_phase && r.stage_error
                == s.stage_error
            &&& r.staged != s.staged ==> r.stage_phase == StagePhase::Idle && r.stage_error is None
            &&& r.checks_enabled == s.checks_enabled && r.checked_at == s.checked_at && r.check_error
                == s.check_error
        }),
{
}

// ----- the manager ----------------------------------------------------------

/// The answer while another update operation runs.
pub const OPERATION_RUNNING: &'static str = "an update operation is already running";

/// What an update operation works on: settings and durable progress.
#[derive(Debug)]
pub struct UpdateManager {
    pub settings: UpdateSettings,
    pub state: UpdateState,
    pub command_line_checks: bool,
    /// The version of this build.
    pub current: String,
}

/// What start-up settled: the settings in force and why, if they could not be
/// taken as they were.
pub open spec fn opened_settings(read: Result<Option<UpdateSettings>, String>) -> (
    SettingsModel,
    Option<Seq<char>>,
) {
    let closed = SettingsModel { automatic_checks: false, ..SettingsModel::standard() };
    match read {
        Ok(Some(s)) => match s@.problem() {
            None => (s@.cleaned(), None),
            Some(p) => (closed, Some("update settings are invalid: "@ + p)),
        },
        Ok(None) => (SettingsModel::standard(), None),
        Err(e) => (closed, Some("update settings are unreadable: "@ + e@)),
    }
}

/// The state that start-up settles from what was read.
pub open spec fn opened_state(
    read: Result<Option<UpdateState>, String>,
    settings: SettingsModel,
    settings_error: Option<Seq<char>>,
    command_line_checks: bool,
    current: Seq<char>,
) -> StateModel {
    let found = match read {
        Ok(Some(s)) => s@,
        _ => StateModel::initial(current),
    };
    let error = match read {
        Err(e) => Some("update state was unreadable: "@ + e@),
        Ok(_) => settings_error,
    };
    (StateModel {
        current_version: current,
        checks_enabled: command_line_checks && settings.automatic_checks,
        check_error: match error {
            Some(e) => Some(e),
            None => found.check_error,
        },
        ..found
    }).still_useful(current).interruption_noted()
}

/// Start-up fails closed: settings that cannot be read or used, and a process
/// that was told not to, check nothing on their own, and the reason is shown;
/// settings that were never saved are the standard ones, and saved ones are in
/// force.
pub proof fn law_startup_fails_closed(
    read: Result<Option<UpdateSettings>, String>,
    state: Result<Option<UpdateState>, String>,
    command_line_checks: bool,
    current: Seq<char>,
)
    ensures
        ({
            let (settings, error) = opened_settings(read);
            let opened = opened_state(state, settings, error, command_line_checks, current);
            &&& read is Err ==> !settings.automatic_checks && error is Some
            &&& read matches Ok(Some(s)) ==> (s@.problem() is Some ==> !settings.automatic_checks
                && error is Some) && (s@.problem() is None ==> settings == s@.cleaned() && error
                is None)
            &&& read matches Ok(None) ==> settings == SettingsModel::standard() && error is None
            &&& opened.checks_enabled <==> command_line_checks && settings.automatic_checks
            &&& error is Some || state is Err ==> opened.check_error is Some
            &&& opened.current_version == current
            &&& opened.stage_phase != StagePhase::Downloading && opened.stage_phase
                != StagePhase::Verifying
        }),
{
}

/// A staging run that may begin.
#[derive(Debug)]
pub struct StageJob {
    pub artifact: ReleaseArtifact,
    pub publisher: String,
    pub product: String,
    pub max_artifact_bytes: u64,
}

/// Why staging cannot begin.
pub open spec fn stage_problem(settings: SettingsModel, state: StateModel, current: Seq<char>) -> Option<
    Seq<char>,
> {
    if settings.expected_publisher is None {
        Some("expected publisher must be configured before staging"@)
    } else {
        match state.available {
            None => Some("check for a compatible release before staging"@),
            Some(a) => artifact_problem(a, current, settings.max_artifact_bytes),
        }
    }
}

/// The state once an artifact is staged.
pub open spec fn staged_state(
    state: StateModel,
    artifact: ArtifactModel,
    path: Seq<char>,
    publisher: Seq<char>,
    product: Seq<char>,
) -> StateModel {
    StateModel {
        staged: Some(
            StagedModel {
                version: artifact.version,
                path,
                size: artifact.size,
                sha256: artifact.sha256,
                publisher,
                product,
            },
        ),
        ..state.in_phase(StagePhase::Staged, None)
    }
}

impl UpdateManager {
    /// Open the subsystem from what was read of its two files. It fails closed
    /// and reports why, rather than keeping the service from opening. The
    /// second part is the one staged file to keep.
    pub fn load(
        settings_read: Result<Option<UpdateSettings>, String>,
        state_read: Result<Option<UpdateState>, String>,
        command_line_checks: bool,
        current: &str,
    ) -> (r: (UpdateManager, Option<String>))
        ensures
            ({
                let (settings, error) = opened_settings(settings_read);
                &&& r.0.settings@ == settings
                &&& r.0.state@ == opened_state(
                    state_read,
                    settings,
                    error,
                    command_line_checks,
                    current@,
                )
                &&& r.0.command_line_checks == command_line_checks
                &&& r.0.current@ == current@
                &&& opt_text(r.1) == kept_file(r.0.state@)
            }),
    {
        let mut startup_error: Option<String> = None;
        let settings = match settings_read {
            Ok(Some(s)) => match s.validated() {
                Ok(v) => v,
                Err(e) => {
                    startup_error = Some("update settings are invalid: ".to_owned().concat(&e));
                    UpdateSettings::closed_down()
                },
            },
            Ok(None) => UpdateSettings::default(),
            Err(e) => {
                startup_error = Some("update settings are unreadable: ".to_owned().concat(&e));
                UpdateSettings::closed_down()
            },
        };
        let mut state = match state_read {
            Ok(Some(s)) => s,
            Ok(None) => UpdateState::initial(current),
            Err(e) => {
                startup_error = Some("update state was unreadable: ".to_owned().concat(&e));
                UpdateState::initial(current)
            },
        };
        state.current_version = current.to_owned();
        state.checks_enabled = command_line_checks && settings.automatic_checks;
        if startup_error.is_some() {
            state.check_error = startup_error;
        }
        state.drop_useless(current);
        state.note_interruption();
        let keep: Option<String> = match &state.staged {
            Some(a) => Some(setup_file(&a.version)),
            None => None,
        };
        (
            UpdateManager { settings, state, command_line_checks, current: current.to_owned() },
            keep,
        )
    }

    /// The state could not be written at start-up: fail closed and say why.
    pub fn unwritable(&mut self, error: &str)
        ensures
            final(self).state@ == (StateModel {
                checks_enabled: false,
                check_error: Some("update state is unwritable: "@ + error@),
                ..old(self).state@
            }),
            *final(self) == (UpdateManager { state: final(self).state, ..*old(self) }),
    {
        self.state.checks_enabled = false;
        self.state.check_error = Some("update state is unwritable: ".to_owned().concat(error));
    }

    pub fn view(&self) -> (r: UpdateState)
        ensures
            r@ == self.state@,
    {
        self.state.copy()
    }

    /// Whether this process is allowed to run the periodic driver at all.
    /// Independent of the operator's setting, which the driver re-reads.
    pub fn periodic_checks_allowed(&self) -> (r: bool)
        ensures
            r == self.command_line_checks,
    {
        self.command_line_checks
    }

    /// Whether an automatic check should happen right now.
    pub fn checks_enabled(&self) -> (r: bool)
        ensures
            r == self.state.checks_enabled,
    {
        self.state.checks_enabled
    }

    pub fn settings(&self) -> (r: UpdateSettings)
        ensures
            r@ == self.settings@,
    {
        self.settings.copy()
    }

    /// Validated settings were stored: they are in force. Settings that do not
    /// pass [`UpdateSettings::validated`] never are.
    pub fn save_settings(&mut self, settings: UpdateSettings)
        requires
            settings@.problem() is None,
        ensures
            final(self).settings@ == settings@,
            final(self).state@ == (StateModel {
                checks_enabled: old(self).command_line_checks && settings.automatic_checks,
                ..old(self).state@
            }),
            *final(self) == (UpdateManager {
                settings: final(self).settings,
                state: final(self).state,
                ..*old(self)
            }),
    {
        self.state.checks_enabled = self.command_line_checks && settings.automatic_checks;
        self.settings = settings;
    }

    /// A look at the latest release ended. A failure leaves what was known.
    pub fn record_check(&mut self, now: UnixNanos, result: Result<ReleaseCheck, String>)
        ensures
            final(self).state@ == old(self).state@.looked(
                now,
                match result {
                    Ok(found) => Ok(found@),
                    Err(e) => Err(e@),
                },
            ),
            *final(self) == (UpdateManager { state: final(self).state, ..*old(self) }),
    {
        self.state.checked_at = Some(now);
        match result {
            Ok(found) => {
                self.state.latest_version = found.latest_version;
                self.state.available = found.artifact;
                self.state.check_error = None;
            },
            Err(e) => {
                self.state.check_error = Some(e);
            },
        }
    }

    /// Whether staging may begin, and with what.
    pub fn begin_stage(&self) -> (r: Result<StageJob, String>)
        ensures
            match stage_problem(self.settings@, self.state@, self.current@) {
                Some(p) => r matches Err(e) && e@ == p,
                None => r matches Ok(j) && {
                    &&& self.state@.available == Some(j.artifact@)
                    &&& self.settings@.expected_publisher == Some(j.publisher@)
                    &&& j.product@ == self.settings@.expected_product
                    &&& j.max_artifact_bytes == self.settings@.max_artifact_bytes
                },
            },
    {
        let publisher = match &self.settings.expected_publisher {
            Some(p) => p.clone(),
            None => {
                return Err("expected publisher must be configured before staging".to_owned());
            },
        };
        let artifact = match &self.state.available {
            Some(a) => a.copy(),
            None => {
                return Err("check for a compatible release before staging".to_owned());
            },
        };
        match validate_artifact(&artifact, &self.current, self.settings.max_artifact_bytes) {
            Err(e) => {
                return Err(e);
            },
            Ok(()) => {},
        }
        Ok(
            StageJob {
                artifact,
                publisher,
                product: self.settings.expected_product.clone(),
                max_artifact_bytes: self.settings.max_artifact_bytes,
            },
        )
    }

    fn set_phase(&mut self, phase: StagePhase, error: Option<String>)
        ensures
            final(self).state@ == old(self).state@.in_phase(phase, opt_text(error)),
            *final(self) == (UpdateManager { state: final(self).state, ..*old(self) }),
    {
        self.state.stage_phase = phase;
        self.state.stage_error = error;
    }

    /// The state to record once an artifact is verified and in place. It comes
    /// into force only after it was recorded, and only then is the artifact
    /// that it replaces removed: durable state always names an artifact that
    /// is still on disk.
    fn staged(&self, job: &StageJob, path: &str, identity: &VerifiedIdentity) -> (r: UpdateState)
        ensures
            r@ == staged_state(
                self.state@,
                job.artifact@,
                path@,
                identity.publisher@,
                identity.product@,
            ),
    {
        let mut s = self.state.copy();
        s.stage_phase = StagePhase::Staged;
        s.stage_error = None;
        s.staged = Some(
            StagedArtifact {
                version: job.artifact.version.clone(),
                path: path.to_owned(),
                size: job.artifact.size,
                sha256: job.artifact.sha256.clone(),
                publisher: identity.publisher.clone(),
                product: identity.product.clone(),
            },
        );
        s
    }

    /// A recorded state comes into force.
    fn commit_stage(&mut self, committed: UpdateState)
        ensures
            final(self).state == committed,
            *final(self) == (UpdateManager { state: committed, ..*old(self) }),
    {
        self.state = committed;
    }
}

// ----- a staging run --------------------------------------------------------

/// What a staging run waits for.
#[derive(Debug, Clone, Copy, PartialEq, Eq, Structural)]
pub enum StageStep {
    /// The staging directory, without an earlier partial download.
    Prepare,
    /// That the download is recorded as running.
    StoreDownloading,
    Download,
    /// That the verification is recorded as running.
    StoreVerifying,
    /// The size and the digest of the downloaded bytes.
    CheckBytes,
    /// The signature and the version resource of the downloaded file.
    CheckIdentity,
    /// The artifact under its own name.
    Replace,
    /// That the staged state is recorded.
    Record,
    Ended,
}

/// What came of a step.
#[derive(Debug)]
pub enum StageEvent {
    Done,
    /// The identity check passed with this identity.
    Identified(VerifiedIdentity),
    /// The artifact stands at this path.
    Placed(String),
    Failed(String),
}

/// What is done next.
#[derive(Debug)]
pub enum StageAction {
    /// Record the state in force.
    StorePhase,
    Download,
    CheckBytes,
    CheckIdentity,
    Replace,
    /// Record this state; it is not in force yet.
    Record(UpdateState),
    /// The artifact is staged: remove what is not this file.
    Prune(String),
    /// Nothing was begun: report the error.
    Refuse(String),
    /// Remove the partial download, record the state in force, and report the
    /// error.
    Fail(String),
}

pub enum StageEventModel {
    Done,
    Identified(Seq<char>, Seq<char>),
    Placed(Seq<char>),
    Failed(Seq<char>),
}

pub enum StageActionModel {
    StorePhase,
    Download,
    CheckBytes,
    CheckIdentity,
    Replace,
    Record(StateModel),
    Prune(Seq<char>),
    Refuse(Seq<char>),
    Fail(Seq<char>),
}

impl View for StageEvent {
    type V = StageEventModel;

    open spec fn view(&self) -> StageEventModel {
        match self {
            StageEvent::Done => StageEventModel::Done,
            StageEvent::Identified(i) => StageEventModel::Identified(i.publisher@, i.product@),
            StageEvent::Placed(path) => StageEventModel::Placed(path@),
            StageEvent::Failed(error) => StageEventModel::Failed(error@),
        }
    }
}

impl View for StageAction {
    type V = StageActionModel;

    open spec fn view(&self) -> StageActionModel {
        match self {
            StageAction::StorePhase => StageActionModel::StorePhase,
            StageAction::Download => StageActionModel::Download,
            StageAction::CheckBytes => StageActionModel::CheckBytes,
            StageAction::CheckIdentity => StageActionModel::CheckIdentity,
            StageAction::Replace => StageActionModel::Replace,
            StageAction::Record(state) => StageActionModel::Record(state@),
            StageAction::Prune(keep) => StageActionModel::Prune(keep@),
            StageAction::Refuse(error) => StageActionModel::Refuse(error@),
            StageAction::Fail(error) => StageActionModel::Fail(error@),
        }
    }
}

/// A staging run and the state of the subsystem that it runs in.
pub struct StageModel {
    pub artifact: ArtifactModel,
    pub step: StageStep,
    /// The identity that was verified.
    pub identity: Option<(Seq<char>, Seq<char>)>,
    /// The state that is being recorded.
    pub committed: Option<StateModel>,
    /// The state in force.
    pub state: StateModel,
}

impl StageModel {
    pub open spec fn begun(artifact: ArtifactModel, state: StateModel) -> StageModel {
        StageModel { artifact, step: StageStep::Prepare, identity: None, committed: None, state }
    }

    pub open spec fn at(self, step: StageStep) -> StageModel {
        StageModel { step, ..self }
    }

    /// The publisher and the product that were verified.
    pub open spec fn verified(self) -> (Seq<char>, Seq<char>) {
        match self.identity {
            Some(i) => i,
            None => (Seq::empty(), Seq::empty()),
        }
    }

    /// Whether an event is an answer to the step that is waited for.
    pub open spec fn expects(self, event: StageEventModel) -> bool {
        match event {
            StageEventModel::Failed(_) => self.step != StageStep::Ended,
            StageEventModel::Identified(_, _) => self.step == StageStep::CheckIdentity,
            StageEventModel::Placed(_) => self.step == StageStep::Replace,
            StageEventModel::Done => self.step != StageStep::Ended && self.step
                != StageStep::CheckIdentity && self.step != StageStep::Replace,
        }
    }

    /// A run that was left by a failure. One whose download was never recorded
    /// as running leaves the state as it is.
    pub open spec fn failed(self, error: Seq<char>) -> StageModel {
        if self.step == StageStep::Prepare || self.step == StageStep::StoreDownloading {
            self.at(StageStep::Ended)
        } else {
            StageModel {
                state: self.state.in_phase(StagePhase::Failed, Some(error)),
                ..self.at(StageStep::Ended)
            }
        }
    }

    /// The run after an event.
    pub open spec fn after(self, event: StageEventModel) -> StageModel {
        match event {
            StageEventModel::Failed(error) => self.failed(error),
            StageEventModel::Identified(publisher, product) => StageModel {
                identity: Some((publisher, product)),
                ..self.at(StageStep::Replace)
            },
            StageEventModel::Placed(path) => StageModel {
                committed: Some(
                    staged_state(
                        self.state,
                        self.artifact,
                        path,
                        self.verified().0,
                        self.verified().1,
                    ),
                ),
                ..self.at(StageStep::Record)
            },
            StageEventModel::Done => match self.step {
                StageStep::Prepare => StageModel {
                    state: self.state.in_phase(StagePhase::Downloading, None),
                    ..self.at(StageStep::StoreDownloading)
                },
                StageStep::StoreDownloading => self.at(StageStep::Download),
                StageStep::Download => StageModel {
                    state: self.state.in_phase(StagePhase::Verifying, None),
                    ..self.at(StageStep::StoreVerifying)
                },
                StageStep::StoreVerifying => self.at(StageStep::CheckBytes),
                StageStep::CheckBytes => self.at(StageStep::CheckIdentity),
                StageStep::Record => StageModel {
                    state: self.committed->0,
                    ..self.at(StageStep::Ended)
                },
                _ => self,
            },
        }
    }

    /// What is done after an event.
    pub open spec fn action(self, event: StageEventModel) -> StageActionModel {
        match event {
            StageEventModel::Failed(error) => if self.step == StageStep::Prepare || self.step
                == StageStep::StoreDownloading {
                StageActionModel::Refuse(error)
            } else {
                StageActionModel::Fail(error)
            },
            StageEventModel::Identified(_, _) => StageActionModel::Replace,
            StageEventModel::Placed(_) => StageActionModel::Record(self.after(event).committed->0),
            StageEventModel::Done => match self.step {
                StageStep::StoreDownloading => StageActionModel::Download,
                StageStep::StoreVerifying => StageActionModel::CheckBytes,
                StageStep::CheckBytes => StageActionModel::CheckIdentity,
                StageStep::Record => StageActionModel::Prune(self.artifact.name),
                _ => StageActionModel::StorePhase,
            },
        }
    }

    /// An identity is there once it is needed, and so is the state to record.
    pub open spec fn wf(self) -> bool {
        &&& self.step == StageStep::Replace ==> self.identity is Some
        &&& self.step == StageStep::Record ==> self.committed is Some
    }
}

/// A staging run: which step it is at, and what the checks brought. Nothing is
/// recorded as staged before the bytes and the identity were checked, and
/// nothing is removed before the record succeeded.
#[derive(Debug)]
pub struct StageRun {
    job: StageJob,
    step: StageStep,
    identity: Option<VerifiedIdentity>,
    committed: Option<UpdateState>,
}

impl StageRun {
    /// The run, in the subsystem that it runs in.
    pub closed spec fn model(self, manager: UpdateManager) -> StageModel {
        StageModel {
            artifact: self.job.artifact@,
            step: self.step,
            identity: match self.identity {
                Some(i) => Some((i.publisher@, i.product@)),
                None => None,
            },
            committed: match self.committed {
                Some(s) => Some(s@),
                None => None,
            },
            state: manager.state@,
        }
    }

    pub closed spec fn of_job(self) -> StageJob {
        self.job
    }

    /// What is staged, and what its identity has to be.
    pub fn job(&self) -> (r: &StageJob)
        ensures
            *r == self.of_job(),
    {
        &self.job
    }

    pub fn new(job: StageJob) -> (r: StageRun)
        ensures
            r.of_job() == job,
            forall|manager: UpdateManager| #[trigger]
                r.model(manager) == StageModel::begun(job.artifact@, manager.state@),
    {
        StageRun { job, step: StageStep::Prepare, identity: None, committed: None }
    }

    /// Go on with what came of the step that was waited for. The state in force
    /// changes with the run.
    pub fn next(&mut self, manager: &mut UpdateManager, event: StageEvent) -> (a: StageAction)
        requires
            old(self).model(*old(manager)).wf(),
            old(self).model(*old(manager)).expects(event@),
        ensures
            final(self).model(*final(manager)) == old(self).model(*old(manager)).after(event@),
            a@ == old(self).model(*old(manager)).action(event@),
            final(self).model(*final(manager)).wf(),
            final(self).of_job() == old(self).of_job(),
            *final(manager) == (UpdateManager { state: final(manager).state, ..*old(manager) }),
    {
        match event {
            StageEvent::Failed(error) => {
                let unbegun = match self.step {
                    StageStep::Prepare => true,
                    StageStep::StoreDownloading => true,
                    _ => false,
                };
                self.step = StageStep::Ended;
                if unbegun {
                    return StageAction::Refuse(error);
                }
                manager.set_phase(StagePhase::Failed, Some(error.clone()));
                StageAction::Fail(error)
            },
            StageEvent::Identified(identity) => {
                self.identity = Some(identity);
                self.step = StageStep::Replace;
                StageAction::Replace
            },
            StageEvent::Placed(path) => {
                let committed = match &self.identity {
                    Some(identity) => manager.staged(&self.job, &path, identity),
                    None => manager.state.copy(),
                };
                self.committed = Some(committed.copy());
                self.step = StageStep::Record;
                StageAction::Record(committed)
            },
            StageEvent::Done => match self.step {
                StageStep::Prepare => {
                    manager.set_phase(StagePhase::Downloading, None);
                    self.step = StageStep::StoreDownloading;
                    StageAction::StorePhase
                },
                StageStep::StoreDownloading => {
                    self.step = StageStep::Download;
                    StageAction::Download
                },
                StageStep::Download => {
                    manager.set_phase(StagePhase::Verifying, None);
                    self.step = StageStep::StoreVerifying;
                    StageAction::StorePhase
                },
                StageStep::StoreVerifying => {
                    self.step = StageStep::CheckBytes;
                    StageAction::CheckBytes
                },
                StageStep::CheckBytes => {
                    self.step = StageStep::CheckIdentity;
                    StageAction::CheckIdentity
                },
                _ => {
                    if let Some(committed) = &self.committed {
                        manager.commit_stage(committed.copy());
                    }
                    self.step = StageStep::Ended;
                    StageAction::Prune(self.job.artifact.name.clone())
                },
            },
        }
    }
}

/// A run after a series of events.
pub open spec fn stage_ran(m: StageModel, events: Seq<StageEventModel>) -> StageModel
    decreases events.len(),
{
    if events.len() == 0 {
        m
    } else {
        stage_ran(m, events.drop_last()).after(events.last())
    }
}

/// Each event of a series answers the step that the run is at.
pub open spec fn stage_answered(m: StageModel, events: Seq<StageEventModel>) -> bool
    decreases events.len(),
{
    events.len() == 0 || (stage_answered(m, events.drop_last()) && stage_ran(
        m,
        events.drop_last(),
    ).expects(events.last()))
}

/// A run in which every step succeeds stages its artifact: the state then names
/// the artifact's own version, size and digest, the place where it was put and
/// the identity that was verified, and everything else but that file is removed.
pub proof fn law_a_successful_run_is_staged(
    artifact: ArtifactModel,
    state: StateModel,
    publisher: Seq<char>,
    product: Seq<char>,
    path: Seq<char>,
)
    ensures
        ({
            let m0 = StageModel::begun(artifact, state);
            let m1 = m0.after(StageEventModel::Done);
            let m2 = m1.after(StageEventModel::Done);
            let m3 = m2.after(StageEventModel::Done);
            let m4 = m3.after(StageEventModel::Done);
            let m5 = m4.after(StageEventModel::Done);
            let m6 = m5.after(StageEventModel::Identified(publisher, product));
            let m7 = m6.after(StageEventModel::Placed(path));
            let m8 = m7.after(StageEventModel::Done);
            &&& m0.action(StageEventModel::Done) is StorePhase && m1.state.stage_phase
                == StagePhase::Downloading
            &&& m1.action(StageEventModel::Done) is Download
            &&& m2.action(StageEventModel::Done) is StorePhase && m3.state.stage_phase
                == StagePhase::Verifying
            &&& m3.action(StageEventModel::Done) is CheckBytes
            &&& m4.action(StageEventModel::Done) is CheckIdentity
            &&& m5.action(StageEventModel::Identified(publisher, product)) is Replace
            &&& m7.action(StageEventModel::Done) == StageActionModel::Prune(artifact.name)
            &&& m7.state.staged == state.staged && m7.state.stage_phase == StagePhase::Verifying
            &&& m6.action(StageEventModel::Placed(path)) == StageActionModel::Record(m8.state)
            &&& m8.step == StageStep::Ended
            &&& m8.state.stage_phase == StagePhase::Staged && m8.state.stage_error is None
            &&& m8.state.staged matches Some(s) && s.version == artifact.version && s.size
                == artifact.size && s.sha256 == artifact.sha256 && s.path == path && s.publisher
                == publisher && s.product == product
            &&& m8.state.available == state.available && m8.state.latest_version
                == state.latest_version
        }),
{
}

/// Every step of a run can fail, each is answered only with what it waits for,
/// and a run that ended waits for nothing.
pub proof fn law_each_step_is_answered_in_kind(
    m: StageModel,
    error: Seq<char>,
    publisher: Seq<char>,
    product: Seq<char>,
    path: Seq<char>,
)
    ensures
        m.expects(StageEventModel::Failed(error)) <==> m.step != StageStep::Ended,
        m.expects(StageEventModel::Identified(publisher, product)) <==> m.step
            == StageStep::CheckIdentity,
        m.expects(StageEventModel::Placed(path)) <==> m.step == StageStep::Replace,
        m.expects(StageEventModel::Done) <==> m.step == StageStep::Prepare || m.step
            == StageStep::StoreDownloading || m.step == StageStep::Download || m.step
            == StageStep::StoreVerifying || m.step == StageStep::CheckBytes || m.step
            == StageStep::Record,
{
}

/// Staging begins exactly if a publisher is configured, a release is known and
/// its artifact may be staged.
pub proof fn law_staging_begins_only_with_all_it_needs(
    settings: SettingsModel,
    state: StateModel,
    current: Seq<char>,
)
    ensures
        stage_problem(settings, state, current) is None <==> settings.expected_publisher is Some
            && state.available is Some && artifact_problem(
            state.available->0,
            current,
            settings.max_artifact_bytes,
        ) is None,
{
}

/// How many steps are behind a run.
spec fn steps_done(step: StageStep) -> nat {
    match step {
        StageStep::Prepare => 0,
        StageStep::StoreDownloading => 1,
        StageStep::Download => 2,
        StageStep::StoreVerifying => 3,
        StageStep::CheckBytes => 4,
        StageStep::CheckIdentity => 5,
        StageStep::Replace => 6,
        StageStep::Record => 7,
        StageStep::Ended => 8,
    }
}

proof fn lemma_steps_follow(artifact: ArtifactModel, state: StateModel, events: Seq<StageEventModel>)
    requires
        stage_answered(StageModel::begun(artifact, state), events),
    ensures
        ({
            let m = stage_ran(StageModel::begun(artifact, state), events);
            &&& m.artifact == artifact
            &&& m.wf()
            &&& m.step != StageStep::Ended ==> {
                &&& events.len() == steps_done(m.step)
                &&& events.len() > 2 ==> events[2] is Done
                &&& events.len() > 4 ==> events[4] is Done
                &&& events.len() > 5 ==> (events[5] matches StageEventModel::Identified(p, q)
                    && m.identity == Some((p, q)))
                &&& events.len() > 6 ==> events[6] is Placed
            }
        }),
    decreases events.len(),
{
    if events.len() > 0 {
        lemma_steps_follow(artifact, state, events.drop_last());
    }
}

/// An artifact is recorded as staged only once it was downloaded, its bytes
/// were checked and its identity was verified, in that order; what is recorded
/// names that identity.
pub proof fn law_only_a_checked_artifact_is_recorded(
    artifact: ArtifactModel,
    state: StateModel,
    events: Seq<StageEventModel>,
    event: StageEventModel,
)
    requires
        stage_answered(StageModel::begun(artifact, state), events),
        stage_ran(StageModel::begun(artifact, state), events).expects(event),
        stage_ran(StageModel::begun(artifact, state), events).action(event) is Record,
    ensures
        ({
            let m = stage_ran(StageModel::begun(artifact, state), events);
            &&& events.len() == 6
            &&& events[2] is Done
            &&& events[4] is Done
            &&& events[5] matches StageEventModel::Identified(publisher, product)
                && event matches StageEventModel::Placed(path) && m.action(event)
                == StageActionModel::Record(
                staged_state(m.state, artifact, path, publisher, product),
            )
        }),
{
    lemma_steps_follow(artifact, state, events);
}

/// Nothing is removed, and no other artifact is in force, before the record of
/// the new one succeeded; then the state in force is the one that was recorded.
pub proof fn law_pruning_follows_the_record(m: StageModel, event: StageEventModel)
    requires
        m.wf(),
        m.expects(event),
    ensures
        m.action(event) is Prune <==> m.step == StageStep::Record && event is Done,
        m.action(event) is Prune ==> Some(m.after(event).state) == m.committed,
        !(m.action(event) is Prune) ==> m.after(event).state.staged == m.state.staged,
{
}

/// A failure of a run whose download was recorded as running comes into force
/// with its reason; an earlier one leaves the state as it is.
pub proof fn law_a_failed_run_says_why(m: StageModel, error: Seq<char>)
    requires
        m.step != StageStep::Ended,
    ensures
        ({
            let after = m.after(StageEventModel::Failed(error));
            &&& after.step == StageStep::Ended
            &&& after.state == m.state || (after.state.stage_phase == StagePhase::Failed
                && after.state.stage_error == Some(error))
            &&& m.action(StageEventModel::Failed(error)) is Refuse <==> (m.step
                == StageStep::Prepare || m.step == StageStep::StoreDownloading)
            &&& m.action(StageEventModel::Failed(error)) is Refuse ==> after.state == m.state
        }),
{
}

/// The one file of the staging directory that a state still names.
pub open spec fn kept_file(state: StateModel) -> Option<Seq<char>> {
    match state.staged {
        Some(a) => Some(setup_name(a.version)),
        None => None,
    }
}

/// Whether a file of the staging directory is removed: a setup artifact or an
/// interrupted download of one, and not the one to keep.
pub open spec fn is_pruned(name: Seq<char>, keep: Option<Seq<char>>) -> bool {
    &&& starts_with(name, "eidos-v"@)
    &&& ends_with(name, "-setup.exe"@) || ends_with(name, "-setup.exe.part"@)
    &&& keep != Some(name)
}

pub fn prunes(name: &str, keep: &Option<String>) -> (r: bool)
    ensures
        r == is_pruned(name@, opt_text(*keep)),
{
    let ours = has_prefix(name, "eidos-v") && (has_suffix(name, "-setup.exe") || has_suffix(
        name,
        "-setup.exe.part",
    ));
    if !ours {
        return false;
    }
    match keep {
        Some(k) => !same(k, name),
        None => true,
    }
}

/// Where an artifact is downloaded to before it is verified.
pub fn partial_file(name: &str) -> (r: String)
    ensures
        r@ == name@ + ".part"@,
{
    name.to_owned().concat(".part")
}

/// What is committed names the artifact that was just staged: pruning spares
/// it, now and at the next start-up, and removes its partial download and the
/// setup of every other version.
pub proof fn law_the_retained_artifact_survives(
    settings: SettingsModel,
    state: StateModel,
    current: Seq<char>,
    path: Seq<char>,
    publisher: Seq<char>,
    product: Seq<char>,
    other: Seq<char>,
)
    requires
        stage_problem(settings, state, current) is None,
    ensures
        ({
            let artifact = state.available->0;
            let committed = staged_state(state, artifact, path, publisher, product);
            &&& kept_file(committed) == Some(artifact.name)
            &&& !is_pruned(artifact.name, kept_file(committed))
            &&& is_pruned(artifact.name + ".part"@, kept_file(committed))
            &&& setup_name(other) != artifact.name ==> is_pruned(
                setup_name(other),
                kept_file(committed),
            )
        }),
{
    let name = state.available->0.name;
    lemma_setup_is_ours(other);
    lemma_setup_is_ours(state.available->0.version);
    reveal_strlit(".part");
    reveal_strlit("-setup.exe");
    reveal_strlit("-setup.exe.part");
    let partial = name + ".part"@;
    assert("-setup.exe"@ + ".part"@ =~= "-setup.exe.part"@);
    assert(partial.take("eidos-v"@.len() as int) =~= name.take("eidos-v"@.len() as int));
    assert(partial.skip(partial.len() - "-setup.exe.part"@.len()) =~= name.skip(
        name.len() - "-setup.exe"@.len(),
    ) + ".part"@);
    assert(partial.len() != name.len());
}

proof fn lemma_setup_is_ours(version: Seq<char>)
    ensures
        starts_with(setup_name(version), "eidos-v"@),
        ends_with(setup_name(version), "-setup.exe"@),
{
    let name = setup_name(version);
    assert(name.take("eidos-v"@.len() as int) =~= "eidos-v"@);
    assert(name.skip(name.len() - "-setup.exe"@.len()) =~= "-setup.exe"@);
}

/// Start-up never leaves a stage in progress, and never keeps staged bytes
/// that this build would not install.
pub proof fn law_startup_settles_every_stage(
    read: Result<Option<UpdateState>, String>,
    settings: SettingsModel,
    error: Option<Seq<char>>,
    command_line_checks: bool,
    current: Seq<char>,
)
    ensures
        ({
            let s = opened_state(read, settings, error, command_line_checks, current);
            &&& s.stage_phase != StagePhase::Downloading
            &&& s.stage_phase != StagePhase::Verifying
            &&& s.staged matches Some(a) ==> is_compatible_newer(current, a.version)
            &&& s.available matches Some(a) ==> is_compatible_newer(current, a.version)
            &&& s.latest_version matches Some(v) ==> is_newer(current, v)
            &&& !command_line_checks ==> !s.checks_enabled
        }),
{
}

} // verus!
