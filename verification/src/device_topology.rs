//! Read-only backing-device discovery. Call only on a single-flight background
//! worker: filesystem/driver calls can block indefinitely, even on local paths.
//! OS disk numbers do not prove physical independence behind RAID/virtual disks.

use crate::key_list::{insert_key, strictly_sorted, texts};
use crate::text::{chars_of, decimal, push_decimal};
use vstd::prelude::*;
use vstd::string::*;

verus! {

/// The answer on platforms that offer no backing-device identity. In
/// particular, an APFS volume ID is not a physical-store ID.
pub const UNSUPPORTED: &'static str =
    "backing-device discovery is unavailable on this platform; using the shared fallback budget";

// ----- which roots may be looked up -----------------------------------------

pub open spec fn is_separator(c: char) -> bool {
    c == '\\' || c == '/'
}

fn separator(c: char) -> (r: bool)
    ensures
        r == is_separator(c),
{
    c == '\\' || c == '/'
}

pub open spec fn is_letter(c: char) -> bool {
    'a' <= c <= 'z' || 'A' <= c <= 'Z'
}

/// A drive qualifier such as `C:` at a position.
pub open spec fn drive_at(s: Seq<char>, i: int) -> bool {
    0 <= i && i + 2 <= s.len() && is_letter(s[i]) && s[i + 1] == ':'
}

/// The literal namespace prefix `\\?\`, in backslashes only.
pub open spec fn verbatim(s: Seq<char>) -> bool {
    s.len() >= 4 && s[0] == '\\' && s[1] == '\\' && s[2] == '?' && s[3] == '\\'
}

/// The device namespace prefix `\\.\`.
pub open spec fn device_namespace(s: Seq<char>) -> bool {
    s.len() >= 4 && is_separator(s[0]) && is_separator(s[1]) && s[2] == '.' && is_separator(s[3])
}

/// The position of the first separator at or after `i`, or the end.
pub open spec fn next_separator(s: Seq<char>, i: int) -> int
    decreases s.len() - i,
{
    if 0 <= i < s.len() && !is_separator(s[i]) {
        next_separator(s, i + 1)
    } else {
        i
    }
}

/// A server and a share, such as `\\server\share`: two names that are not
/// empty.
pub open spec fn network_share(s: Seq<char>) -> bool {
    let end = next_separator(s, 2);
    s.len() >= 2 && is_separator(s[0]) && is_separator(s[1]) && end > 2 && end + 1 < s.len()
        && !is_separator(s[end + 1])
}

/// Where a Windows root points.
#[derive(Debug, Clone, Copy, PartialEq, Eq, Structural)]
pub enum RootForm {
    /// Not absolute, such as `C:name` or `name`.
    Relative,
    /// Absolute, without a drive, such as `\name`.
    NoDrive,
    /// On a drive letter.
    Drive(char),
    Network,
    /// Another namespace.
    Other,
}

pub open spec fn upper(c: char) -> char {
    if 'a' <= c <= 'z' {
        ((c as u32 - 32) as u32) as char
    } else {
        c
    }
}

pub open spec fn root_form(s: Seq<char>) -> RootForm {
    if verbatim(s) {
        if s.len() >= 8 && s[4] == 'U' && s[5] == 'N' && s[6] == 'C' && is_separator(s[7]) {
            RootForm::Network
        } else if drive_at(s, 4) && (s.len() == 6 || is_separator(s[6])) {
            RootForm::Drive(upper(s[4]))
        } else {
            RootForm::Other
        }
    } else if device_namespace(s) {
        RootForm::Other
    } else if network_share(s) {
        RootForm::Network
    } else if s.len() > 0 && is_separator(s[0]) {
        RootForm::NoDrive
    } else if drive_at(s, 0) && s.len() > 2 && is_separator(s[2]) {
        RootForm::Drive(upper(s[0]))
    } else {
        RootForm::Relative
    }
}

proof fn lemma_next_separator(s: Seq<char>, i: int, end: int)
    requires
        0 <= i <= end <= s.len(),
        forall|k: int| i <= k < end ==> !is_separator(#[trigger] s[k]),
        end < s.len() ==> is_separator(s[end]),
    ensures
        next_separator(s, i) == end,
    decreases end - i,
{
    if i < end {
        lemma_next_separator(s, i + 1, end);
    }
}

/// A root on a drive is a letter, a colon and a separator, and then anything:
/// the drive is that letter, in upper case. Without the separator it is not
/// absolute.
pub proof fn law_a_drive_root_names_its_drive(letter: char, separator: char, rest: Seq<char>)
    requires
        'a' <= letter <= 'z' || 'A' <= letter <= 'Z',
        separator == '\\' || separator == '/',
    ensures
        ({
            let capital = if 'a' <= letter <= 'z' {
                (letter as int - 32) as char
            } else {
                letter
            };
            &&& root_form(seq![letter, ':', separator] + rest) == RootForm::Drive(capital)
            &&& root_form(seq!['\\', '\\', '?', '\\', letter, ':', separator] + rest)
                == RootForm::Drive(capital)
            &&& rest.len() == 0 || (rest[0] != '\\' && rest[0] != '/') ==> root_form(
                seq![letter, ':'] + rest,
            ) == RootForm::Relative
        }),
{
    let a = seq![letter, ':', separator] + rest;
    assert(a[0] == letter && a[1] == ':' && a[2] == separator);
    let b = seq!['\\', '\\', '?', '\\', letter, ':', separator] + rest;
    assert(b[0] == '\\' && b[1] == '\\' && b[2] == '?' && b[3] == '\\' && b[4] == letter && b[5]
        == ':' && b[6] == separator);
    let c = seq![letter, ':'] + rest;
    assert(c[0] == letter && c[1] == ':');
    if rest.len() > 0 {
        assert(c[2] == rest[0]);
    }
}

/// What stands in another namespace is no drive and no share; a server without a
/// share is none either.
pub proof fn law_other_namespaces_are_left_alone(a: char, b: char, c: char, rest: Seq<char>)
    requires
        a == '\\' || a == '/',
        b == '\\' || b == '/',
        c == '\\' || c == '/',
    ensures
        root_form(seq![a, b, '.', c] + rest) == RootForm::Other,
        rest.len() < 2 || rest[1] != ':' && rest[0] != 'U' ==> root_form(
            seq!['\\', '\\', '?', '\\'] + rest,
        ) == RootForm::Other,
        (forall|i: int| 0 <= i < rest.len() ==> #[trigger] rest[i] != '\\' && rest[i] != '/') ==> {
            &&& root_form(seq![a, b] + rest) == RootForm::NoDrive
            &&& rest.len() > 1 ==> root_form(seq![a, b] + rest + seq![c]) == RootForm::NoDrive
        },
{
    let x = seq![a, b, '.', c] + rest;
    assert(x[0] == a && x[1] == b && x[2] == '.' && x[3] == c);
    let y = seq!['\\', '\\', '?', '\\'] + rest;
    assert(y[0] == '\\' && y[1] == '\\' && y[2] == '?' && y[3] == '\\');
    if rest.len() > 1 {
        assert(y[4] == rest[0] && y[5] == rest[1]);
    }
    if forall|i: int| 0 <= i < rest.len() ==> #[trigger] rest[i] != '\\' && rest[i] != '/' {
        let z = seq![a, b] + rest;
        let w = z + seq![c];
        let end = (2 + rest.len()) as int;
        assert(z[0] == a && z[1] == b && w[0] == a && w[1] == b && w[end] == c);
        assert forall|k: int| 2 <= k < end implies !is_separator(#[trigger] z[k]) by {
            assert(z[k] == rest[k - 2]);
        }
        assert forall|k: int| 2 <= k < end implies !is_separator(#[trigger] w[k]) by {
            assert(w[k] == rest[k - 2]);
        }
        lemma_next_separator(z, 2, end);
        lemma_next_separator(w, 2, end);
        if rest.len() > 1 {
            assert(!is_separator(z[3]) && !is_separator(w[3]));
        }
    }
}

/// A server and a share are network storage, in either spelling, and never a
/// drive; a root without a drive letter is none either.
pub proof fn law_a_share_is_never_a_drive(server: Seq<char>, share: Seq<char>, rest: Seq<char>)
    requires
        server.len() > 0,
        share.len() > 0,
        forall|i: int| 0 <= i < server.len() ==> #[trigger] server[i] != '\\' && server[i] != '/',
        share[0] != '\\' && share[0] != '/',
        server[0] != '.' && server[0] != '?',
    ensures
        root_form(seq!['\\', '\\'] + server + seq!['\\'] + share) == RootForm::Network,
        root_form(seq!['\\', '\\', '?', '\\', 'U', 'N', 'C', '\\'] + rest) == RootForm::Network,
        rest.len() == 0 || (rest[0] != '\\' && rest[0] != '/') ==> root_form(seq!['\\'] + rest)
            == RootForm::NoDrive,
{
    let a = seq!['\\', '\\'] + server + seq!['\\'] + share;
    let end = (2 + server.len()) as int;
    assert(a[0] == '\\' && a[1] == '\\' && a[2] == server[0]);
    assert forall|k: int| 2 <= k < end implies !is_separator(#[trigger] a[k]) by {
        assert(a[k] == server[k - 2]);
    }
    assert(a[end] == '\\');
    assert(a[end + 1] == share[0]);
    lemma_next_separator(a, 2, end);
    let b = seq!['\\', '\\', '?', '\\', 'U', 'N', 'C', '\\'] + rest;
    assert(b[0] == '\\' && b[1] == '\\' && b[2] == '?' && b[3] == '\\' && b[4] == 'U' && b[5]
        == 'N' && b[6] == 'C' && b[7] == '\\');
    let c = seq!['\\'] + rest;
    assert(c[0] == '\\');
    if rest.len() > 0 {
        assert(c[1] == rest[0]);
    }
}

fn letter(c: char) -> (r: bool)
    ensures
        r == is_letter(c),
{
    ('a' <= c && c <= 'z') || ('A' <= c && c <= 'Z')
}

fn raised(c: char) -> (r: char)
    requires
        is_letter(c),
    ensures
        r == upper(c),
        'A' <= r <= 'Z',
{
    if 'a' <= c && c <= 'z' {
        let n: u8 = (c as u8) - 32;
        n as char
    } else {
        c
    }
}

fn find_separator(v: &Vec<char>, from: usize) -> (r: usize)
    requires
        from <= v.len(),
    ensures
        from <= r <= v.len(),
        r == next_separator(v@, from as int),
{
    let mut i: usize = from;
    while i < v.len() && !separator(v[i])
        invariant
            from <= i <= v.len(),
            next_separator(v@, i as int) == next_separator(v@, from as int),
        decreases v.len() - i,
    {
        i += 1;
    }
    i
}

fn form_of(v: &Vec<char>) -> (r: RootForm)
    ensures
        r == root_form(v@),
        r matches RootForm::Drive(c) ==> 'A' <= c <= 'Z',
{
    let n: usize = v.len();
    if n >= 4 && v[0] == '\\' && v[1] == '\\' && v[2] == '?' && v[3] == '\\' {
        if n >= 8 && v[4] == 'U' && v[5] == 'N' && v[6] == 'C' && separator(v[7]) {
            return RootForm::Network;
        }
        if n >= 6 && letter(v[4]) && v[5] == ':' && (n == 6 || separator(v[6])) {
            return RootForm::Drive(raised(v[4]));
        }
        return RootForm::Other;
    }
    if n >= 4 && separator(v[0]) && separator(v[1]) && v[2] == '.' && separator(v[3]) {
        return RootForm::Other;
    }
    if n >= 2 && separator(v[0]) && separator(v[1]) {
        let end = find_separator(v, 2);
        if end > 2 && end < n - 1 && !separator(v[end + 1]) {
            return RootForm::Network;
        }
    }
    if n > 0 && separator(v[0]) {
        return RootForm::NoDrive;
    }
    if n > 2 && letter(v[0]) && v[1] == ':' && separator(v[2]) {
        return RootForm::Drive(raised(v[0]));
    }
    RootForm::Relative
}

/// The root of the drive that a source is on, as NUL-terminated UTF-16.
///
/// Relative/NT/device namespaces are rejected rather than accepting the
/// boot-volume fallback that the OS documents for invalid volume qualifiers.
/// Network roots return without a filesystem or network call.
pub fn local_drive(root: &str) -> (r: Result<[u16; 4], &'static str>)
    ensures
        match root_form(root@) {
            RootForm::Drive(c) => r matches Ok(d) && d@ == seq![c as u16, 58u16, 92u16, 0u16],
            RootForm::Relative => r matches Err(e) && e@
                == "backing-device lookup requires an absolute local path"@,
            RootForm::NoDrive => r matches Err(e) && e@
                == "backing-device lookup requires a local drive qualifier"@,
            RootForm::Network => r matches Err(e) && e@
                == "network storage has no supported local backing-device identity"@,
            RootForm::Other => r matches Err(e) && e@
                == "unsupported path namespace for backing-device lookup"@,
        },
{
    let v = chars_of(root);
    match form_of(&v) {
        RootForm::Relative => Err("backing-device lookup requires an absolute local path"),
        RootForm::NoDrive => Err("backing-device lookup requires a local drive qualifier"),
        RootForm::Network => Err(
            "network storage has no supported local backing-device identity",
        ),
        RootForm::Other => Err("unsupported path namespace for backing-device lookup"),
        RootForm::Drive(c) => {
            let d: [u16; 4] = [c as u16, 58, 92, 0];
            assert(d@ =~= seq![c as u16, 58u16, 92u16, 0u16]);
            Ok(d)
        },
    }
}

/// The longest path that is handed to the OS, in UTF-16 units.
pub const MAX_PATH_UNITS: usize = 32_766;

/// A path for the OS: without NULs in it, and with one behind it.
pub fn nul_terminated(wide: &Vec<u16>) -> (r: Result<Vec<u16>, &'static str>)
    ensures
        if wide@.len() > MAX_PATH_UNITS || wide@.contains(0) {
            r matches Err(e) && e@ == "path exceeds the device probe bound or contains NUL"@
        } else {
            r matches Ok(t) && t@ == wide@.push(0)
        },
{
    if wide.len() > MAX_PATH_UNITS {
        return Err("path exceeds the device probe bound or contains NUL");
    }
    let mut t: Vec<u16> = Vec::new();
    let mut i: usize = 0;
    while i < wide.len()
        invariant
            0 <= i <= wide.len() <= MAX_PATH_UNITS,
            t@ == wide@.take(i as int),
            forall|j: int| 0 <= j < i ==> wide@[j] != 0,
        decreases wide.len() - i,
    {
        if wide[i] == 0 {
            return Err("path exceeds the device probe bound or contains NUL");
        }
        t.push(wide[i]);
        i += 1;
        assert(wide@.take(i as int) =~= wide@.take(i - 1).push(wide@[i - 1]));
    }
    assert(wide@.take(i as int) =~= wide@);
    t.push(0);
    Ok(t)
}

/// What is asked of the OS for a root: the kind of its drive, and the volume
/// that its path is on.
#[derive(Debug)]
pub struct VolumeQuery {
    pub drive: [u16; 4],
    pub path: Vec<u16>,
}

/// What must be asked of the OS for a root, given as text and in UTF-16. Roots
/// that are not on a local drive never reach the OS.
pub fn probe_root(root: &str, wide: &Vec<u16>) -> (r: Result<VolumeQuery, &'static str>)
    ensures
        r is Ok <==> root_form(root@) is Drive && wide@.len() <= MAX_PATH_UNITS && !wide@.contains(
            0,
        ),
        r matches Ok(q) ==> {
            &&& q.drive@ == seq![root_form(root@)->Drive_0 as u16, 58u16, 92u16, 0u16]
            &&& q.path@ == wide@.push(0)
        },
        r matches Err(e) ==> e@ == (match root_form(root@) {
            RootForm::Drive(_) => "path exceeds the device probe bound or contains NUL"@,
            RootForm::Relative => "backing-device lookup requires an absolute local path"@,
            RootForm::NoDrive => "backing-device lookup requires a local drive qualifier"@,
            RootForm::Network =>
            "network storage has no supported local backing-device identity"@,
            RootForm::Other => "unsupported path namespace for backing-device lookup"@,
        }),
{
    let drive = match local_drive(root) {
        Ok(d) => d,
        Err(e) => {
            return Err(e);
        },
    };
    match nul_terminated(wide) {
        Ok(path) => Ok(VolumeQuery { drive, path }),
        Err(e) => Err(e),
    }
}

/// Fixed and removable local drives only. In particular, mapped network drives
/// stop here before a potentially remote volume-path lookup.
pub fn check_drive_kind(kind: u32) -> (r: Result<(), &'static str>)
    ensures
        r is Ok <==> kind == 2 || kind == 3,
        r matches Err(e) ==> e@ == "root is not on an available local fixed/removable drive"@,
{
    if kind != 2 && kind != 3 {
        Err("root is not on an available local fixed/removable drive")
    } else {
        Ok(())
    }
}

/// The name of a volume handle: the volume's path, which ends in a backslash
/// and a NUL, without the backslash. A volume handle (not its root directory)
/// omits the trailing slash.
pub fn volume_handle_name(volume: &Vec<u16>) -> (r: Result<Vec<u16>, &'static str>)
    ensures
        !volume@.contains(0) ==> (r matches Err(e) && e@ == "volume path was not terminated"@),
        volume@.contains(0) ==> {
            let end = volume@.index_of_first(0)->0;
            if end == 0 || volume@[end - 1] != 92 {
                r matches Err(e) && e@ == "volume path did not end at a mount root"@
            } else {
                r matches Ok(name) && name@ == volume@.take(end - 1).push(0)
            }
        },
{
    let mut name: Vec<u16> = Vec::new();
    let mut i: usize = 0;
    while i < volume.len() && volume[i] != 0
        invariant
            0 <= i <= volume.len(),
            name@ == volume@.take(i as int),
            forall|j: int| 0 <= j < i ==> volume@[j] != 0,
        decreases volume.len() - i,
    {
        name.push(volume[i]);
        i += 1;
        assert(volume@.take(i as int) =~= volume@.take(i - 1).push(volume@[i - 1]));
    }
    if i == volume.len() {
        return Err("volume path was not terminated");
    }
    proof {
        assert(volume@[i as int] == 0);
        volume@.index_of_first_ensures(0);
    }
    if i == 0 || volume[i - 1] != 92 {
        return Err("volume path did not end at a mount root");
    }
    name.pop();
    name.push(0);
    assert(name@ =~= volume@.take(i - 1).push(0));
    Ok(name)
}

// ----- what the driver answers ----------------------------------------------

pub const MAX_EXTENTS: usize = 64;

/// Where the extents start in the driver's answer, after their count.
pub const EXTENTS_OFFSET: usize = 8;

/// One extent: a disk number, padding, a starting offset and a length.
pub const EXTENT_SIZE: usize = 24;

pub const START_AT: usize = 8;

pub const LENGTH_AT: usize = 16;

pub const MAX_BYTES: usize = EXTENTS_OFFSET + MAX_EXTENTS * EXTENT_SIZE;

/// One fixed-size query avoids unbounded allocation/retry if the driver
/// reports more extents.
pub fn check_returned(returned: u32) -> (r: Result<usize, &'static str>)
    ensures
        r is Ok <==> returned <= MAX_BYTES,
        r matches Ok(n) ==> n == returned,
        r matches Err(e) ==> e@ == "volume driver returned an invalid byte count"@,
{
    if returned as usize > MAX_BYTES {
        Err("volume driver returned an invalid byte count")
    } else {
        Ok(returned as usize)
    }
}

/// Four bytes, the lowest first.
pub open spec fn unsigned_at(b: Seq<u8>, i: int) -> int {
    b[i] + 256 * b[i + 1] + 65536 * b[i + 2] + 16777216 * b[i + 3]
}

/// Eight bytes, the lowest first, in two's complement.
pub open spec fn signed_at(b: Seq<u8>, i: int) -> int {
    let low = unsigned_at(b, i);
    let high = unsigned_at(b, i + 4);
    if high >= 0x8000_0000 {
        low + 0x1_0000_0000 * (high - 0x1_0000_0000)
    } else {
        low + 0x1_0000_0000 * high
    }
}

/// The number of extents that an answer announces.
pub open spec fn extent_count(b: Seq<u8>) -> int {
    unsigned_at(b, 0)
}

/// Where an extent stands.
pub open spec fn extent_at(i: int) -> int {
    EXTENTS_OFFSET + i * EXTENT_SIZE
}

/// An extent that can be on a disk.
pub open spec fn extent_possible(b: Seq<u8>, i: int) -> bool {
    let start = signed_at(b, extent_at(i) + START_AT);
    let length = signed_at(b, extent_at(i) + LENGTH_AT);
    start >= 0 && length > 0 && start + length <= i64::MAX
}

pub open spec fn disk_name(number: int) -> Seq<char> {
    "windows-disk-"@ + decimal(number as nat)
}

/// The names of the disks that the first `n` extents are on.
pub open spec fn disk_names(b: Seq<u8>, n: int) -> Set<Seq<char>>
    decreases n,
{
    if n <= 0 {
        Set::empty()
    } else {
        disk_names(b, n - 1).insert(disk_name(unsigned_at(b, extent_at(n - 1))))
    }
}

/// A number is read lowest byte first, and a signed one in two's complement:
/// it is what its bytes come to, up to a multiple of two to the sixty-fourth.
pub proof fn law_numbers_are_read_lowest_byte_first(b: Seq<u8>, i: int)
    requires
        0 <= i,
        i + 8 <= b.len(),
    ensures
        0 <= unsigned_at(b, i) <= u32::MAX,
        unsigned_at(b, i) % 256 == b[i],
        unsigned_at(b, i) / 16777216 == b[i + 3],
        i64::MIN <= signed_at(b, i) <= i64::MAX,
        signed_at(b, i) < 0 <==> b[i + 7] >= 128,
        signed_at(b, i) >= 0 ==> signed_at(b, i) == unsigned_at(b, i) + 0x1_0000_0000 * unsigned_at(
            b,
            i + 4,
        ),
        signed_at(b, i) < 0 ==> signed_at(b, i) + 0x1_0000_0000 * 0x1_0000_0000 == unsigned_at(b, i)
            + 0x1_0000_0000 * unsigned_at(b, i + 4),
{
}

/// A volume is on exactly the disks that its extents name: each extent is
/// twenty-four bytes, the first eight bytes from the start, and begins with the
/// number of its disk.
pub proof fn law_every_extent_names_its_disk(b: Seq<u8>, n: int, name: Seq<char>)
    ensures
        disk_names(b, n).contains(name) <==> exists|i: int|
            0 <= i < n && name == "windows-disk-"@ + decimal(
                #[trigger] unsigned_at(b, 8 + i * 24) as nat,
            ),
    decreases n,
{
    if n > 0 {
        law_every_extent_names_its_disk(b, n - 1, name);
        let last = n - 1;
        assert(extent_at(last) == 8 + last * 24);
        if name == "windows-disk-"@ + decimal(unsigned_at(b, 8 + last * 24) as nat) {
            assert(disk_names(b, n).contains(name));
        }
    }
}

/// An extent is possible exactly if it starts on the disk, is not empty and ends
/// where an offset can still be written.
pub proof fn law_only_possible_extents_count(b: Seq<u8>, i: int)
    ensures
        extent_possible(b, i) <==> signed_at(b, 8 + i * 24 + 8) >= 0 && signed_at(b, 8 + i * 24 + 16)
            > 0 && signed_at(b, 8 + i * 24 + 8) + signed_at(b, 8 + i * 24 + 16) <= i64::MAX,
{
}

fn read_unsigned(b: &[u8], i: usize) -> (r: u32)
    requires
        i + 4 <= b@.len(),
    ensures
        r == unsigned_at(b@, i as int),
{
    (b[i] as u32) + 256 * (b[i + 1] as u32) + 65536 * (b[i + 2] as u32) + 16777216 * (
    b[i + 3] as u32)
}

fn read_signed(b: &[u8], i: usize) -> (r: i64)
    requires
        i + 8 <= b@.len(),
    ensures
        r == signed_at(b@, i as int),
{
    let n: usize = b.len();
    assert(i + 8 <= n);
    let low = read_unsigned(b, i) as i64;
    let high = read_unsigned(b, i + 4) as i64;
    if high >= 0x8000_0000 {
        low + 0x1_0000_0000 * (high - 0x1_0000_0000)
    } else {
        low + 0x1_0000_0000 * high
    }
}

/// The backing disks of a volume, each once and in name order. An answer that
/// is cut short, announces no extents or too many, or holds an impossible one
/// names no disk at all: no guessed subset of disks may establish independent
/// admission capacity.
pub fn parse_extents(bytes: &[u8]) -> (r: Result<Vec<String>, &'static str>)
    ensures
        if bytes@.len() < 4 {
            r matches Err(e) && e@ == "truncated volume extent count"@
        } else if !(1 <= extent_count(bytes@) <= MAX_EXTENTS) || bytes@.len() < extent_at(
            extent_count(bytes@),
        ) {
            r matches Err(e) && e@ == "volume extent count is empty, excessive or truncated"@
        } else if exists|i: int|
            0 <= i < extent_count(bytes@) && !#[trigger] extent_possible(bytes@, i) {
            r matches Err(e) && e@ == "invalid volume disk extent range"@
        } else {
            r matches Ok(names) && strictly_sorted(texts(names@)) && texts(names@).to_set()
                == disk_names(bytes@, extent_count(bytes@))
        },
{
    let n: usize = bytes.len();
    if n < 4 {
        return Err("truncated volume extent count");
    }
    let count = read_unsigned(bytes, 0) as usize;
    if !(1 <= count && count <= MAX_EXTENTS) || n < EXTENTS_OFFSET + count * EXTENT_SIZE {
        return Err("volume extent count is empty, excessive or truncated");
    }
    let mut devices: Vec<String> = Vec::new();
    let mut index: usize = 0;
    assert(texts(devices@).to_set() =~= Set::empty());
    while index < count
        invariant
            0 <= index <= count <= MAX_EXTENTS,
            n == bytes@.len(),
            n >= EXTENTS_OFFSET + count * EXTENT_SIZE,
            count == extent_count(bytes@),
            strictly_sorted(texts(devices@)),
            texts(devices@).to_set() == disk_names(bytes@, index as int),
            forall|i: int| 0 <= i < index ==> #[trigger] extent_possible(bytes@, i),
        decreases count - index,
    {
        let offset: usize = EXTENTS_OFFSET + index * EXTENT_SIZE;
        let number = read_unsigned(bytes, offset);
        let start = read_signed(bytes, offset + START_AT);
        let length = read_signed(bytes, offset + LENGTH_AT);
        if start < 0 || length <= 0 || start > i64::MAX - length {
            assert(!extent_possible(bytes@, index as int));
            return Err("invalid volume disk extent range");
        }
        assert(extent_possible(bytes@, index as int));
        let mut name = "windows-disk-".to_owned();
        push_decimal(&mut name, number as u64);
        insert_key(&mut devices, &name);
        index += 1;
    }
    Ok(devices)
}

} // verus!
