//! Demand-driven process memory sampling, independent of source/catalog I/O.
//! A single-flight probe serves cached results while refreshing every five
//! seconds; no polling task runs when nobody requests the diagnostics.

use crate::domain::{opt_text, NANOS_PER_SEC};
use crate::text::{
    chars_of, decimal, is_digit, is_space, law_decimal_reads_back, parse_unsigned, parts_at, prefix_at, space_char, split, split_bounds,
    starts_with, trim_start, unsigned_value,
};
use vstd::prelude::*;
use vstd::string::*;

verus! {

pub const REFRESH_NS: u64 = 5 * NANOS_PER_SEC;

pub const MAX_AGE_NS: u64 = 30 * NANOS_PER_SEC;

/// A one-shot caller cannot poll, so a cold or aged-out cache waits this long
/// for the refresh the same request started. A usable sample never waits, and
/// the wait never starts a second probe.
pub const SAMPLE_DEADLINE_NS: u64 = 2 * NANOS_PER_SEC;

/// How much of the status file is read.
pub const STATUS_LIMIT: u64 = 16 * 1024;

#[derive(Debug, Clone, Copy, PartialEq, Eq, Structural)]
pub struct ProcessMemory {
    pub pid: u32,
    /// Current working set on Windows; resident set on macOS/Linux.
    pub resident_bytes: u64,
    /// OS-reported lifetime peak, if available on this platform.
    pub peak_resident_bytes: Option<u64>,
    /// Windows private committed bytes, NOT private resident RAM.
    pub private_commit_bytes: Option<u64>,
}

/// How the catalog is configured to use memory.
#[derive(Debug, Clone, Copy, PartialEq, Eq, Structural)]
pub struct CatalogMemoryConfig {
    pub baseline_connections: u64,
    pub page_cache_per_connection_bytes: u64,
    pub page_cache_baseline_target_bytes: u64,
    pub mmap_per_connection_limit_bytes: u64,
}

#[derive(Debug)]
pub struct MemoryView {
    pub process: Option<ProcessMemory>,
    pub sample_age_s: Option<u64>,
    pub stale: bool,
    pub error: Option<String>,
    pub catalog: CatalogMemoryConfig,
    pub catalog_writer_budget_bytes: u64,
    pub content_writer_budget_bytes: u64,
}

/// What is shown of a sample of a given age. A failed probe and a sample that
/// aged out are stale; the catalog's configuration and the writers' budgets are
/// shown regardless.
pub fn cached_view(
    sample: &Option<(u64, Result<ProcessMemory, String>)>,
    catalog: CatalogMemoryConfig,
    catalog_writer_budget_bytes: u64,
    content_writer_budget_bytes: u64,
) -> (r: MemoryView)
    ensures
        r.catalog == catalog,
        r.catalog_writer_budget_bytes == catalog_writer_budget_bytes,
        r.content_writer_budget_bytes == content_writer_budget_bytes,
        match *sample {
            None => {
                &&& r.process is None
                &&& r.sample_age_s is None
                &&& r.stale
                &&& r.error is None
            },
            Some((age, result)) => {
                &&& r.sample_age_s == Some((age / NANOS_PER_SEC) as u64)
                &&& r.stale == (age > MAX_AGE_NS || result is Err)
                &&& r.process == (match result {
                    Ok(p) => Some(p),
                    Err(_) => None,
                })
                &&& opt_text(r.error) == (match result {
                    Ok(_) => None,
                    Err(e) => Some(e@),
                })
            },
        },
{
    let mut view = MemoryView {
        process: None,
        sample_age_s: None,
        stale: true,
        error: None,
        catalog,
        catalog_writer_budget_bytes,
        content_writer_budget_bytes,
    };
    if let Some((age, result)) = sample {
        view.sample_age_s = Some(*age / NANOS_PER_SEC);
        match result {
            Ok(process) => {
                view.stale = *age > MAX_AGE_NS;
                view.process = Some(*process);
            },
            Err(error) => {
                view.error = Some(error.clone());
            },
        }
    }
    view
}

// ----- the Linux status file ------------------------------------------------

/// How long the word at the start of `s` is.
pub open spec fn word_len(s: Seq<char>) -> nat
    decreases s.len(),
{
    if s.len() > 0 && !is_space(s[0]) {
        1 + word_len(s.subrange(1, s.len() as int))
    } else {
        0
    }
}

/// The word at the start of `s`: everything before the first space.
pub open spec fn word(s: Seq<char>) -> Seq<char> {
    s.take(word_len(s) as int)
}

/// What follows `name` on the first line that starts with it.
pub open spec fn first_tail(lines: Seq<Seq<char>>, name: Seq<char>) -> Option<Seq<char>>
    decreases lines.len(),
{
    if lines.len() == 0 {
        None
    } else if starts_with(lines[0], name) {
        Some(lines[0].skip(name.len() as int))
    } else {
        first_tail(lines.skip(1), name)
    }
}

/// The bytes that a tail such as ` 1234 kB` writes.
pub open spec fn kib_bytes(tail: Seq<char>) -> Option<u64> {
    let a = trim_start(tail);
    let number = word(a);
    let b = trim_start(a.skip(number.len() as int));
    match unsigned_value(number) {
        Some(n) => if word(b) == "kB"@ && n * 1024 <= u64::MAX {
            Some((n * 1024) as u64)
        } else {
            None
        },
        None => None,
    }
}

/// The value of a field of the status file, in bytes.
pub open spec fn status_value(status: Seq<char>, name: Seq<char>) -> Option<u64> {
    match first_tail(split(status, '\n'), name) {
        Some(tail) => kib_bytes(tail),
        None => None,
    }
}

proof fn lemma_skip_blank(blank: Seq<char>, rest: Seq<char>)
    requires
        forall|i: int| 0 <= i < blank.len() ==> is_space(#[trigger] blank[i]),
        rest.len() == 0 || !is_space(rest[0]),
    ensures
        trim_start(blank + rest) == rest,
    decreases blank.len(),
{
    let s = blank + rest;
    if blank.len() == 0 {
        assert(s =~= rest);
    } else {
        assert(s[0] == blank[0]);
        let fewer = blank.subrange(1, blank.len() as int);
        assert(s.subrange(1, s.len() as int) =~= fewer + rest);
        lemma_skip_blank(fewer, rest);
    }
}

proof fn lemma_word(w: Seq<char>, rest: Seq<char>)
    requires
        forall|i: int| 0 <= i < w.len() ==> !is_space(#[trigger] w[i]),
        rest.len() == 0 || is_space(rest[0]),
    ensures
        word_len(w + rest) == w.len(),
        word(w + rest) == w,
    decreases w.len(),
{
    let s = w + rest;
    if w.len() == 0 {
        assert(s =~= rest);
        assert(word(s) =~= w);
    } else {
        assert(s[0] == w[0]);
        let tail = w.subrange(1, w.len() as int);
        assert(s.subrange(1, s.len() as int) =~= tail + rest);
        lemma_word(tail, rest);
        assert(word(s) =~= w);
    }
}

/// A field reads as its number of kibibytes, whatever blank stands around it;
/// one in any other unit, and one that does not fit, reads as nothing.
pub proof fn law_a_field_reads_in_kibibytes(
    n: u64,
    blank: Seq<char>,
    gap: Seq<char>,
    unit: Seq<char>,
)
    requires
        forall|i: int| 0 <= i < blank.len() ==> is_space(#[trigger] blank[i]),
        gap.len() > 0,
        forall|i: int| 0 <= i < gap.len() ==> is_space(#[trigger] gap[i]),
        forall|i: int| 0 <= i < unit.len() ==> !is_space(#[trigger] unit[i]),
    ensures
        kib_bytes(blank + (decimal(n as nat) + (gap + unit))) == (if unit == "kB"@ && n * 1024
            <= u64::MAX {
            Some((n * 1024) as u64)
        } else {
            None
        }),
{
    let number = decimal(n as nat);
    law_decimal_reads_back(n);
    assert forall|i: int| 0 <= i < number.len() implies !is_space(#[trigger] number[i]) by {
        assert(is_digit(number[i]));
    }
    let rest = gap + unit;
    let a = number + rest;
    assert(a[0] == number[0]);
    assert(rest[0] == gap[0]);
    lemma_skip_blank(blank, a);
    lemma_word(number, rest);
    assert(a.skip(number.len() as int) =~= rest);
    lemma_skip_blank(gap, unit);
    lemma_word(unit, Seq::empty());
    assert(unit + Seq::<char>::empty() =~= unit);
}

/// A field is read from the first line that begins with its name, and from
/// that line only.
pub proof fn law_a_field_is_on_the_first_line_of_its_name(
    lines: Seq<Seq<char>>,
    name: Seq<char>,
    k: int,
)
    requires
        0 <= k < lines.len(),
        lines[k].len() >= name.len() && lines[k].take(name.len() as int) == name,
        forall|j: int|
            0 <= j < k ==> (#[trigger] lines[j]).len() < name.len() || lines[j].take(
                name.len() as int,
            ) != name,
    ensures
        first_tail(lines, name) == Some(lines[k].skip(name.len() as int)),
    decreases k,
{
    if k > 0 {
        assert(!starts_with(lines[0], name));
        let rest = lines.skip(1);
        assert(rest[k - 1] == lines[k]);
        assert forall|j: int| 0 <= j < k - 1 implies (#[trigger] rest[j]).len() < name.len()
            || rest[j].take(name.len() as int) != name by {
            assert(rest[j] == lines[j + 1]);
        }
        law_a_field_is_on_the_first_line_of_its_name(rest, name, k - 1);
    }
}

/// A field of the status file has the value that its first line writes, in
/// bytes; a file without such a line has none.
pub proof fn law_a_status_field_is_read_from_its_line(
    status: Seq<char>,
    name: Seq<char>,
    k: int,
    n: u64,
    blank: Seq<char>,
    gap: Seq<char>,
)
    requires
        0 <= k < split(status, '\n').len(),
        split(status, '\n')[k] == name + (blank + (decimal(n as nat) + (gap + "kB"@))),
        forall|j: int|
            0 <= j < k ==> (#[trigger] split(status, '\n')[j]).len() < name.len() || split(
                status,
                '\n',
            )[j].take(name.len() as int) != name,
        forall|i: int| 0 <= i < blank.len() ==> is_space(#[trigger] blank[i]),
        gap.len() > 0,
        forall|i: int| 0 <= i < gap.len() ==> is_space(#[trigger] gap[i]),
        n * 1024 <= u64::MAX,
    ensures
        status_value(status, name) == Some((n * 1024) as u64),
{
    let lines = split(status, '\n');
    let tail = blank + (decimal(n as nat) + (gap + "kB"@));
    assert(lines[k].take(name.len() as int) =~= name);
    assert(lines[k].skip(name.len() as int) =~= tail);
    law_a_field_is_on_the_first_line_of_its_name(lines, name, k);
    reveal_strlit("kB");
    law_a_field_reads_in_kibibytes(n, blank, gap, "kB"@);
}

fn skip_spaces(v: &Vec<char>, from: usize, to: usize) -> (r: usize)
    requires
        from <= to <= v.len(),
    ensures
        from <= r <= to,
        v@.subrange(r as int, to as int) == trim_start(v@.subrange(from as int, to as int)),
{
    let mut a: usize = from;
    while a < to && space_char(v[a])
        invariant
            from <= a <= to <= v.len(),
            trim_start(v@.subrange(a as int, to as int)) == trim_start(
                v@.subrange(from as int, to as int),
            ),
        decreases to - a,
    {
        assert(v@.subrange(a as int, to as int).subrange(1, to - a) =~= v@.subrange(
            a + 1,
            to as int,
        ));
        a += 1;
    }
    a
}

fn word_end(v: &Vec<char>, from: usize, to: usize) -> (r: usize)
    requires
        from <= to <= v.len(),
    ensures
        from <= r <= to,
        v@.subrange(from as int, r as int) == word(v@.subrange(from as int, to as int)),
        r - from == word_len(v@.subrange(from as int, to as int)),
{
    let mut a: usize = from;
    while a < to && !space_char(v[a])
        invariant
            from <= a <= to <= v.len(),
            word_len(v@.subrange(from as int, to as int)) == (a - from) + word_len(
                v@.subrange(a as int, to as int),
            ),
        decreases to - a,
    {
        assert(v@.subrange(a as int, to as int).subrange(1, to - a) =~= v@.subrange(
            a + 1,
            to as int,
        ));
        a += 1;
    }
    assert(v@.subrange(from as int, a as int) =~= word(v@.subrange(from as int, to as int)));
    a
}

fn field_bytes(v: &Vec<char>, from: usize, to: usize) -> (r: Option<u64>)
    requires
        from <= to <= v.len(),
    ensures
        r == kib_bytes(v@.subrange(from as int, to as int)),
{
    let a = skip_spaces(v, from, to);
    let a_end = word_end(v, a, to);
    let ghost rest = v@.subrange(a as int, to as int);
    assert(rest.skip(a_end - a) =~= v@.subrange(a_end as int, to as int));
    let b = skip_spaces(v, a_end, to);
    let b_end = word_end(v, b, to);
    let number = match parse_unsigned(v, a, a_end) {
        Some(n) => n,
        None => {
            return None;
        },
    };
    proof {
        reveal_strlit("kB");
        let w = v@.subrange(b as int, b_end as int);
        if b_end - b == 2 && v@[b as int] == 'k' && v@[b + 1] == 'B' {
            assert(w =~= "kB"@);
        }
        if w == "kB"@ {
            assert(w.len() == 2);
            assert(w[0] == 'k' && w[1] == 'B');
            assert(w[0] == v@[b as int] && w[1] == v@[b + 1]);
        }
    }
    if b_end - b != 2 || v[b] != 'k' || v[b + 1] != 'B' {
        return None;
    }
    number.checked_mul(1024)
}

fn field_value(v: &Vec<char>, lines: &Vec<(usize, usize)>, name: &str) -> (r: Option<u64>)
    requires
        forall|k: int| 0 <= k < lines.len() ==> (#[trigger] lines[k]).0 <= lines[k].1 <= v.len(),
    ensures
        r == (match first_tail(parts_at(v@, lines@), name@) {
            Some(tail) => kib_bytes(tail),
            None => None,
        }),
{
    let key = chars_of(name);
    let n: usize = key.len();
    let ghost parts = parts_at(v@, lines@);
    let mut i: usize = 0;
    assert(parts.skip(0) =~= parts);
    while i < lines.len()
        invariant
            0 <= i <= lines.len(),
            n == name@.len(),
            parts == parts_at(v@, lines@),
            forall|k: int|
                0 <= k < lines.len() ==> (#[trigger] lines[k]).0 <= lines[k].1 <= v.len(),
            first_tail(parts.skip(i as int), name@) == first_tail(parts, name@),
        decreases lines.len() - i,
    {
        let (from, to) = lines[i];
        let ghost line = v@.subrange(from as int, to as int);
        assert(parts.skip(i as int)[0] == line);
        assert(parts.skip(i as int).skip(1) =~= parts.skip(i + 1));
        if to - from >= n && prefix_at(v, from, name) {
            proof {
                assert(line.take(n as int) =~= v@.skip(from as int).take(n as int));
                assert(line.skip(n as int) =~= v@.subrange(from + n, to as int));
            }
            return field_bytes(v, from + n, to);
        }
        proof {
            if starts_with(line, name@) {
                assert(line.take(n as int) =~= v@.skip(from as int).take(n as int));
            }
        }
        i += 1;
    }
    None
}

/// Read a process's own status. Values carry their unit; one in another unit,
/// one that is out of range and one that is missing are not zero but absent.
pub fn parse_linux_status(status: &str, pid: u32) -> (r: Result<ProcessMemory, &'static str>)
    ensures
        match status_value(status@, "VmRSS:"@) {
            Some(resident) => r == Ok::<ProcessMemory, &'static str>(
                ProcessMemory {
                    pid,
                    resident_bytes: resident,
                    peak_resident_bytes: status_value(status@, "VmHWM:"@),
                    private_commit_bytes: None,
                },
            ),
            None => r matches Err(e) && e@
                == "resident memory is unavailable in /proc/self/status"@,
        },
{
    let v = chars_of(status);
    let n: usize = v.len();
    let lines = split_bounds(&v, 0, n, '\n');
    assert(v@.subrange(0, n as int) =~= v@);
    match field_value(&v, &lines, "VmRSS:") {
        None => Err("resident memory is unavailable in /proc/self/status"),
        Some(resident) => Ok(
            ProcessMemory {
                pid,
                resident_bytes: resident,
                peak_resident_bytes: field_value(&v, &lines, "VmHWM:"),
                private_commit_bytes: None,
            },
        ),
    }
}

} // verus!
