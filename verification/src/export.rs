//! Bounded, streaming export of a search result set.
//!
//! The walk follows the result cursors server-side, emitting one page at a
//! time. Nothing larger than a single page is ever held in memory, and the walk
//! stops as soon as the client goes away.
//!
//! Three formats share one row schema (see [`columns`]): RFC 4180 CSV, a single
//! JSON document, and newline-delimited JSON.

use crate::domain::SourceId;
use crate::picks::{lemma_picks_next, lemma_picks_none, picks, rising};
use crate::scanner::wrapped;
use crate::source_map::SourceMap;
use crate::text::{
    chars_of, decimal, decimal_string, lowered, same, signed_decimal, signed_string,
    string_of, trimmed, lower_all, trim,
};
use vstd::prelude::*;
use vstd::string::*;
use vstd::utf8::*;

verus! {

/// Version tag carried by every JSON/NDJSON export envelope.
pub const EXPORT_SCHEMA: &'static str = "eidos-export/2";

/// Number of columns of a row.
pub const COLUMN_COUNT: usize = 14;

/// The name of a column.
pub open spec fn column_name(i: int) -> Seq<char> {
    if i == 0 {
        "object_id"@
    } else if i == 1 {
        "entry_id"@
    } else if i == 2 {
        "source"@
    } else if i == 3 {
        "kind"@
    } else if i == 4 {
        "name"@
    } else if i == 5 {
        "path"@
    } else if i == 6 {
        "extension"@
    } else if i == 7 {
        "size"@
    } else if i == 8 {
        "allocated_size"@
    } else if i == 9 {
        "modified"@
    } else if i == 10 {
        "created"@
    } else if i == 11 {
        "content_state"@
    } else if i == 12 {
        "hard_link_count"@
    } else {
        "score"@
    }
}

/// Stable column order of the CSV export; also the field order of a row in
/// the JSON and NDJSON exports.
pub fn columns() -> (r: Vec<&'static str>)
    ensures
        r.len() == COLUMN_COUNT,
        forall|i: int| 0 <= i < COLUMN_COUNT ==> (#[trigger] r@[i])@ == column_name(i),
{
    let mut r: Vec<&'static str> = Vec::new();
    r.push("object_id");
    r.push("entry_id");
    r.push("source");
    r.push("kind");
    r.push("name");
    r.push("path");
    r.push("extension");
    r.push("size");
    r.push("allocated_size");
    r.push("modified");
    r.push("created");
    r.push("content_state");
    r.push("hard_link_count");
    r.push("score");
    r
}

/// Server-side bounds on an export.
#[derive(Debug, Clone, Copy, PartialEq, Eq, Structural)]
pub struct ExportLimits {
    /// Rows fetched per cursor step. Also the streaming chunk size.
    pub page_size: u32,
    /// Hard cap on exported rows; a request may ask for fewer, never more.
    pub max_rows: u64,
    /// Exports allowed to stream at once.
    pub concurrency: usize,
}

impl Default for ExportLimits {
    fn default() -> (r: ExportLimits)
        ensures
            r == (ExportLimits { page_size: 500, max_rows: 100_000, concurrency: 2 }),
    {
        ExportLimits { page_size: 500, max_rows: 100_000, concurrency: 2 }
    }
}

/// Process-wide export counters.
#[derive(Debug, Clone, Copy, PartialEq, Eq, Structural)]
pub struct ExportStats {
    pub started: u64,
    pub finished: u64,
    pub cancelled: u64,
    /// Exports that ended early because a page could not be fetched.
    pub failed: u64,
    /// Export requests refused because the concurrency bound was reached.
    pub rejected: u64,
    /// Result pages fetched from the search executor, across all exports.
    pub pages: u64,
    pub rows: u64,
}

impl ExportStats {
    pub open spec fn zero() -> ExportStats {
        ExportStats {
            started: 0,
            finished: 0,
            cancelled: 0,
            failed: 0,
            rejected: 0,
            pages: 0,
            rows: 0,
        }
    }
}

impl Default for ExportStats {
    fn default() -> (r: ExportStats)
        ensures
            r == ExportStats::zero(),
    {
        ExportStats {
            started: 0,
            finished: 0,
            cancelled: 0,
            failed: 0,
            rejected: 0,
            pages: 0,
            rows: 0,
        }
    }
}

#[derive(Debug, Clone, Copy, PartialEq, Eq, Structural)]
pub enum ExportFormat {
    Csv,
    Json,
    Ndjson,
}

impl ExportFormat {
    pub fn content_type(self) -> (r: &'static str)
        ensures
            r@ == (match self {
                ExportFormat::Csv => "text/csv; charset=utf-8"@,
                ExportFormat::Json => "application/json; charset=utf-8"@,
                ExportFormat::Ndjson => "application/x-ndjson; charset=utf-8"@,
            }),
    {
        match self {
            ExportFormat::Csv => "text/csv; charset=utf-8",
            ExportFormat::Json => "application/json; charset=utf-8",
            ExportFormat::Ndjson => "application/x-ndjson; charset=utf-8",
        }
    }

    pub fn extension(self) -> (r: &'static str)
        ensures
            r@ == (match self {
                ExportFormat::Csv => "csv"@,
                ExportFormat::Json => "json"@,
                ExportFormat::Ndjson => "ndjson"@,
            }),
    {
        match self {
            ExportFormat::Csv => "csv",
            ExportFormat::Json => "json",
            ExportFormat::Ndjson => "ndjson",
        }
    }
}

impl Default for ExportFormat {
    fn default() -> (r: ExportFormat)
        ensures
            r == ExportFormat::Csv,
    {
        ExportFormat::Csv
    }
}

/// What a boolean flag of a query string says: `1`/`0` as well as
/// `true`/`false`, so query strings stay terse.
pub open spec fn flag_of(raw: Seq<char>) -> Option<bool> {
    let t = lower_all(trim(raw));
    if t == ""@ || t == "0"@ || t == "false"@ || t == "no"@ || t == "off"@ {
        Some(false)
    } else if t == "1"@ || t == "true"@ || t == "yes"@ || t == "on"@ {
        Some(true)
    } else {
        None
    }
}

/// A flag is read without regard to case and outer space: these words set it,
/// these clear it, and no other word is a flag.
pub proof fn law_a_flag_is_one_of_its_words(raw: Seq<char>)
    ensures
        ({
            let t = lower_all(trim(raw));
            &&& flag_of(raw) == Some(true) <==> t == "1"@ || t == "true"@ || t == "yes"@ || t
                == "on"@
            &&& flag_of(raw) == Some(false) <==> t.len() == 0 || t == "0"@ || t == "false"@ || t
                == "no"@ || t == "off"@
        }),
{
    reveal_strlit("");
    reveal_strlit("0");
    reveal_strlit("1");
    reveal_strlit("true");
    reveal_strlit("false");
    reveal_strlit("yes");
    reveal_strlit("no");
    reveal_strlit("on");
    reveal_strlit("off");
    let t = lower_all(trim(raw));
    assert("1"@[0] != "0"@[0]);
    assert("true"@.len() == 4 && "false"@.len() == 5);
    assert("on"@[0] != "no"@[0]);
    assert("yes"@[0] != "off"@[0]);
    if t.len() == 0 {
        assert(t =~= ""@);
    }
}

pub fn parse_flag(raw: &str) -> (r: Result<bool, String>)
    ensures
        match flag_of(raw@) {
            Some(b) => r == Ok::<bool, String>(b),
            None => r matches Err(e) && e@ == "expected a boolean flag, got `"@ + lower_all(
                trim(raw@),
            ) + "`"@,
        },
{
    let t = lowered(&trimmed(raw));
    if same(&t, "") || same(&t, "0") || same(&t, "false") || same(&t, "no") || same(&t, "off") {
        return Ok(false);
    }
    if same(&t, "1") || same(&t, "true") || same(&t, "yes") || same(&t, "on") {
        return Ok(true);
    }
    Err("expected a boolean flag, got `".to_owned().concat(&t).concat("`"))
}

/// The page size and the row cap of an export. A request may ask for fewer
/// rows, never more.
pub fn export_bounds(limits: ExportLimits, asked: Option<u64>) -> (r: (u32, u64))
    ensures
        r.0 == (if limits.page_size < 1 {
            1
        } else {
            limits.page_size
        }),
        r.1 == (match asked {
            Some(n) => if n < limits.max_rows {
                n
            } else {
                limits.max_rows
            },
            None => limits.max_rows,
        }),
{
    let page: u32 = if limits.page_size < 1 {
        1
    } else {
        limits.page_size
    };
    let rows: u64 = match asked {
        Some(n) => if n < limits.max_rows {
            n
        } else {
            limits.max_rows
        },
        None => limits.max_rows,
    };
    (page, rows)
}

/// How a request is refused while the bound of streaming exports is reached.
pub fn too_many_exports(concurrency: usize) -> (r: String)
    ensures
        r@ == decimal(concurrency as nat)
            + " exports are already streaming (the limit); retry when one finishes"@,
{
    let mut m = decimal_string(concurrency as u64);
    m.append(" exports are already streaming (the limit); retry when one finishes");
    m
}

// ----- file names -----------------------------------------------------------

pub open spec fn is_alphanumeric(c: char) -> bool {
    '0' <= c <= '9' || 'a' <= c <= 'z' || 'A' <= c <= 'Z'
}

/// The letters and digits of a text, up to its first full stop.
pub open spec fn compact(s: Seq<char>) -> Seq<char>
    decreases s.len(),
{
    if s.len() == 0 {
        Seq::empty()
    } else {
        let init = compact(s.drop_last());
        if s.drop_last().contains('.') || s.last() == '.' || !is_alphanumeric(s.last()) {
            init
        } else {
            init.push(s.last())
        }
    }
}

/// A stamp keeps the letters and digits before the first full stop, in order,
/// and nothing else.
pub proof fn law_a_stamp_keeps_letters_and_digits(s: Seq<char>)
    ensures
        exists|pick: Seq<int>|
            {
                &&& #[trigger] rising(pick)
                &&& picks(
                    pick,
                    s.len() as int,
                    |i: int|
                        ('0' <= s[i] <= '9' || 'a' <= s[i] <= 'z' || 'A' <= s[i] <= 'Z') && !s.take(
                            i + 1,
                        ).contains('.'),
                )
                &&& compact(s).len() == pick.len()
                &&& forall|a: int| 0 <= a < pick.len() ==> #[trigger] compact(s)[a] == s[pick[a]]
            },
    decreases s.len(),
{
    let kept = |i: int|
        ('0' <= s[i] <= '9' || 'a' <= s[i] <= 'z' || 'A' <= s[i] <= 'Z') && !s.take(i + 1).contains(
            '.',
        );
    if s.len() == 0 {
        lemma_picks_none(kept);
        assert(rising(Seq::<int>::empty()));
    } else {
        let t = s.drop_last();
        let n = t.len() as int;
        law_a_stamp_keeps_letters_and_digits(t);
        let before = choose|pick: Seq<int>|
            {
                &&& #[trigger] rising(pick)
                &&& picks(
                    pick,
                    t.len() as int,
                    |i: int|
                        ('0' <= t[i] <= '9' || 'a' <= t[i] <= 'z' || 'A' <= t[i] <= 'Z') && !t.take(
                            i + 1,
                        ).contains('.'),
                )
                &&& compact(t).len() == pick.len()
                &&& forall|a: int| 0 <= a < pick.len() ==> #[trigger] compact(t)[a] == t[pick[a]]
            };
        let old = |i: int|
            ('0' <= t[i] <= '9' || 'a' <= t[i] <= 'z' || 'A' <= t[i] <= 'Z') && !t.take(
                i + 1,
            ).contains('.');
        assert(picks(before, n, old));
        assert forall|i: int| 0 <= i < n implies #[trigger] s.take(i + 1) == t.take(i + 1) by {
            assert(s.take(i + 1) =~= t.take(i + 1));
        }
        assert(picks(before, n, kept)) by {
            assert forall|a: int| 0 <= a < before.len() implies 0 <= #[trigger] before[a] < n
                && kept(before[a]) by {
                assert(old(before[a]));
                assert(s.take(before[a] + 1) == t.take(before[a] + 1));
            }
            assert forall|i: int| 0 <= i < n && #[trigger] kept(i) implies before.contains(i) by {
                assert(s.take(i + 1) == t.take(i + 1));
                assert(old(i));
            }
        }
        lemma_picks_next(before, n, kept);
        assert(s.take(n + 1) =~= s);
        assert(s.contains('.') == (t.contains('.') || s.last() == '.')) by {
            if t.contains('.') {
                assert(s[t.index_of('.')] == '.');
            }
            if s.last() == '.' {
                assert(s[n] == '.');
            }
            if s.contains('.') {
                let k = s.index_of('.');
                if k < n {
                    assert(t[k] == '.');
                }
            }
        }
        let pick = if kept(n) {
            before.push(n)
        } else {
            before
        };
        assert(rising(pick));
    }
}

/// A time in RFC 3339 with a fraction, as part of a file name:
/// `20260823T014203Z`.
pub fn compact_stamp(rfc3339: &str) -> (r: String)
    ensures
        r@ == compact(rfc3339@) + "Z"@,
{
    let v = chars_of(rfc3339);
    let mut out = String::new();
    let mut dotted = false;
    let mut i: usize = 0;
    while i < v.len()
        invariant
            0 <= i <= v.len(),
            v@ == rfc3339@,
            out@ == compact(v@.take(i as int)),
            dotted == v@.take(i as int).contains('.'),
        decreases v.len() - i,
    {
        let c = v[i];
        let ghost before = v@.take(i as int);
        let ghost now = v@.take(i + 1);
        assert(now.drop_last() =~= before);
        proof {
            if before.contains('.') {
                let k = before.index_of('.');
                assert(now[k] == '.');
            }
            if c == '.' {
                assert(now[i as int] == '.');
            }
            if now.contains('.') {
                let k = now.index_of('.');
                if k < i {
                    assert(before[k] == '.');
                }
            }
        }
        let keep: bool = ('0' <= c && c <= '9') || ('a' <= c && c <= 'z') || ('A' <= c && c
            <= 'Z');
        if !dotted && c != '.' && keep {
            out.push(c);
        }
        if c == '.' {
            dotted = true;
        }
        i += 1;
    }
    assert(v@.take(i as int) =~= rfc3339@);
    out.append("Z");
    out
}

/// The name of the downloaded file.
pub fn export_filename(rfc3339: &str, format: ExportFormat) -> (r: String)
    ensures
        r@ == "eidos-export-"@ + (compact(rfc3339@) + "Z"@) + "."@ + (match format {
            ExportFormat::Csv => "csv"@,
            ExportFormat::Json => "json"@,
            ExportFormat::Ndjson => "ndjson"@,
        }),
{
    let stamp = compact_stamp(rfc3339);
    "eidos-export-".to_owned().concat(&stamp).concat(".").concat(format.extension())
}

// ----- rows -----------------------------------------------------------------

/// One exported result. Absent values are explicit rather than omitted, so
/// consumers can tell "unknown" from "not requested".
#[derive(Debug)]
pub struct ExportRow {
    pub object_id: i64,
    pub entry_id: Option<i64>,
    /// Source name (unique within a catalog).
    pub source: String,
    pub kind: String,
    pub name: String,
    pub path: Option<String>,
    pub extension: String,
    pub size: u64,
    pub allocated_size: u64,
    /// RFC 3339 UTC with the full nanosecond field.
    pub modified: Option<String>,
    pub created: Option<String>,
    pub content_state: String,
    pub hard_link_count: u32,
    /// The score as it is written.
    pub score: Option<String>,
}

/// The name that a source is exported under: its own, or its id where the
/// result set does not name it.
pub fn source_column(names: &SourceMap<String>, source: SourceId) -> (r: String)
    requires
        names.wf(),
    ensures
        r@ == (if names@.dom().contains(source.0) {
            names@[source.0]@
        } else {
            signed_decimal(source.0 as int)
        }),
{
    match names.get(source.0) {
        Some(n) => n.clone(),
        None => signed_string(source.0),
    }
}

pub open spec fn opt_cell(s: Option<String>) -> Seq<char> {
    match s {
        Some(v) => v@,
        None => Seq::empty(),
    }
}

/// The cells of a row, in column order.
pub open spec fn row_cells(r: ExportRow) -> Seq<Seq<char>> {
    seq![
        signed_decimal(r.object_id as int),
        match r.entry_id {
            Some(e) => signed_decimal(e as int),
            None => Seq::empty(),
        },
        r.source@,
        r.kind@,
        r.name@,
        opt_cell(r.path),
        r.extension@,
        decimal(r.size as nat),
        decimal(r.allocated_size as nat),
        opt_cell(r.modified),
        opt_cell(r.created),
        r.content_state@,
        decimal(r.hard_link_count as nat),
        opt_cell(r.score),
    ]
}

pub fn opt(s: &Option<String>) -> (r: String)
    ensures
        r@ == opt_cell(*s),
{
    match s {
        Some(v) => v.clone(),
        None => String::new(),
    }
}

fn cells(r: &ExportRow) -> (c: Vec<String>)
    ensures
        crate::key_list::texts(c@) == row_cells(*r),
{
    let mut c: Vec<String> = Vec::new();
    c.push(signed_string(r.object_id));
    c.push(
        match r.entry_id {
            Some(e) => signed_string(e),
            None => String::new(),
        },
    );
    c.push(r.source.clone());
    c.push(r.kind.clone());
    c.push(r.name.clone());
    c.push(opt(&r.path));
    c.push(r.extension.clone());
    c.push(decimal_string(r.size));
    c.push(decimal_string(r.allocated_size));
    c.push(opt(&r.modified));
    c.push(opt(&r.created));
    c.push(r.content_state.clone());
    c.push(decimal_string(r.hard_link_count as u64));
    c.push(opt(&r.score));
    assert(crate::key_list::texts(c@) =~= row_cells(*r));
    c
}

// ----- CSV ------------------------------------------------------------------

pub const QUOTE: u8 = 34;

pub const COMMA: u8 = 44;

pub const CR: u8 = 13;

pub const LF: u8 = 10;

/// Whether a field has to be quoted: it holds a delimiter, a quote, or a line
/// break.
pub open spec fn needs_quotes(s: Seq<u8>) -> bool {
    exists|i: int|
        0 <= i < s.len() && (#[trigger] s[i] == COMMA || s[i] == QUOTE || s[i] == CR || s[i] == LF)
}

/// `s` with every quote doubled.
pub open spec fn doubled(s: Seq<u8>) -> Seq<u8>
    decreases s.len(),
{
    if s.len() == 0 {
        Seq::empty()
    } else if s.last() == QUOTE {
        doubled(s.drop_last()).push(QUOTE).push(QUOTE)
    } else {
        doubled(s.drop_last()).push(s.last())
    }
}

/// RFC 4180: a field is quoted only when it has to be; an embedded quote is
/// escaped by doubling it.
pub open spec fn csv_bytes(s: Seq<u8>) -> Seq<u8> {
    if needs_quotes(s) {
        seq![QUOTE] + doubled(s) + seq![QUOTE]
    } else {
        s
    }
}

/// A field that holds no comma, quote or line break is written as it is; one that
/// holds any of them stands in quotes.
pub proof fn law_only_what_needs_quotes_is_quoted(s: Seq<u8>)
    ensures
        csv_bytes(s) == s <==> !s.contains(',' as u8) && !s.contains('"' as u8) && !s.contains(
            '\r' as u8,
        ) && !s.contains('\n' as u8),
        csv_bytes(s) != s ==> {
            &&& csv_bytes(s).len() >= s.len() + 2
            &&& csv_bytes(s).first() == '"' as u8
            &&& csv_bytes(s).last() == '"' as u8
        },
{
    lemma_doubled_is_no_shorter(s);
    if needs_quotes(s) {
        let i = choose|i: int|
            0 <= i < s.len() && (#[trigger] s[i] == COMMA || s[i] == QUOTE || s[i] == CR || s[i]
                == LF);
        assert(s.contains(s[i]));
    }
}

proof fn lemma_doubled_is_no_shorter(s: Seq<u8>)
    ensures
        doubled(s).len() >= s.len(),
    decreases s.len(),
{
    if s.len() > 0 {
        lemma_doubled_is_no_shorter(s.drop_last());
    }
}

fn append_bytes(out: &mut Vec<u8>, bytes: &[u8])
    ensures
        final(out)@ == old(out)@ + bytes@,
{
    let mut i: usize = 0;
    assert(old(out)@ + bytes@.take(0) =~= old(out)@);
    while i < bytes.len()
        invariant
            0 <= i <= bytes.len(),
            out@ == old(out)@ + bytes@.take(i as int),
        decreases bytes.len() - i,
    {
        out.push(bytes[i]);
        i += 1;
        assert(out@ =~= old(out)@ + bytes@.take(i as int));
    }
    assert(bytes@.take(i as int) =~= bytes@);
}

fn append_text(out: &mut Vec<u8>, s: &str)
    ensures
        final(out)@ == old(out)@ + encode_utf8(s@),
{
    append_bytes(out, s.as_bytes());
}

/// Append one CSV field.
pub fn csv_field(out: &mut Vec<u8>, s: &str)
    ensures
        final(out)@ == old(out)@ + csv_bytes(encode_utf8(s@)),
{
    let bytes = s.as_bytes();
    let mut quoted = false;
    let mut i: usize = 0;
    while i < bytes.len()
        invariant
            0 <= i <= bytes.len(),
            quoted == needs_quotes(bytes@.take(i as int)),
        decreases bytes.len() - i,
    {
        let b = bytes[i];
        let ghost before = bytes@.take(i as int);
        let ghost now = bytes@.take(i + 1);
        proof {
            if needs_quotes(before) {
                let k = choose|k: int|
                    0 <= k < before.len() && (#[trigger] before[k] == COMMA || before[k] == QUOTE
                        || before[k] == CR || before[k] == LF);
                assert(now[k] == before[k]);
            }
            assert(now[i as int] == b);
            if needs_quotes(now) {
                let k = choose|k: int|
                    0 <= k < now.len() && (#[trigger] now[k] == COMMA || now[k] == QUOTE || now[k]
                        == CR || now[k] == LF);
                if k < i {
                    assert(before[k] == now[k]);
                }
            }
        }
        if b == COMMA || b == QUOTE || b == CR || b == LF {
            quoted = true;
        }
        i += 1;
    }
    assert(bytes@.take(i as int) =~= bytes@);
    if !quoted {
        append_bytes(out, bytes);
        return ;
    }
    out.push(QUOTE);
    let ghost opened = out@;
    let mut k: usize = 0;
    assert(opened + doubled(bytes@.take(0)) =~= opened);
    while k < bytes.len()
        invariant
            0 <= k <= bytes.len(),
            opened == old(out)@.push(QUOTE),
            out@ == opened + doubled(bytes@.take(k as int)),
        decreases bytes.len() - k,
    {
        let b = bytes[k];
        assert(bytes@.take(k + 1).drop_last() =~= bytes@.take(k as int));
        if b == QUOTE {
            out.push(QUOTE);
        }
        out.push(b);
        k += 1;
        assert(out@ =~= opened + doubled(bytes@.take(k as int)));
    }
    assert(bytes@.take(k as int) =~= bytes@);
    out.push(QUOTE);
    assert(out@ =~= old(out)@ + csv_bytes(bytes@));
}

/// Fields separated by commas.
pub open spec fn csv_fields(cells: Seq<Seq<char>>) -> Seq<u8>
    decreases cells.len(),
{
    if cells.len() == 0 {
        Seq::empty()
    } else if cells.len() == 1 {
        csv_bytes(encode_utf8(cells[0]))
    } else {
        csv_fields(cells.drop_last()).push(COMMA) + csv_bytes(encode_utf8(cells.last()))
    }
}

/// One line: the fields and a line break.
pub open spec fn csv_line(cells: Seq<Seq<char>>) -> Seq<u8> {
    csv_fields(cells) + seq![CR, LF]
}

fn write_csv_line(out: &mut Vec<u8>, cells: &Vec<String>)
    ensures
        final(out)@ == old(out)@ + csv_line(crate::key_list::texts(cells@)),
{
    let ghost all = crate::key_list::texts(cells@);
    let mut i: usize = 0;
    assert(old(out)@ + csv_fields(all.take(0)) =~= old(out)@);
    while i < cells.len()
        invariant
            0 <= i <= cells.len(),
            all == crate::key_list::texts(cells@),
            out@ == old(out)@ + csv_fields(all.take(i as int)),
        decreases cells.len() - i,
    {
        assert(all.take(i + 1).drop_last() =~= all.take(i as int));
        assert(all.take(i + 1).last() == cells@[i as int]@);
        if i > 0 {
            out.push(COMMA);
        }
        csv_field(out, &cells[i]);
        i += 1;
        assert(out@ =~= old(out)@ + csv_fields(all.take(i as int)));
    }
    assert(all.take(i as int) =~= all);
    out.push(CR);
    out.push(LF);
    assert(out@ =~= old(out)@ + csv_line(all));
}

pub fn write_csv_row(out: &mut Vec<u8>, r: &ExportRow)
    ensures
        final(out)@ == old(out)@ + csv_line(row_cells(*r)),
{
    let c = cells(r);
    write_csv_line(out, &c);
}

// ----- laws of CSV ----------------------------------------------------------

proof fn lemma_doubled_last(s: Seq<u8>)
    requires
        s.len() > 0,
    ensures
        doubled(s).len() > 0,
        doubled(s).last() == s.last(),
{
}

proof fn lemma_doubled_injective(a: Seq<u8>, b: Seq<u8>)
    requires
        doubled(a) == doubled(b),
    ensures
        a == b,
    decreases a.len(),
{
    if a.len() == 0 {
        if b.len() > 0 {
            lemma_doubled_last(b);
        }
        assert(a =~= b);
    } else if b.len() == 0 {
        lemma_doubled_last(a);
    } else {
        lemma_doubled_last(a);
        lemma_doubled_last(b);
        let x = a.drop_last();
        let y = b.drop_last();
        if a.last() == QUOTE {
            assert(doubled(x) =~= doubled(a).drop_last().drop_last());
            assert(doubled(y) =~= doubled(b).drop_last().drop_last());
        } else {
            assert(doubled(x) =~= doubled(a).drop_last());
            assert(doubled(y) =~= doubled(b).drop_last());
        }
        lemma_doubled_injective(x, y);
        assert(a =~= x.push(a.last()));
        assert(b =~= y.push(b.last()));
    }
}

/// Quoting loses nothing: two fields that are written alike are alike.
pub proof fn law_quoting_loses_nothing(a: Seq<u8>, b: Seq<u8>)
    requires
        csv_bytes(a) == csv_bytes(b),
    ensures
        a == b,
{
    if needs_quotes(a) && needs_quotes(b) {
        let x = csv_bytes(a);
        let y = csv_bytes(b);
        assert(doubled(a) =~= x.subrange(1, x.len() - 1));
        assert(doubled(b) =~= y.subrange(1, y.len() - 1));
        lemma_doubled_injective(a, b);
    } else if needs_quotes(a) {
        assert(csv_bytes(a)[0] == QUOTE);
        assert(b[0] == QUOTE);
        assert(needs_quotes(b));
    } else if needs_quotes(b) {
        assert(csv_bytes(b)[0] == QUOTE);
        assert(a[0] == QUOTE);
        assert(needs_quotes(a));
    }
}

/// A field that needs no quotes is written byte for byte.
pub proof fn law_plain_fields_pass_through(s: Seq<u8>)
    requires
        !needs_quotes(s),
    ensures
        csv_bytes(s) == s,
{
}

// ----- envelopes ------------------------------------------------------------

/// `s` without one trailing brace.
pub open spec fn unclosed(s: Seq<char>) -> Seq<char> {
    if s.len() > 0 && s.last() == '}' {
        s.drop_last()
    } else {
        s
    }
}

/// `s` without one leading brace.
pub open spec fn unopened(s: Seq<char>) -> Seq<char> {
    if s.len() > 0 && s[0] == '{' {
        s.subrange(1, s.len() as int)
    } else {
        s
    }
}

pub open spec fn column_cells() -> Seq<Seq<char>> {
    Seq::new(COLUMN_COUNT as nat, |i: int| column_name(i))
}

/// The header names fourteen columns, each once.
pub proof fn law_columns_are_distinct(i: int, j: int)
    requires
        0 <= i < COLUMN_COUNT,
        0 <= j < COLUMN_COUNT,
        i != j,
    ensures
        column_cells().len() == 14,
        column_cells()[i] != column_cells()[j],
{
    reveal_strlit("object_id");
    reveal_strlit("entry_id");
    reveal_strlit("source");
    reveal_strlit("kind");
    reveal_strlit("name");
    reveal_strlit("path");
    reveal_strlit("extension");
    reveal_strlit("size");
    reveal_strlit("allocated_size");
    reveal_strlit("modified");
    reveal_strlit("created");
    reveal_strlit("content_state");
    reveal_strlit("hard_link_count");
    reveal_strlit("score");
    let a = column_name(i);
    let b = column_name(j);
    if a.len() == b.len() {
        assert(a[0] != b[0] || a[a.len() - 1] != b[b.len() - 1]);
    }
}

/// Each cell of a row stands under its column: where the header names a column,
/// the row has its field of that name, and a value that is absent is empty.
pub proof fn law_cells_stand_under_their_columns(r: ExportRow, i: int)
    requires
        0 <= i < column_cells().len(),
    ensures
        row_cells(r).len() == column_cells().len(),
        column_cells()[i] == "object_id"@ ==> row_cells(r)[i] == signed_decimal(r.object_id as int),
        column_cells()[i] == "entry_id"@ ==> row_cells(r)[i] == (match r.entry_id {
                Some(e) => signed_decimal(e as int),
                None => Seq::empty(),
            }),
        column_cells()[i] == "source"@ ==> row_cells(r)[i] == r.source@,
        column_cells()[i] == "kind"@ ==> row_cells(r)[i] == r.kind@,
        column_cells()[i] == "name"@ ==> row_cells(r)[i] == r.name@,
        column_cells()[i] == "path"@ ==> row_cells(r)[i] == (match r.path {
                Some(s) => s@,
                None => Seq::empty(),
            }),
        column_cells()[i] == "extension"@ ==> row_cells(r)[i] == r.extension@,
        column_cells()[i] == "size"@ ==> row_cells(r)[i] == decimal(r.size as nat),
        column_cells()[i] == "allocated_size"@ ==> row_cells(r)[i] == decimal(r.allocated_size as nat),
        column_cells()[i] == "modified"@ ==> row_cells(r)[i] == (match r.modified {
                Some(s) => s@,
                None => Seq::empty(),
            }),
        column_cells()[i] == "created"@ ==> row_cells(r)[i] == (match r.created {
                Some(s) => s@,
                None => Seq::empty(),
            }),
        column_cells()[i] == "content_state"@ ==> row_cells(r)[i] == r.content_state@,
        column_cells()[i] == "hard_link_count"@ ==> row_cells(r)[i] == decimal(r.hard_link_count as nat),
        column_cells()[i] == "score"@ ==> row_cells(r)[i] == (match r.score {
                Some(s) => s@,
                None => Seq::empty(),
            }),
{
    assert forall|p: int| 0 <= p < COLUMN_COUNT && p != i implies column_cells()[i]
        != #[trigger] column_cells()[p] by {
        law_columns_are_distinct(i, p);
    }
    assert(column_cells()[0] == "object_id"@);
    assert(column_cells()[1] == "entry_id"@);
    assert(column_cells()[2] == "source"@);
    assert(column_cells()[3] == "kind"@);
    assert(column_cells()[4] == "name"@);
    assert(column_cells()[5] == "path"@);
    assert(column_cells()[6] == "extension"@);
    assert(column_cells()[7] == "size"@);
    assert(column_cells()[8] == "allocated_size"@);
    assert(column_cells()[9] == "modified"@);
    assert(column_cells()[10] == "created"@);
    assert(column_cells()[11] == "content_state"@);
    assert(column_cells()[12] == "hard_link_count"@);
    assert(column_cells()[13] == "score"@);
}

// ----- reading CSV ----------------------------------------------------------

/// Where a reader of RFC 4180 stands in a field.
pub enum CsvMode {
    Plain,
    Quoted,
    /// A quote inside a quoted field: its end, unless another follows.
    Closing,
}

/// A reader of RFC 4180 in the middle of a line.
pub struct CsvReader {
    pub done: Seq<Seq<u8>>,
    pub field: Seq<u8>,
    pub mode: CsvMode,
}

impl CsvReader {
    pub open spec fn at_field(done: Seq<Seq<u8>>) -> CsvReader {
        CsvReader { done, field: Seq::empty(), mode: CsvMode::Plain }
    }

    /// The fields read so far, with the current one.
    pub open spec fn fields(self) -> Seq<Seq<u8>> {
        self.done.push(self.field)
    }

    pub open spec fn step(self, b: u8) -> CsvReader {
        match self.mode {
            CsvMode::Quoted => if b == QUOTE {
                CsvReader { mode: CsvMode::Closing, ..self }
            } else {
                CsvReader { field: self.field.push(b), ..self }
            },
            CsvMode::Closing => if b == QUOTE {
                CsvReader { field: self.field.push(b), mode: CsvMode::Quoted, ..self }
            } else if b == COMMA {
                CsvReader::at_field(self.done.push(self.field))
            } else {
                CsvReader { field: self.field.push(b), mode: CsvMode::Plain, ..self }
            },
            CsvMode::Plain => if b == COMMA {
                CsvReader::at_field(self.done.push(self.field))
            } else if b == QUOTE && self.field.len() == 0 {
                CsvReader { mode: CsvMode::Quoted, ..self }
            } else {
                CsvReader { field: self.field.push(b), ..self }
            },
        }
    }

    pub open spec fn read(self, bytes: Seq<u8>) -> CsvReader
        decreases bytes.len(),
    {
        if bytes.len() == 0 {
            self
        } else {
            self.read(bytes.drop_last()).step(bytes.last())
        }
    }
}

proof fn lemma_read_both(r: CsvReader, a: Seq<u8>, b: Seq<u8>)
    ensures
        r.read(a + b) == r.read(a).read(b),
    decreases b.len(),
{
    if b.len() == 0 {
        assert(a + b =~= a);
    } else {
        assert((a + b).drop_last() =~= a + b.drop_last());
        lemma_read_both(r, a, b.drop_last());
    }
}

proof fn lemma_read_plain(done: Seq<Seq<u8>>, s: Seq<u8>)
    requires
        !needs_quotes(s),
    ensures
        CsvReader::at_field(done).read(s) == (CsvReader { done, field: s, mode: CsvMode::Plain }),
    decreases s.len(),
{
    if s.len() == 0 {
        assert(s =~= Seq::empty());
    } else {
        let t = s.drop_last();
        assert(s[s.len() - 1] == s.last());
        assert(!needs_quotes(t)) by {
            if needs_quotes(t) {
                let k = choose|k: int|
                    0 <= k < t.len() && (#[trigger] t[k] == COMMA || t[k] == QUOTE || t[k] == CR
                        || t[k] == LF);
                assert(s[k] == t[k]);
            }
        }
        lemma_read_plain(done, t);
        assert(t.push(s.last()) =~= s);
    }
}

proof fn lemma_read_doubled(done: Seq<Seq<u8>>, s: Seq<u8>)
    ensures
        (CsvReader { done, field: Seq::empty(), mode: CsvMode::Quoted }).read(doubled(s)) == (
        CsvReader { done, field: s, mode: CsvMode::Quoted }),
    decreases s.len(),
{
    let r = CsvReader { done, field: Seq::empty(), mode: CsvMode::Quoted };
    if s.len() == 0 {
        assert(s =~= Seq::empty());
    } else {
        let t = s.drop_last();
        lemma_read_doubled(done, t);
        assert(t.push(s.last()) =~= s);
        let d = doubled(s);
        if s.last() == QUOTE {
            assert(d.drop_last() =~= doubled(t).push(QUOTE));
            assert(d.drop_last().drop_last() =~= doubled(t));
            assert(r.read(d.drop_last()) == r.read(doubled(t)).step(QUOTE));
        } else {
            assert(d.drop_last() =~= doubled(t));
        }
    }
}

proof fn lemma_read_field(done: Seq<Seq<u8>>, s: Seq<u8>)
    ensures
        ({
            let r = CsvReader::at_field(done).read(csv_bytes(s));
            r.done == done && r.field == s && !(r.mode is Quoted)
        }),
{
    if needs_quotes(s) {
        let start = CsvReader::at_field(done);
        let open = seq![QUOTE];
        lemma_read_both(start, open + doubled(s), seq![QUOTE]);
        lemma_read_both(start, open, doubled(s));
        lemma_read_doubled(done, s);
        assert(open.drop_last() =~= Seq::<u8>::empty());
        assert(start.read(open) == start.read(open.drop_last()).step(QUOTE));
        let r = start.read(open + doubled(s));
        assert(r.read(open) == r.read(open.drop_last()).step(QUOTE));
    } else {
        lemma_read_plain(done, s);
    }
}

/// A row reads back: whoever reads the line as RFC 4180 has it finds the cells
/// that were written, in order and whole, whatever they hold.
pub proof fn law_a_csv_row_reads_back(cells: Seq<Seq<char>>)
    requires
        cells.len() > 0,
    ensures
        ({
            let r = CsvReader::at_field(Seq::empty()).read(csv_fields(cells));
            &&& r.fields() == Seq::new(cells.len(), |i: int| encode_utf8(cells[i]))
            &&& !(r.mode is Quoted)
            &&& csv_line(cells) == csv_fields(cells).push(CR).push(LF)
        }),
    decreases cells.len(),
{
    let start = CsvReader::at_field(Seq::empty());
    let want = Seq::new(cells.len(), |i: int| encode_utf8(cells[i]));
    assert(csv_line(cells) =~= csv_fields(cells).push(CR).push(LF));
    if cells.len() == 1 {
        lemma_read_field(Seq::empty(), encode_utf8(cells[0]));
        assert(start.read(csv_fields(cells)).fields() =~= want);
    } else {
        let init = cells.drop_last();
        let last = encode_utf8(cells.last());
        law_a_csv_row_reads_back(init);
        let r = start.read(csv_fields(init));
        let comma = csv_fields(init).push(COMMA);
        assert(comma.drop_last() =~= csv_fields(init));
        assert(start.read(comma) == r.step(COMMA));
        assert(r.step(COMMA) == CsvReader::at_field(r.fields()));
        lemma_read_both(start, comma, csv_bytes(last));
        lemma_read_field(r.fields(), last);
        assert(start.read(csv_fields(cells)).fields() =~= want);
    }
}

/// What an export begins with. The JSON envelope is left open so that the rows
/// can stream into it.
pub open spec fn header_bytes(format: ExportFormat, head: Seq<char>) -> Seq<u8> {
    match format {
        ExportFormat::Csv => csv_line(column_cells()),
        ExportFormat::Json => encode_utf8(unclosed(head)) + encode_utf8(",\"rows\":["@),
        ExportFormat::Ndjson => encode_utf8(head) + seq![LF],
    }
}

/// What a row adds.
pub open spec fn row_bytes(format: ExportFormat, row: ExportRow, json: Seq<char>, index: u64) -> Seq<u8> {
    match format {
        ExportFormat::Csv => csv_line(row_cells(row)),
        ExportFormat::Json => if index > 0 {
            seq![COMMA] + encode_utf8(json)
        } else {
            encode_utf8(json)
        },
        ExportFormat::Ndjson => encode_utf8(json) + seq![LF],
    }
}

/// How many rows of a page an export still writes.
pub open spec fn page_take(max_rows: u64, emitted: u64, hits: nat) -> int {
    if hits <= max_rows - emitted {
        hits as int
    } else {
        max_rows - emitted
    }
}

/// What the rows of a page add; the first has index `start`.
pub open spec fn page_bytes(
    format: ExportFormat,
    rows: Seq<ExportRow>,
    json: Seq<String>,
    start: u64,
) -> Seq<u8>
    decreases rows.len(),
{
    if rows.len() == 0 {
        Seq::empty()
    } else {
        page_bytes(format, rows.drop_last(), json.drop_last(), start) + row_bytes(
            format,
            rows.last(),
            json.last()@,
            (start + rows.len() - 1) as u64,
        )
    }
}

/// JSON rows are separated by one comma each and none stands before the first
/// or behind the last; NDJSON rows end in a line feed each.
pub proof fn law_rows_are_separated(rows: Seq<ExportRow>, json: Seq<String>, row: ExportRow, next: String)
    requires
        rows.len() == json.len(),
        rows.len() < u64::MAX,
    ensures
        page_bytes(ExportFormat::Json, rows.push(row), json.push(next), 0) == page_bytes(
            ExportFormat::Json,
            rows,
            json,
            0,
        ) + (if rows.len() == 0 {
            Seq::empty()
        } else {
            seq![COMMA]
        }) + encode_utf8(next@),
        page_bytes(ExportFormat::Ndjson, rows.push(row), json.push(next), 0) == page_bytes(
            ExportFormat::Ndjson,
            rows,
            json,
            0,
        ) + encode_utf8(next@).push(LF),
{
    let r = rows.push(row);
    let j = json.push(next);
    assert(r.drop_last() =~= rows);
    assert(j.drop_last() =~= json);
    let before = page_bytes(ExportFormat::Json, rows, json, 0);
    assert(page_bytes(ExportFormat::Json, r, j, 0) == before + row_bytes(
        ExportFormat::Json,
        row,
        next@,
        rows.len() as u64,
    ));
    if rows.len() == 0 {
        assert(before + encode_utf8(next@) =~= before + Seq::<u8>::empty() + encode_utf8(next@));
    } else {
        assert(before + (seq![COMMA] + encode_utf8(next@)) =~= before + seq![COMMA] + encode_utf8(
            next@,
        ));
    }
    assert(encode_utf8(next@) + seq![LF] =~= encode_utf8(next@).push(LF));
}

/// What an export ends with: nothing for CSV; otherwise the summary, merged
/// into the open JSON envelope or as a line of its own.
pub open spec fn footer_bytes(format: ExportFormat, tail: Seq<char>) -> Seq<u8> {
    match format {
        ExportFormat::Csv => Seq::empty(),
        ExportFormat::Json => encode_utf8("],"@) + encode_utf8(unopened(tail)) + seq![LF],
        ExportFormat::Ndjson => encode_utf8(tail) + seq![LF],
    }
}

/// The UTF-8 byte order mark, which a CSV export may begin with.
pub open spec fn bom_bytes(format: ExportFormat, bom: bool) -> Seq<u8> {
    if bom && format == ExportFormat::Csv {
        seq![0xEFu8, 0xBBu8, 0xBFu8]
    } else {
        Seq::empty()
    }
}

/// Only a CSV export begins with a byte order mark, and only if asked to.
pub proof fn law_only_csv_has_a_byte_order_mark(format: ExportFormat, bom: bool)
    ensures
        bom_bytes(format, bom).len() == (if bom && format == ExportFormat::Csv {
            3int
        } else {
            0int
        }),
        bom && format == ExportFormat::Csv ==> bom_bytes(format, bom)[0] == 0xEF && bom_bytes(
            format,
            bom,
        )[1] == 0xBB && bom_bytes(format, bom)[2] == 0xBF,
{
}

/// A JSON export is one object: what its envelope and its summary hold, with the
/// rows between them under their own key.
pub proof fn law_a_json_export_is_one_object(head: Seq<char>, tail: Seq<char>, rows: Seq<u8>)
    ensures
        header_bytes(ExportFormat::Json, seq!['{'] + head + seq!['}']) + rows + footer_bytes(
            ExportFormat::Json,
            seq!['{'] + tail + seq!['}'],
        ) == encode_utf8(seq!['{'] + head) + encode_utf8(",\"rows\":["@) + rows + encode_utf8("],"@)
            + encode_utf8(tail + seq!['}']) + seq![LF],
        header_bytes(ExportFormat::Ndjson, head) == encode_utf8(head).push(LF),
        footer_bytes(ExportFormat::Ndjson, tail) == encode_utf8(tail).push(LF),
        footer_bytes(ExportFormat::Csv, tail) == Seq::<u8>::empty(),
        header_bytes(ExportFormat::Csv, head) == csv_line(column_cells()),
{
    let h = seq!['{'] + head + seq!['}'];
    let t = seq!['{'] + tail + seq!['}'];
    assert(unclosed(h) =~= seq!['{'] + head);
    assert(unopened(t) =~= tail + seq!['}']);
    let a = encode_utf8(seq!['{'] + head);
    let b = encode_utf8(",\"rows\":["@);
    let c = encode_utf8("],"@);
    let d = encode_utf8(tail + seq!['}']);
    assert((a + b) + rows + ((c + d) + seq![LF]) =~= a + b + rows + c + d + seq![LF]);
    assert(encode_utf8(head) + seq![LF] =~= encode_utf8(head).push(LF));
    assert(encode_utf8(tail) + seq![LF] =~= encode_utf8(tail).push(LF));
}

pub fn write_bom(out: &mut Vec<u8>, format: ExportFormat, bom: bool)
    ensures
        final(out)@ == old(out)@ + bom_bytes(format, bom),
{
    if bom && format == ExportFormat::Csv {
        out.push(0xEF);
        out.push(0xBB);
        out.push(0xBF);
    }
    assert(out@ =~= old(out)@ + bom_bytes(format, bom));
}

/// Begin an export; `head` is the envelope as a JSON object.
pub fn write_header(out: &mut Vec<u8>, format: ExportFormat, head: &str)
    ensures
        final(out)@ == old(out)@ + header_bytes(format, head@),
{
    match format {
        ExportFormat::Csv => {
            let names = columns();
            let mut c: Vec<String> = Vec::new();
            let mut i: usize = 0;
            while i < names.len()
                invariant
                    0 <= i <= names.len() == COLUMN_COUNT,
                    c.len() == i,
                    forall|k: int|
                        0 <= k < COLUMN_COUNT ==> (#[trigger] names@[k])@ == column_name(k),
                    forall|k: int| 0 <= k < i ==> (#[trigger] c@[k])@ == column_name(k),
                decreases names.len() - i,
            {
                c.push(names[i].to_owned());
                i += 1;
            }
            assert(crate::key_list::texts(c@) =~= column_cells());
            write_csv_line(out, &c);
        },
        ExportFormat::Json => {
            let v = chars_of(head);
            let n: usize = if v.len() > 0 && v[v.len() - 1] == '}' {
                v.len() - 1
            } else {
                v.len()
            };
            let open = string_of(&v, 0, n);
            assert(v@.subrange(0, n as int) =~= unclosed(head@));
            append_text(out, &open);
            append_text(out, ",\"rows\":[");
            assert(out@ =~= old(out)@ + header_bytes(format, head@));
        },
        ExportFormat::Ndjson => {
            append_text(out, head);
            out.push(LF);
            assert(out@ =~= old(out)@ + header_bytes(format, head@));
        },
    }
}

/// Append one row; `json` is the same row as a JSON object.
pub fn write_row(out: &mut Vec<u8>, format: ExportFormat, row: &ExportRow, json: &str, index: u64)
    ensures
        final(out)@ == old(out)@ + row_bytes(format, *row, json@, index),
{
    match format {
        ExportFormat::Csv => write_csv_row(out, row),
        ExportFormat::Json => {
            if index > 0 {
                out.push(COMMA);
            }
            append_text(out, json);
            assert(out@ =~= old(out)@ + row_bytes(format, *row, json@, index));
        },
        ExportFormat::Ndjson => {
            append_text(out, json);
            out.push(LF);
            assert(out@ =~= old(out)@ + row_bytes(format, *row, json@, index));
        },
    }
}

/// End an export; `tail` is the summary as a JSON object.
pub fn write_footer(out: &mut Vec<u8>, format: ExportFormat, tail: &str)
    ensures
        final(out)@ == old(out)@ + footer_bytes(format, tail@),
{
    match format {
        ExportFormat::Csv => {
            assert(out@ =~= old(out)@ + footer_bytes(format, tail@));
        },
        ExportFormat::Json => {
            let v = chars_of(tail);
            let start: usize = if v.len() > 0 && v[0] == '{' {
                1
            } else {
                0
            };
            let rest = string_of(&v, start, v.len());
            assert(v@.subrange(start as int, v@.len() as int) =~= unopened(tail@));
            append_text(out, "],");
            append_text(out, &rest);
            out.push(LF);
            assert(out@ =~= old(out)@ + footer_bytes(format, tail@));
        },
        ExportFormat::Ndjson => {
            append_text(out, tail);
            out.push(LF);
            assert(out@ =~= old(out)@ + footer_bytes(format, tail@));
        },
    }
}

// ----- the walk -------------------------------------------------------------

/// What the walk does next.
#[derive(Debug, Clone, Copy, PartialEq, Eq, Structural)]
pub enum WalkStep {
    /// Fetch the page behind the cursor.
    Fetch,
    /// Write the footer and end.
    Finish,
    /// The client is gone: end without a footer.
    Cancelled,
}

/// A page that was asked for.
#[derive(Debug)]
pub enum Fetched {
    Page,
    Empty,
    Failed(String),
}

/// The state of one export.
#[derive(Debug)]
pub struct ExportWalk {
    pub max_rows: u64,
    pub emitted: u64,
    pub truncated: bool,
    pub error: Option<String>,
    /// The current page holds more rows than the cap allows.
    pub hit_cap: bool,
}

impl ExportWalk {
    pub fn new(max_rows: u64) -> (r: ExportWalk)
        ensures
            r.max_rows == max_rows,
            r.emitted == 0,
            !r.truncated,
            r.error is None,
            !r.hit_cap,
    {
        ExportWalk { max_rows, emitted: 0, truncated: false, error: None, hit_cap: false }
    }

    /// A page of `hits` rows is there. Says how many of them are written: as
    /// many as the cap allows.
    pub fn take_page(&mut self, hits: u64) -> (take: u64)
        requires
            old(self).emitted <= old(self).max_rows,
        ensures
            take == page_take(old(self).max_rows, old(self).emitted, hits as nat),
            *final(self) == (ExportWalk {
                emitted: (old(self).emitted + take) as u64,
                hit_cap: take < hits,
                ..*old(self)
            }),
            final(self).emitted <= final(self).max_rows,
    {
        let left: u64 = self.max_rows - self.emitted;
        let take: u64 = if hits <= left {
            hits
        } else {
            left
        };
        self.emitted = self.emitted + take;
        self.hit_cap = take < hits;
        take
    }

    /// Write the rows of a page as far as the cap allows. `json` holds each
    /// row as a JSON object.
    pub fn write_page(
        &mut self,
        out: &mut Vec<u8>,
        format: ExportFormat,
        rows: &Vec<ExportRow>,
        json: &Vec<String>,
    )
        requires
            old(self).emitted <= old(self).max_rows,
            json.len() == rows.len(),
        ensures
            ({
                let take = page_take(old(self).max_rows, old(self).emitted, rows@.len());
                &&& final(out)@ == old(out)@ + page_bytes(
                    format,
                    rows@.take(take),
                    json@.take(take),
                    old(self).emitted,
                )
                &&& *final(self) == (ExportWalk {
                    emitted: (old(self).emitted + take) as u64,
                    hit_cap: take < rows@.len(),
                    ..*old(self)
                })
            }),
            final(self).emitted <= final(self).max_rows,
    {
        let start: u64 = self.emitted;
        let take = self.take_page(rows.len() as u64) as usize;
        let mut i: usize = 0;
        assert(old(out)@ + page_bytes(format, rows@.take(0), json@.take(0), start) =~= old(out)@);
        while i < take
            invariant
                0 <= i <= take <= rows.len() == json.len(),
                start + take <= u64::MAX,
                out@ == old(out)@ + page_bytes(
                    format,
                    rows@.take(i as int),
                    json@.take(i as int),
                    start,
                ),
            decreases take - i,
        {
            assert(rows@.take(i + 1).drop_last() =~= rows@.take(i as int));
            assert(json@.take(i + 1).drop_last() =~= json@.take(i as int));
            write_row(out, format, &rows[i], &json[i], start + i as u64);
            i += 1;
            assert(out@ =~= old(out)@ + page_bytes(
                format,
                rows@.take(i as int),
                json@.take(i as int),
                start,
            ));
        }
    }

    /// The page was handed to the client, or the client is gone. The export is
    /// truncated if rows were left out, or could have been.
    pub fn page_sent(&mut self, sent: bool, more: bool) -> (r: WalkStep)
        ensures
            r == walk_step(*old(self), sent, more),
            *final(self) == walked(*old(self), sent, more),
    {
        if !sent {
            return WalkStep::Cancelled;
        }
        if self.hit_cap {
            self.truncated = true;
            return WalkStep::Finish;
        }
        if self.emitted >= self.max_rows {
            self.truncated = more;
            return WalkStep::Finish;
        }
        if !more {
            return WalkStep::Finish;
        }
        WalkStep::Fetch
    }

    /// The next page was fetched. A page that cannot be fetched ends the
    /// export early, and truncates it. Says whether there are rows to take.
    pub fn page_fetched(&mut self, fetched: Fetched) -> (more_rows: bool)
        ensures
            match fetched {
                Fetched::Page => more_rows && *final(self) == *old(self),
                Fetched::Empty => !more_rows && *final(self) == *old(self),
                Fetched::Failed(e) => !more_rows && *final(self) == (ExportWalk {
                    error: Some(e),
                    truncated: true,
                    ..*old(self)
                }),
            },
    {
        match fetched {
            Fetched::Page => true,
            Fetched::Empty => false,
            Fetched::Failed(e) => {
                self.error = Some(e);
                self.truncated = true;
                false
            },
        }
    }

    /// How a body that ended early fails: ending it cleanly would hand a CSV
    /// consumer, which has no envelope to read, a short file that looks
    /// complete.
    pub fn abort_message(&self) -> (r: Option<String>)
        ensures
            match self.error {
                Some(e) => r is Some && r->0@ == "export ended early: "@ + e@,
                None => r is None,
            },
    {
        match &self.error {
            Some(e) => Some("export ended early: ".to_owned().concat(e)),
            None => None,
        }
    }

    /// Account for the end of an export: `cancelled` says that the client left
    /// before the last page, `footer_sent` that the footer reached it.
    pub fn account(&self, stats: &mut ExportStats, cancelled: bool, footer_sent: bool)
        ensures
            *final(stats) == ended(*old(stats), *self, cancelled, footer_sent),
    {
        stats.rows = stats.rows.wrapping_add(self.emitted);
        if cancelled {
            stats.cancelled = stats.cancelled.wrapping_add(1);
        } else if self.error.is_some() {
            stats.failed = stats.failed.wrapping_add(1);
        } else if footer_sent {
            stats.finished = stats.finished.wrapping_add(1);
        } else {
            stats.cancelled = stats.cancelled.wrapping_add(1);
        }
    }
}

/// What a walk does once a page was handed over.
pub open spec fn walk_step(w: ExportWalk, sent: bool, more: bool) -> WalkStep {
    if !sent {
        WalkStep::Cancelled
    } else if w.hit_cap || w.emitted >= w.max_rows || !more {
        WalkStep::Finish
    } else {
        WalkStep::Fetch
    }
}

/// A walk once a page was handed over.
pub open spec fn walked(w: ExportWalk, sent: bool, more: bool) -> ExportWalk {
    if sent && (w.hit_cap || (w.emitted >= w.max_rows && more)) {
        ExportWalk { truncated: true, ..w }
    } else if sent && w.emitted >= w.max_rows {
        ExportWalk { truncated: false, ..w }
    } else {
        w
    }
}

/// An export that finishes says that it is truncated exactly if rows are left
/// out: of the last page, or behind it. It goes on exactly while rows may follow
/// and the cap allows another.
pub proof fn law_a_finished_export_says_what_is_missing(w: ExportWalk, sent: bool, more: bool)
    requires
        !w.truncated,
    ensures
        !sent <==> walk_step(w, sent, more) == WalkStep::Cancelled,
        walk_step(w, sent, more) == WalkStep::Finish ==> (walked(w, sent, more).truncated
            <==> w.hit_cap || more),
        walk_step(w, sent, more) == WalkStep::Fetch ==> sent && more && !w.hit_cap && w.emitted
            < w.max_rows && walked(w, sent, more) == w,
        sent && more && !w.hit_cap && w.emitted < w.max_rows ==> walk_step(w, sent, more)
            == WalkStep::Fetch,
        walked(w, sent, more).emitted == w.emitted && walked(w, sent, more).error == w.error,
{
}

/// Every export is accounted for exactly once: as cancelled if the client left,
/// else as failed if a page could not be fetched, else as finished; its rows
/// count either way.
pub proof fn law_an_export_ends_once(s: ExportStats, w: ExportWalk, cancelled: bool, footer_sent: bool)
    requires
        s.rows + w.emitted <= u64::MAX,
        s.cancelled < u64::MAX,
        s.failed < u64::MAX,
        s.finished < u64::MAX,
    ensures
        ({
            let t = ended(s, w, cancelled, footer_sent);
            &&& t.rows == s.rows + w.emitted
            &&& t.cancelled + t.failed + t.finished == s.cancelled + s.failed + s.finished + 1
            &&& t.finished > s.finished <==> !cancelled && w.error is None && footer_sent
            &&& t.failed > s.failed <==> !cancelled && w.error is Some
            &&& t.started == s.started && t.rejected == s.rejected && t.pages == s.pages
        }),
{
}

/// The counters after an export: its rows, and one of finished, failed and
/// cancelled.
pub open spec fn ended(s: ExportStats, w: ExportWalk, cancelled: bool, footer_sent: bool) -> ExportStats {
    let counted = ExportStats { rows: wrapped(s.rows + w.emitted), ..s };
    if cancelled || (w.error is None && !footer_sent) {
        ExportStats { cancelled: wrapped(s.cancelled + 1), ..counted }
    } else if w.error is Some {
        ExportStats { failed: wrapped(s.failed + 1), ..counted }
    } else {
        ExportStats { finished: wrapped(s.finished + 1), ..counted }
    }
}

/// The rows that pages of these sizes hold.
pub open spec fn total(pages: Seq<nat>) -> nat
    decreases pages.len(),
{
    if pages.len() == 0 {
        0
    } else {
        total(pages.drop_last()) + pages.last()
    }
}

/// The rows that an export wrote of pages of these sizes.
pub open spec fn written_of(max_rows: u64, pages: Seq<nat>) -> int
    decreases pages.len(),
{
    if pages.len() == 0 {
        0
    } else {
        let before = written_of(max_rows, pages.drop_last());
        before + page_take(max_rows, before as u64, pages.last())
    }
}

/// An export writes every row up to its cap and never more, however the pages
/// fall.
pub proof fn law_the_cap_holds(max_rows: u64, pages: Seq<nat>)
    ensures
        written_of(max_rows, pages) == (if total(pages) <= max_rows {
            total(pages) as int
        } else {
            max_rows as int
        }),
    decreases pages.len(),
{
    if pages.len() > 0 {
        law_the_cap_holds(max_rows, pages.drop_last());
    }
}

/// Where one page ends and the next begins does not show: two pages written
/// one after the other are the bytes of one page that holds the rows of both.
pub proof fn law_pages_do_not_show(
    format: ExportFormat,
    first: Seq<ExportRow>,
    second: Seq<ExportRow>,
    first_json: Seq<String>,
    second_json: Seq<String>,
    start: u64,
)
    requires
        first.len() == first_json.len(),
        second.len() == second_json.len(),
        start + first.len() + second.len() <= u64::MAX,
    ensures
        page_bytes(format, first + second, first_json + second_json, start) == page_bytes(
            format,
            first,
            first_json,
            start,
        ) + page_bytes(format, second, second_json, (start + first.len()) as u64),
    decreases second.len(),
{
    let next = (start + first.len()) as u64;
    if second.len() == 0 {
        assert(first + second =~= first);
        assert(first_json + second_json =~= first_json);
        assert(page_bytes(format, second, second_json, next) =~= Seq::empty());
        assert(page_bytes(format, first, first_json, start) + Seq::<u8>::empty() =~= page_bytes(
            format,
            first,
            first_json,
            start,
        ));
    } else {
        let rows = first + second;
        let json = first_json + second_json;
        assert(rows.drop_last() =~= first + second.drop_last());
        assert(json.drop_last() =~= first_json + second_json.drop_last());
        assert(rows.last() == second.last());
        assert(json.last() == second_json.last());
        law_pages_do_not_show(
            format,
            first,
            second.drop_last(),
            first_json,
            second_json.drop_last(),
            start,
        );
        let row = row_bytes(
            format,
            second.last(),
            second_json.last()@,
            (next + second.len() - 1) as u64,
        );
        let head = page_bytes(format, first, first_json, start);
        let tail = page_bytes(format, second.drop_last(), second_json.drop_last(), next);
        assert((head + tail) + row =~= head + (tail + row));
    }
}

} // verus!
