//! Stored-text preview: the text around one chunk of one object.
//!
//! The catalog is the extraction cache: every chunk's decoded text is stored
//! with its exact byte and line ranges. A preview serves *that* copy — never
//! the source file — so it cannot leak bytes the indexer never read, cannot be
//! addressed by filesystem path, and keeps working after the file moves or
//! disappears.
//!
//! - Address: object id + content generation + chunk ordinal, plus up to
//!   [`MAX_NEIGHBORS`] neighbouring chunks per side.
//! - A generation that is given and is not the stored one is refused with the
//!   current one, so a client holding an old search hit refetches rather than
//!   silently rendering text from another version of the file.
//! - Text is sanitised (C0/C1 controls other than tab/CR/LF, and bidi
//!   overrides, become U+FFFD).

use crate::api::{ApiError, ApiErrorModel, Detail};
use crate::domain::{copy_opt, opt_text, ContentState, Coverage, ObjectId};
use crate::text::{
    byte_len, chars_of, count_lines, decimal, lemma_byte_len_push, line_count, measure, newlines,
    push_decimal, push_signed, signed_decimal, string_of, width_of,
};
use vstd::prelude::*;
use vstd::string::*;

verus! {

/// Neighbouring chunks per side. Requests above this are clamped, not
/// rejected: the response reports what it actually contains.
pub const MAX_NEIGHBORS: u32 = 4;

/// Sanitised text per response. A single chunk larger than this is cut.
pub const MAX_RESPONSE_BYTES: usize = 256 * 1024;

/// Lines of text per response.
pub const MAX_RESPONSE_LINES: usize = 4_000;

// ----- sanitising -----------------------------------------------------------

/// Unicode general category `Cc`.
pub open spec fn is_control(c: char) -> bool {
    '\u{0}' <= c <= '\u{1f}' || '\u{7f}' <= c <= '\u{9f}'
}

/// The bidirectional formatting characters that let stored text reorder what
/// surrounds it.
pub open spec fn is_bidi_format(c: char) -> bool {
    ||| c == '\u{061C}'
    ||| c == '\u{200E}'
    ||| c == '\u{200F}'
    ||| '\u{202A}' <= c <= '\u{202E}'
    ||| '\u{2066}' <= c <= '\u{2069}'
}

/// Characters that must never reach a terminal or a DOM as they are.
pub open spec fn is_unsafe(c: char) -> bool {
    if c == '\t' || c == '\n' || c == '\r' {
        false
    } else {
        is_bidi_format(c) || is_control(c)
    }
}

pub fn unsafe_char(c: char) -> (r: bool)
    ensures
        r == is_unsafe(c),
{
    if c == '\t' || c == '\n' || c == '\r' {
        return false;
    }
    c == '\u{061C}' || c == '\u{200E}' || c == '\u{200F}' || ('\u{202A}' <= c && c <= '\u{202E}')
        || ('\u{2066}' <= c && c <= '\u{2069}') || c <= '\u{1f}' || ('\u{7f}' <= c && c
        <= '\u{9f}')
}

/// What a character is shown as. Unsafe characters are replaced, never
/// deleted, so character offsets into the stored text still line up.
pub open spec fn shown_char(c: char) -> char {
    if is_unsafe(c) {
        '\u{FFFD}'
    } else {
        c
    }
}

pub open spec fn sanitized(s: Seq<char>) -> Seq<char> {
    s.map_values(|c: char| shown_char(c))
}

pub open spec fn has_unsafe(s: Seq<char>) -> bool {
    exists|i: int| 0 <= i < s.len() && is_unsafe(#[trigger] s[i])
}

pub fn sanitize(text: &str) -> (r: (String, bool))
    ensures
        r.0@ == sanitized(text@),
        r.1 == has_unsafe(text@),
{
    let v = chars_of(text);
    let mut out = String::new();
    let mut changed = false;
    let mut i: usize = 0;
    while i < v.len()
        invariant
            0 <= i <= v.len(),
            v@ == text@,
            out@ == sanitized(v@.take(i as int)),
            changed == has_unsafe(v@.take(i as int)),
        decreases v.len() - i,
    {
        let c = v[i];
        let ghost before = v@.take(i as int);
        let ghost now = v@.take(i + 1);
        assert(now =~= before.push(c));
        assert(sanitized(now) =~= sanitized(before).push(shown_char(c)));
        proof {
            if has_unsafe(before) {
                let k = choose|k: int| 0 <= k < before.len() && is_unsafe(#[trigger] before[k]);
                assert(is_unsafe(now[k]));
            }
            if is_unsafe(c) {
                assert(is_unsafe(now[i as int]));
            }
            if has_unsafe(now) {
                let k = choose|k: int| 0 <= k < now.len() && is_unsafe(#[trigger] now[k]);
                if k < i {
                    assert(is_unsafe(before[k]));
                }
            }
        }
        if unsafe_char(c) {
            out.push('\u{FFFD}');
            changed = true;
        } else {
            out.push(c);
        }
        i += 1;
    }
    assert(v@.take(i as int) =~= text@);
    (out, changed)
}

/// What is shown is safe, as long as it was stored, and unchanged where it was
/// safe already.
pub proof fn law_shown_text_is_safe(s: Seq<char>)
    ensures
        !has_unsafe(sanitized(s)),
        sanitized(s).len() == s.len(),
        !has_unsafe(s) ==> sanitized(s) == s,
        sanitized(sanitized(s)) == sanitized(s),
{
    assert(!is_unsafe('\u{FFFD}'));
    if !has_unsafe(s) {
        assert forall|i: int| 0 <= i < s.len() implies sanitized(s)[i] == s[i] by {
            assert(!is_unsafe(s[i]));
        }
        assert(sanitized(s) =~= s);
    }
    assert(sanitized(sanitized(s)) =~= sanitized(s));
}

/// Of the control characters only tab, line feed and carriage return are ever
/// shown, and none of the characters that reorder text; every other character
/// is shown as it is stored.
pub proof fn law_dangerous_characters_are_never_shown(s: Seq<char>, i: int)
    requires
        0 <= i < s.len(),
    ensures
        ({
            let c = s[i] as u32;
            let control = c < 0x20 || 0x7f <= c <= 0x9f;
            let bidi = c == 0x061c || c == 0x200e || c == 0x200f || 0x202a <= c <= 0x202e || 0x2066
                <= c <= 0x2069;
            let kept = c == 9 || c == 10 || c == 13;
            sanitized(s)[i] == (if (control && !kept) || bidi {
                '\u{FFFD}'
            } else {
                s[i]
            })
        }),
{
}

// ----- truncating -----------------------------------------------------------

/// Whether the first `k` characters respect both bounds. No character at all is
/// no line; each line feed begins another one.
pub open spec fn within(s: Seq<char>, k: int, max_bytes: usize, max_lines: usize) -> bool {
    &&& byte_len(s.take(k)) <= max_bytes
    &&& k == 0 || newlines(s.take(k)) + 1 <= max_lines
}

/// Whether a text has to be cut at all.
pub open spec fn fits(s: Seq<char>, max_bytes: usize, max_lines: usize) -> bool {
    byte_len(s) <= max_bytes && line_count(s) <= max_lines
}

/// `k` is where a text that does not fit is cut: the bounds are respected up
/// to there and not one character further.
pub open spec fn is_cut(s: Seq<char>, k: int, max_bytes: usize, max_lines: usize) -> bool {
    &&& 0 <= k <= s.len()
    &&& within(s, k, max_bytes, max_lines)
    &&& k < s.len() ==> !within(s, k + 1, max_bytes, max_lines)
}

/// Cut `text` to at most `max_bytes` bytes and `max_lines` lines, on a
/// character boundary.
pub fn truncate(text: String, max_bytes: usize, max_lines: usize) -> (r: (String, bool))
    ensures
        r.1 == !fits(text@, max_bytes, max_lines),
        !r.1 ==> r.0@ == text@,
        r.1 ==> {
            &&& is_cut(text@, r.0@.len() as int, max_bytes, max_lines)
            &&& r.0@ == text@.take(r.0@.len() as int)
        },
{
    let v = chars_of(&text);
    let size = measure(&v, max_bytes);
    if size.is_some() && count_lines(&v) <= max_lines {
        return (text, false);
    }
    let mut used: usize = 0;
    let mut lines: usize = 0;
    let mut i: usize = 0;
    assert(v@.take(0) =~= Seq::<char>::empty());
    while i < v.len()
        invariant
            0 <= i <= v.len(),
            v@ == text@,
            used == byte_len(v@.take(i as int)),
            lines == newlines(v@.take(i as int)),
            lines <= i,
            !fits(text@, max_bytes, max_lines),
            within(v@, i as int, max_bytes, max_lines),
        decreases v.len() - i,
    {
        let c = v[i];
        let w = width_of(c);
        proof {
            assert(v@.take(i + 1) =~= v@.take(i as int).push(c));
            assert(v@.take(i + 1).drop_last() =~= v@.take(i as int));
            lemma_byte_len_push(v@.take(i as int), c);
        }
        if w > max_bytes - used || max_lines == 0 || (c == '\n' && lines + 1 >= max_lines) {
            assert(v@.subrange(0, i as int) =~= v@.take(i as int));
            return (string_of(&v, 0, i), true);
        }
        used = used + w;
        if c == '\n' {
            lines = lines + 1;
        }
        i += 1;
    }
    assert(v@.subrange(0, i as int) =~= v@.take(i as int));
    (string_of(&v, 0, i), true)
}

/// The cut is unique: no other prefix satisfies its description.
pub proof fn law_the_cut_is_unique(s: Seq<char>, j: int, k: int, max_bytes: usize, max_lines: usize)
    requires
        is_cut(s, j, max_bytes, max_lines),
        is_cut(s, k, max_bytes, max_lines),
    ensures
        j == k,
{
    if j < k {
        lemma_within_shrinks(s, j + 1, k, max_bytes, max_lines);
    } else if k < j {
        lemma_within_shrinks(s, k + 1, j, max_bytes, max_lines);
    }
}

/// What is left of a cut text respects both bounds, and one character more
/// would not; a text is cut exactly if it does not fit.
pub proof fn law_a_cut_is_as_long_as_the_bounds_allow(
    s: Seq<char>,
    k: int,
    max_bytes: usize,
    max_lines: usize,
)
    requires
        is_cut(s, k, max_bytes, max_lines),
    ensures
        byte_len(s.take(k)) <= max_bytes,
        line_count(s.take(k)) <= max_lines,
        k < s.len() ==> byte_len(s.take(k + 1)) > max_bytes || newlines(s.take(k + 1)) + 1
            > max_lines,
        fits(s, max_bytes, max_lines) <==> byte_len(s) <= max_bytes && line_count(s) <= max_lines,
{
}

proof fn lemma_within_shrinks(s: Seq<char>, j: int, k: int, max_bytes: usize, max_lines: usize)
    requires
        0 <= j <= k <= s.len(),
        within(s, k, max_bytes, max_lines),
    ensures
        within(s, j, max_bytes, max_lines),
    decreases k - j,
{
    if j < k {
        lemma_within_shrinks(s, j + 1, k, max_bytes, max_lines);
        assert(s.take(j + 1) =~= s.take(j).push(s[j]));
        assert(s.take(j + 1).drop_last() =~= s.take(j));
        lemma_byte_len_push(s.take(j), s[j]);
    }
}

// ----- the window -----------------------------------------------------------

/// One stored chunk.
#[derive(Debug)]
pub struct ChunkRow {
    pub ordinal: u32,
    pub byte_start: u64,
    pub byte_end: u64,
    pub line_start: u64,
    pub line_end: u64,
    pub chars: u32,
    pub text: String,
}

/// One chunk as it is shown.
#[derive(Debug)]
pub struct ChunkView {
    pub ordinal: u32,
    /// Byte range in the decoded source `[byte_start, byte_end)`.
    pub byte_start: u64,
    pub byte_end: u64,
    /// Zero-based, inclusive line range.
    pub line_start: u64,
    pub line_end: u64,
    /// Characters in the stored chunk, before any truncation here.
    pub chars: u32,
    pub text: String,
    /// `text` was cut to keep the response within its limits.
    pub truncated: bool,
    /// Control characters in the stored text were replaced with U+FFFD.
    pub sanitized: bool,
}

pub struct ChunkModel {
    pub ordinal: u32,
    pub byte_start: u64,
    pub byte_end: u64,
    pub line_start: u64,
    pub line_end: u64,
    pub chars: u32,
    pub text: Seq<char>,
    pub truncated: bool,
    pub sanitized: bool,
}

impl View for ChunkView {
    type V = ChunkModel;

    open spec fn view(&self) -> ChunkModel {
        ChunkModel {
            ordinal: self.ordinal,
            byte_start: self.byte_start,
            byte_end: self.byte_end,
            line_start: self.line_start,
            line_end: self.line_end,
            chars: self.chars,
            text: self.text@,
            truncated: self.truncated,
            sanitized: self.sanitized,
        }
    }
}

/// A row shown with a text.
pub open spec fn shown_row(row: ChunkRow, text: Seq<char>, truncated: bool) -> ChunkModel {
    ChunkModel {
        ordinal: row.ordinal,
        byte_start: row.byte_start,
        byte_end: row.byte_end,
        line_start: row.line_start,
        line_end: row.line_end,
        chars: row.chars,
        text,
        truncated,
        sanitized: has_unsafe(row.text@),
    }
}

/// A row shown whole.
pub open spec fn whole(row: ChunkRow) -> ChunkModel {
    shown_row(row, sanitized(row.text@), false)
}

/// The requested row: whole, or cut if it alone is too big.
pub open spec fn is_center(row: ChunkRow, c: ChunkModel) -> bool {
    let full = sanitized(row.text@);
    if fits(full, MAX_RESPONSE_BYTES, MAX_RESPONSE_LINES) {
        c == whole(row)
    } else {
        &&& is_cut(full, c.text.len() as int, MAX_RESPONSE_BYTES, MAX_RESPONSE_LINES)
        &&& c == shown_row(row, full.take(c.text.len() as int), true)
    }
}

pub open spec fn chunk_models(s: Seq<ChunkView>) -> Seq<ChunkModel> {
    Seq::new(s.len(), |i: int| s[i]@)
}

/// Bytes that a whole neighbour takes.
pub open spec fn row_bytes(row: ChunkRow) -> nat {
    byte_len(sanitized(row.text@))
}

/// Lines that a whole neighbour takes, at least one.
pub open spec fn row_lines(row: ChunkRow) -> nat {
    let n = line_count(sanitized(row.text@));
    if n < 1 {
        1
    } else {
        n
    }
}

/// A window of rows while it grows.
pub struct Span {
    pub lo: int,
    pub hi: int,
    /// What is left of the budget.
    pub bytes: int,
    pub lines: int,
    pub grow_lo: bool,
    pub grow_hi: bool,
    /// A neighbour had to be left out.
    pub truncated: bool,
}

/// A neighbour is included only whole: a partial neighbour would misreport its
/// own byte and line ranges.
pub open spec fn takes(s: Span, row: ChunkRow) -> bool {
    row_bytes(row) <= s.bytes && row_lines(row) <= s.lines
}

pub open spec fn step_down(rows: Seq<ChunkRow>, s: Span) -> Span {
    if !s.grow_lo {
        s
    } else if s.lo > 0 && takes(s, rows[s.lo - 1]) {
        Span {
            lo: s.lo - 1,
            bytes: s.bytes - row_bytes(rows[s.lo - 1]),
            lines: s.lines - row_lines(rows[s.lo - 1]),
            ..s
        }
    } else {
        Span { grow_lo: false, truncated: s.truncated || s.lo > 0, ..s }
    }
}

pub open spec fn step_up(rows: Seq<ChunkRow>, s: Span) -> Span {
    if !s.grow_hi {
        s
    } else if s.hi + 1 < rows.len() && takes(s, rows[s.hi + 1]) {
        Span {
            hi: s.hi + 1,
            bytes: s.bytes - row_bytes(rows[s.hi + 1]),
            lines: s.lines - row_lines(rows[s.hi + 1]),
            ..s
        }
    } else {
        Span { grow_hi: false, truncated: s.truncated || s.hi + 1 < rows.len(), ..s }
    }
}

/// How much a window can still change.
pub open spec fn slack(rows: Seq<ChunkRow>, s: Span) -> int {
    rows.len() - (s.hi - s.lo) + (if s.grow_lo {
        1int
    } else {
        0int
    }) + (if s.grow_hi {
        1int
    } else {
        0int
    })
}

/// The window that a span grows into, alternately outwards, one row down and
/// one row up at a time, until neither side can grow.
pub open spec fn grown(rows: Seq<ChunkRow>, s: Span) -> Span
    decreases slack(rows, s),
{
    if !(0 <= s.lo <= s.hi < rows.len()) {
        s
    } else if !s.grow_lo && !s.grow_hi {
        s
    } else {
        grown(rows, step_up(rows, step_down(rows, s)))
    }
}

/// The span of the requested row alone.
pub open spec fn center_span(center: int, c: ChunkModel) -> Span {
    Span {
        lo: center,
        hi: center,
        bytes: MAX_RESPONSE_BYTES - byte_len(c.text),
        lines: if line_count(c.text) < MAX_RESPONSE_LINES {
            MAX_RESPONSE_LINES - line_count(c.text)
        } else {
            0
        },
        grow_lo: true,
        grow_hi: true,
        truncated: c.truncated,
    }
}

/// The rows of a window, the requested one shown as `c`.
pub open spec fn window_chunks(rows: Seq<ChunkRow>, s: Span, center: int, c: ChunkModel) -> Seq<
    ChunkModel,
> {
    Seq::new(
        (s.hi - s.lo + 1) as nat,
        |i: int|
            if s.lo + i == center {
                c
            } else {
                whole(rows[s.lo + i])
            },
    )
}

/// What is shown around a row: the row itself, cut down if it alone is too
/// big, and as many whole neighbours as the budgets allow.
pub open spec fn is_window(
    rows: Seq<ChunkRow>,
    center: int,
    chunks: Seq<ChunkModel>,
    truncated: bool,
    c: ChunkModel,
) -> bool {
    let s = grown(rows, center_span(center, c));
    &&& is_center(rows[center], c)
    &&& chunks == window_chunks(rows, s, center, c)
    &&& truncated == s.truncated
}

/// Some way of showing the requested row makes this its window.
pub open spec fn windowed(
    rows: Seq<ChunkRow>,
    center: int,
    chunks: Seq<ChunkModel>,
    truncated: bool,
) -> bool {
    exists|c: ChunkModel| #[trigger] is_window(rows, center, chunks, truncated, c)
}

/// The window always holds the requested row, is contiguous, and never takes
/// more than the budgets.
pub proof fn law_window_is_contiguous_and_bounded(rows: Seq<ChunkRow>, s: Span)
    requires
        0 <= s.lo <= s.hi < rows.len(),
        s.bytes >= 0,
        s.lines >= 0,
    ensures
        ({
            let t = grown(rows, s);
            &&& 0 <= t.lo <= s.lo <= s.hi <= t.hi < rows.len()
            &&& 0 <= t.bytes <= s.bytes
            &&& 0 <= t.lines <= s.lines
            &&& !t.grow_lo && !t.grow_hi
            &&& s.truncated ==> t.truncated
        }),
    decreases slack(rows, s),
{
    if s.grow_lo || s.grow_hi {
        let next = step_up(rows, step_down(rows, s));
        law_window_is_contiguous_and_bounded(rows, next);
    }
}

/// Bytes that the whole rows from `lo` up to `hi` take.
pub open spec fn bytes_between(rows: Seq<ChunkRow>, lo: int, hi: int) -> nat
    decreases hi - lo,
{
    if lo >= hi {
        0
    } else {
        bytes_between(rows, lo, hi - 1) + byte_len(sanitized(rows[hi - 1].text@))
    }
}

/// Lines that the whole rows from `lo` up to `hi` take, each at least one.
pub open spec fn lines_between(rows: Seq<ChunkRow>, lo: int, hi: int) -> nat
    decreases hi - lo,
{
    if lo >= hi {
        0
    } else {
        let n = line_count(sanitized(rows[hi - 1].text@));
        lines_between(rows, lo, hi - 1) + (if n < 1 {
            1
        } else {
            n
        })
    }
}

proof fn lemma_between_low(rows: Seq<ChunkRow>, lo: int, hi: int)
    requires
        lo < hi,
    ensures
        bytes_between(rows, lo, hi) == row_bytes(rows[lo]) + bytes_between(rows, lo + 1, hi),
        lines_between(rows, lo, hi) == row_lines(rows[lo]) + lines_between(rows, lo + 1, hi),
    decreases hi - lo,
{
    if lo + 1 < hi {
        lemma_between_low(rows, lo, hi - 1);
    } else {
        assert(bytes_between(rows, lo, lo) == 0);
        assert(lines_between(rows, lo, lo) == 0);
    }
}

/// A row does not fit beside a span with `down` rows below and `up` above it.
pub open spec fn no_room(rows: Seq<ChunkRow>, s: Span, row: int, down: int, up: int) -> bool {
    ||| byte_len(sanitized(rows[row].text@)) > s.bytes - bytes_between(rows, s.lo - down, s.lo)
        - bytes_between(rows, s.hi + 1, s.hi + 1 + up)
    ||| lines_between(rows, row, row + 1) > s.lines - lines_between(rows, s.lo - down, s.lo)
        - lines_between(rows, s.hi + 1, s.hi + 1 + up)
}

pub open spec fn least(a: int, b: int) -> int {
    if a < b {
        a
    } else {
        b
    }
}

/// How far a window has grown from a span.
spec fn on_the_way(rows: Seq<ChunkRow>, s0: Span, s: Span) -> bool {
    let down = s0.lo - s.lo;
    let up = s.hi - s0.hi;
    &&& 0 <= s.lo <= s0.lo <= s0.hi <= s.hi < rows.len()
    &&& s.bytes == s0.bytes - bytes_between(rows, s.lo, s0.lo) - bytes_between(
        rows,
        s0.hi + 1,
        s.hi + 1,
    )
    &&& s.lines == s0.lines - lines_between(rows, s.lo, s0.lo) - lines_between(
        rows,
        s0.hi + 1,
        s.hi + 1,
    )
    &&& s.bytes >= 0 && s.lines >= 0
    &&& s.grow_lo && s.grow_hi ==> down == up
    &&& s.grow_lo && !s.grow_hi ==> down > up
    &&& !s.grow_lo && s.grow_hi ==> up > down
    &&& !s.grow_lo ==> s.lo == 0 || no_room(rows, s0, s.lo - 1, down, least(up, down))
    &&& !s.grow_hi ==> s.hi + 1 == rows.len() || no_room(
        rows,
        s0,
        s.hi + 1,
        least(down, up + 1),
        up,
    )
    &&& s.truncated == (s0.truncated || (!s.grow_lo && s.lo > 0) || (!s.grow_hi && s.hi + 1
        < rows.len()))
}

proof fn lemma_grown(rows: Seq<ChunkRow>, s0: Span, s: Span)
    requires
        on_the_way(rows, s0, s),
    ensures
        on_the_way(rows, s0, grown(rows, s)),
        !grown(rows, s).grow_lo && !grown(rows, s).grow_hi,
    decreases slack(rows, s),
{
    if s.grow_lo || s.grow_hi {
        let d = step_down(rows, s);
        let next = step_up(rows, d);
        if s.lo > 0 {
            lemma_between_low(rows, s.lo - 1, s0.lo);
            lemma_between_low(rows, s.lo - 1, s.lo);
            assert(lines_between(rows, s.lo, s.lo) == 0);
        }
        if s.hi + 1 < rows.len() {
            lemma_between_low(rows, s.hi + 1, s.hi + 2);
            assert(lines_between(rows, s.hi + 2, s.hi + 2) == 0);
        }
        assert(on_the_way(rows, s0, next));
        lemma_grown(rows, s0, next);
    }
}

/// A window grows evenly and as far as it can: with `down` rows taken below
/// the requested one and `up` above it, a side ends only at the last row there
/// is, or at a row that no longer fitted when its turn came, one row below and
/// one row above at a time. What it takes is what its rows take, and it is cut
/// exactly if the request was, or if a row on either side was left out.
pub proof fn law_a_window_grows_evenly_and_as_far_as_it_can(rows: Seq<ChunkRow>, s: Span)
    requires
        0 <= s.lo <= s.hi < rows.len(),
        s.bytes >= 0,
        s.lines >= 0,
        s.grow_lo && s.grow_hi,
    ensures
        ({
            let t = grown(rows, s);
            let down = s.lo - t.lo;
            let up = t.hi - s.hi;
            &&& 0 <= down && 0 <= up && 0 <= t.lo && t.hi < rows.len()
            &&& t.lo == 0 || no_room(rows, s, t.lo - 1, down, least(up, down))
            &&& t.hi + 1 == rows.len() || no_room(rows, s, t.hi + 1, least(down, up + 1), up)
            &&& bytes_between(rows, t.lo, s.lo) + bytes_between(rows, s.hi + 1, t.hi + 1) <= s.bytes
            &&& lines_between(rows, t.lo, s.lo) + lines_between(rows, s.hi + 1, t.hi + 1) <= s.lines
            &&& t.truncated <==> s.truncated || t.lo > 0 || t.hi + 1 < rows.len()
        }),
{
    assert(bytes_between(rows, s.lo, s.lo) == 0);
    assert(lines_between(rows, s.lo, s.lo) == 0);
    lemma_grown(rows, s, s);
}

/// Bytes of text that a list of chunks shows.
pub open spec fn shown_bytes(chunks: Seq<ChunkModel>) -> nat
    decreases chunks.len(),
{
    if chunks.len() == 0 {
        0
    } else {
        shown_bytes(chunks.drop_last()) + byte_len(chunks.last().text)
    }
}

/// Lines of text that a list of chunks shows.
pub open spec fn shown_lines(chunks: Seq<ChunkModel>) -> nat
    decreases chunks.len(),
{
    if chunks.len() == 0 {
        0
    } else {
        shown_lines(chunks.drop_last()) + line_count(chunks.last().text)
    }
}

proof fn lemma_shown(rows: Seq<ChunkRow>, chunks: Seq<ChunkModel>, lo: int, center: int, c: ChunkModel)
    requires
        0 <= lo <= center < rows.len(),
        lo + chunks.len() <= rows.len(),
        forall|i: int|
            0 <= i < chunks.len() ==> #[trigger] chunks[i] == (if lo + i == center {
                c
            } else {
                whole(rows[lo + i])
            }),
    ensures
        shown_bytes(chunks) == (if lo + chunks.len() <= center {
            bytes_between(rows, lo, lo + chunks.len())
        } else {
            bytes_between(rows, lo, center) + byte_len(c.text) + bytes_between(
                rows,
                center + 1,
                lo + chunks.len(),
            )
        }),
        shown_lines(chunks) <= (if lo + chunks.len() <= center {
            lines_between(rows, lo, lo + chunks.len())
        } else {
            lines_between(rows, lo, center) + line_count(c.text) + lines_between(
                rows,
                center + 1,
                lo + chunks.len(),
            )
        }),
    decreases chunks.len(),
{
    if chunks.len() > 0 {
        let init = chunks.drop_last();
        let n = init.len() as int;
        assert forall|i: int| 0 <= i < init.len() implies #[trigger] init[i] == (if lo + i == center {
            c
        } else {
            whole(rows[lo + i])
        }) by {
            assert(chunks[i] == init[i]);
        }
        lemma_shown(rows, init, lo, center, c);
        assert(chunks.last() == chunks[n]);
        if lo + n == center {
            assert(bytes_between(rows, center + 1, center + 1) == 0);
            assert(lines_between(rows, center + 1, center + 1) == 0);
        }
    }
}

/// What is shown around a chunk is a stretch of the rows that holds it, each
/// row under its own ordinal and ranges, its neighbours whole and the chunk
/// itself whole or a beginning of it, within the byte and line bounds; and it
/// says that something was cut exactly if the chunk was, or a row is missing.
pub proof fn law_a_window_shows_its_rows(
    rows: Seq<ChunkRow>,
    center: int,
    chunks: Seq<ChunkModel>,
    truncated: bool,
)
    requires
        0 <= center < rows.len(),
        windowed(rows, center, chunks, truncated),
    ensures
        shown_bytes(chunks) <= MAX_RESPONSE_BYTES,
        shown_lines(chunks) <= MAX_RESPONSE_LINES,
        exists|lo: int|
            {
                &&& #[trigger] shows_from(rows, chunks, lo)
                &&& lo <= center < lo + chunks.len()
                &&& forall|i: int|
                    0 <= i < chunks.len() && lo + i != center ==> !(#[trigger] chunks[i]).truncated
                        && chunks[i].text == sanitized(rows[lo + i].text@)
                &&& !chunks[center - lo].truncated ==> chunks[center - lo].text == sanitized(
                    rows[center].text@,
                )
                &&& truncated <==> chunks[center - lo].truncated || lo > 0 || lo + chunks.len()
                    < rows.len()
            },
{
    let c = choose|c: ChunkModel| #[trigger] is_window(rows, center, chunks, truncated, c);
    let s = center_span(center, c);
    let full = sanitized(rows[center].text@);
    if !fits(full, MAX_RESPONSE_BYTES, MAX_RESPONSE_LINES) {
        assert(c.text == full.take(c.text.len() as int));
    }
    assert(byte_len(c.text) <= MAX_RESPONSE_BYTES);
    assert(line_count(c.text) <= MAX_RESPONSE_LINES);
    law_a_window_grows_evenly_and_as_far_as_it_can(rows, s);
    let t = grown(rows, s);
    assert forall|i: int| 0 <= i < chunks.len() implies #[trigger] chunks[i] == (if t.lo + i
        == center {
        c
    } else {
        whole(rows[t.lo + i])
    }) by {}
    lemma_shown(rows, chunks, t.lo, center, c);
    assert forall|i: int| 0 <= i < chunks.len() implies {
        &&& (#[trigger] chunks[i]).ordinal == rows[t.lo + i].ordinal
        &&& chunks[i].byte_start == rows[t.lo + i].byte_start
        &&& chunks[i].byte_end == rows[t.lo + i].byte_end
        &&& chunks[i].line_start == rows[t.lo + i].line_start
        &&& chunks[i].line_end == rows[t.lo + i].line_end
        &&& chunks[i].chars == rows[t.lo + i].chars
        &&& chunks[i].text.len() <= rows[t.lo + i].text@.len()
        &&& chunks[i].text == sanitized(rows[t.lo + i].text@).take(chunks[i].text.len() as int)
    } by {
        let all = sanitized(rows[t.lo + i].text@);
        assert(all.take(all.len() as int) =~= all);
    }
    assert(shows_from(rows, chunks, t.lo));
}

/// The chunks are the rows from `lo` on, as far as their text goes.
pub open spec fn shows_from(rows: Seq<ChunkRow>, chunks: Seq<ChunkModel>, lo: int) -> bool {
    &&& 0 <= lo
    &&& 0 < chunks.len()
    &&& lo + chunks.len() <= rows.len()
    &&& forall|i: int|
        0 <= i < chunks.len() ==> {
            &&& (#[trigger] chunks[i]).ordinal == rows[lo + i].ordinal
            &&& chunks[i].byte_start == rows[lo + i].byte_start
            &&& chunks[i].byte_end == rows[lo + i].byte_end
            &&& chunks[i].line_start == rows[lo + i].line_start
            &&& chunks[i].line_end == rows[lo + i].line_end
            &&& chunks[i].chars == rows[lo + i].chars
            &&& chunks[i].text.len() <= rows[lo + i].text@.len()
            &&& chunks[i].text == sanitized(rows[lo + i].text@).take(chunks[i].text.len() as int)
        }
}

fn chunk_view(row: &ChunkRow, text: String, sanitized: bool, truncated: bool) -> (r: ChunkView)
    requires
        sanitized == has_unsafe(row.text@),
    ensures
        r@ == shown_row(*row, text@, truncated),
{
    ChunkView {
        ordinal: row.ordinal,
        byte_start: row.byte_start,
        byte_end: row.byte_end,
        line_start: row.line_start,
        line_end: row.line_end,
        chars: row.chars,
        text,
        truncated,
        sanitized,
    }
}

/// What is left of a response's size.
struct Budget {
    bytes: usize,
    lines: usize,
}

fn take(row: &ChunkRow, budget: &mut Budget) -> (r: Option<ChunkView>)
    ensures
        match r {
            Some(v) => {
                &&& row_bytes(*row) <= old(budget).bytes
                &&& row_lines(*row) <= old(budget).lines
                &&& v@ == whole(*row)
                &&& final(budget).bytes == old(budget).bytes - row_bytes(*row)
                &&& final(budget).lines == old(budget).lines - row_lines(*row)
            },
            None => {
                &&& row_bytes(*row) > old(budget).bytes || row_lines(*row) > old(budget).lines
                &&& *final(budget) == *old(budget)
            },
        },
{
    let (text, sanitized) = sanitize(&row.text);
    let v = chars_of(&text);
    let n: usize = count_lines(&v);
    let lines: usize = if n < 1 {
        1
    } else {
        n
    };
    match measure(&v, budget.bytes) {
        None => None,
        Some(bytes) => {
            if lines > budget.lines {
                return None;
            }
            budget.bytes = budget.bytes - bytes;
            budget.lines = budget.lines - lines;
            Some(chunk_view(row, text, sanitized, false))
        },
    }
}

/// The requested chunk plus as many whole neighbours as the byte and line
/// budgets allow, expanded alternately outwards so the window stays
/// contiguous and centred. Returns the window and whether anything was cut.
pub fn window(rows: &Vec<ChunkRow>, center: usize) -> (r: (Vec<ChunkView>, bool))
    requires
        center < rows.len(),
    ensures
        windowed(rows@, center as int, chunk_models(r.0@), r.1),
{
    // The requested chunk always comes back, cut down if it alone is too big.
    let row = &rows[center];
    let (text, unsafe_found) = sanitize(&row.text);
    let ghost full = text@;
    let (text, cut) = truncate(text, MAX_RESPONSE_BYTES, MAX_RESPONSE_LINES);
    let v = chars_of(&text);
    proof {
        if cut {
            assert(text@ == full.take(text@.len() as int));
        }
        assert(byte_len(text@) <= MAX_RESPONSE_BYTES);
    }
    let used: usize = match measure(&v, MAX_RESPONSE_BYTES) {
        Some(n) => n,
        None => 0,
    };
    let n: usize = count_lines(&v);
    let mut budget = Budget {
        bytes: MAX_RESPONSE_BYTES - used,
        lines: if n < MAX_RESPONSE_LINES {
            MAX_RESPONSE_LINES - n
        } else {
            0
        },
    };
    let first = chunk_view(row, text, unsafe_found, cut);
    let ghost c = first@;
    assert(is_center(rows@[center as int], c));
    let mut truncated = cut;
    let mut above: Vec<ChunkView> = Vec::new();
    let mut out: Vec<ChunkView> = Vec::new();
    let mut lo: usize = center;
    let mut hi: usize = center;
    let mut grow_lo = true;
    let mut grow_hi = true;
    out.push(first);
    let ghost goal = grown(rows@, center_span(center as int, c));
    let ghost mut span = center_span(center as int, c);
    while grow_lo || grow_hi
        invariant
            0 <= lo <= center <= hi < rows.len(),
            span == (Span {
                lo: lo as int,
                hi: hi as int,
                bytes: budget.bytes as int,
                lines: budget.lines as int,
                grow_lo,
                grow_hi,
                truncated,
            }),
            grown(rows@, span) == goal,
            out.len() == hi - center + 1,
            above.len() == center - lo,
            out@[0]@ == c,
            forall|i: int|
                1 <= i < out.len() ==> (#[trigger] out@[i])@ == whole(rows@[center + i]),
            forall|i: int|
                0 <= i < above.len() ==> (#[trigger] above@[i])@ == whole(rows@[center - 1 - i]),
        decreases slack(rows@, span),
    {
        let ghost down = step_down(rows@, span);
        if grow_lo {
            let taken: Option<ChunkView> = if lo > 0 {
                take(&rows[lo - 1], &mut budget)
            } else {
                None
            };
            match taken {
                Some(v) => {
                    above.push(v);
                    lo = lo - 1;
                },
                None => {
                    truncated = truncated || lo > 0;
                    grow_lo = false;
                },
            }
        }
        assert(down == (Span {
            lo: lo as int,
            hi: hi as int,
            bytes: budget.bytes as int,
            lines: budget.lines as int,
            grow_lo,
            grow_hi,
            truncated,
        }));
        if grow_hi {
            let taken: Option<ChunkView> = if hi + 1 < rows.len() {
                take(&rows[hi + 1], &mut budget)
            } else {
                None
            };
            match taken {
                Some(v) => {
                    out.push(v);
                    hi = hi + 1;
                },
                None => {
                    truncated = truncated || hi + 1 < rows.len();
                    grow_hi = false;
                },
            }
        }
        proof {
            span = step_up(rows@, down);
        }
    }
    assert(goal == span);
    let mut all: Vec<ChunkView> = Vec::new();
    let ghost low = above@;
    while above.len() > 0
        invariant
            above.len() <= low.len(),
            above@ == low.take(above.len() as int),
            all.len() == low.len() - above.len(),
            forall|i: int|
                0 <= i < all.len() ==> (#[trigger] all@[i]) == low[low.len() - 1 - i],
        decreases above.len(),
    {
        let ghost before = above@;
        if let Some(v) = above.pop() {
            all.push(v);
            assert(above@ =~= low.take(above.len() as int));
        }
    }
    let ghost head = all@;
    let ghost tail = out@;
    all.append(&mut out);
    proof {
        assert(all@ =~= head + tail);
        assert forall|i: int| 0 <= i < all.len() implies chunk_models(all@)[i] == window_chunks(
            rows@,
            span,
            center as int,
            c,
        )[i] by {
            if i < head.len() {
                assert(all@[i] == low[low.len() - 1 - i]);
                assert(low[low.len() - 1 - i]@ == whole(rows@[center - 1 - (low.len() - 1 - i)]));
            } else if i > head.len() {
                assert(all@[i] == tail[i - head.len()]);
            }
        }
        assert(chunk_models(all@) =~= window_chunks(rows@, span, center as int, c));
        assert(is_window(rows@, center as int, chunk_models(all@), truncated, c));
        assert(windowed(rows@, center as int, chunk_models(all@), truncated));
    }
    (all, truncated)
}

// ----- the request ----------------------------------------------------------

/// What a preview request asks for.
#[derive(Debug, Clone, Copy, PartialEq, Eq, Structural)]
pub struct PreviewQuery {
    /// Content generation the caller believes it is reading. Absent to read
    /// whatever is current.
    pub generation: Option<u32>,
    /// Chunk to centre the window on.
    pub ordinal: u32,
    pub before: u32,
    pub after: u32,
}

#[derive(Debug, Clone, Copy, PartialEq, Eq, Structural)]
pub struct PreviewLimits {
    pub max_neighbors: u32,
    pub max_bytes: usize,
    pub max_lines: usize,
}

/// What the catalog knows of the object itself.
#[derive(Debug, Clone, Copy, PartialEq, Eq, Structural)]
pub struct PreviewObject {
    pub deleted: bool,
    pub generation: u32,
}

/// What the catalog knows of the object's extracted text.
#[derive(Debug)]
pub struct ContentRecord {
    pub generation: u32,
    pub state: ContentState,
    pub coverage: Coverage,
    pub indexed_bytes: u64,
    pub total_bytes: u64,
    pub chunk_count: u32,
    pub line_count: u64,
    pub encoding: Option<String>,
    pub reason: Option<String>,
    pub error: Option<String>,
}

#[derive(Debug)]
pub struct PreviewView {
    pub object_id: ObjectId,
    /// Current rendered path, for labelling only.
    pub path: Option<String>,
    /// Generation the returned text belongs to.
    pub generation: u32,
    /// The object's current generation.
    pub object_generation: u32,
    /// The object changed after this text was extracted.
    pub stale: bool,
    pub state: ContentState,
    pub coverage: Coverage,
    pub indexed_bytes: u64,
    pub total_bytes: u64,
    /// Chunks stored for this generation.
    pub chunk_count: u32,
    pub line_count: u64,
    pub encoding: Option<String>,
    /// Why coverage is partial, or why extraction failed.
    pub reason: Option<String>,
    pub requested_ordinal: u32,
    pub chunks: Vec<ChunkView>,
    pub has_more_before: bool,
    pub has_more_after: bool,
    /// Text was dropped or cut to respect the limits below.
    pub truncated: bool,
    pub limits: PreviewLimits,
}

/// The chunks to read: ordinals `from..=to`.
#[derive(Debug, Clone, Copy, PartialEq, Eq, Structural)]
pub struct ChunkRange {
    pub from: u32,
    pub to: u32,
}

pub open spec fn object_label(id: ObjectId) -> Seq<char> {
    "object "@ + signed_decimal(id.0 as int)
}

pub fn object_name(id: ObjectId) -> (r: String)
    ensures
        r@ == object_label(id),
{
    let mut s = "object ".to_owned();
    push_signed(&mut s, id.0);
    s
}

pub open spec fn neighbors(n: u32) -> u32 {
    if n < MAX_NEIGHBORS {
        n
    } else {
        MAX_NEIGHBORS
    }
}

/// The range of ordinals around the requested chunk, as far as ordinals go.
pub open spec fn chunk_range(q: PreviewQuery) -> ChunkRange {
    ChunkRange {
        from: if q.ordinal >= neighbors(q.before) {
            (q.ordinal - neighbors(q.before)) as u32
        } else {
            0
        },
        to: if q.ordinal + neighbors(q.after) <= u32::MAX {
            (q.ordinal + neighbors(q.after)) as u32
        } else {
            u32::MAX
        },
    }
}

/// The chunks to read hold the requested one, and on either side as many as
/// were asked for, but no more than the limit and none that cannot exist.
pub proof fn law_a_range_surrounds_its_chunk(q: PreviewQuery)
    ensures
        ({
            let r = chunk_range(q);
            let below = q.ordinal - r.from;
            let above = r.to - q.ordinal;
            &&& 0 <= below <= q.before && below <= MAX_NEIGHBORS
            &&& 0 <= above <= q.after && above <= MAX_NEIGHBORS
            &&& below < q.before && below < MAX_NEIGHBORS ==> r.from == 0
            &&& above < q.after && above < MAX_NEIGHBORS ==> r.to == u32::MAX
        }),
{
}

/// The answer to a request for a generation that is not stored any more.
pub open spec fn stale_answer(object: ObjectId, asked: u32, current: u32) -> ApiErrorModel {
    ApiErrorModel {
        kind: "stale_generation"@,
        details: seq![
            ("object_id"@, object.0),
            ("requested_generation"@, asked as i64),
            ("current_generation"@, current as i64),
        ],
        ..ApiErrorModel::conflict(
            object_label(object) + " content generation "@ + decimal(asked as nat)
                + " is no longer stored; the catalog now holds generation "@ + decimal(
                current as nat,
            ),
        )
    }
}

/// A request for text of another version is a conflict that names the object,
/// the version asked for and the one that is stored, so that the client can ask
/// again.
pub proof fn law_a_stale_request_learns_the_current_version(
    object: ObjectId,
    asked: u32,
    current: u32,
)
    ensures
        ({
            let e = stale_answer(object, asked, current);
            &&& e.status == 409
            &&& e.kind == "stale_generation"@
            &&& e.details.len() == 3
            &&& e.details[0] == ("object_id"@, object.0)
            &&& e.details[1] == ("requested_generation"@, asked as i64)
            &&& e.details[2] == ("current_generation"@, current as i64)
            &&& e.retry_after_s is None
        }),
{
}

/// First step of a preview: whether there is text to show, and which chunks to
/// read. Chunks of superseded generations are deleted on store, so the
/// record's generation is the only one with text.
pub fn plan_preview(
    object: ObjectId,
    known: Option<PreviewObject>,
    record: Option<&ContentRecord>,
    q: PreviewQuery,
) -> (r: Result<ChunkRange, ApiError>)
    ensures
        match known {
            Some(o) => if o.deleted {
                r matches Err(e) && e@ == ApiErrorModel::not_found(object_label(object))
            } else {
                match record {
                    None => r matches Err(e) && e@ == ApiErrorModel::not_found(
                        object_label(object) + " has no extracted content"@,
                    ),
                    Some(rec) => match q.generation {
                        Some(asked) => if asked != rec.generation {
                            r matches Err(e) && e@ == stale_answer(object, asked, rec.generation)
                        } else {
                            r == Ok::<ChunkRange, ApiError>(chunk_range(q))
                        },
                        None => r == Ok::<ChunkRange, ApiError>(chunk_range(q)),
                    },
                }
            },
            None => r matches Err(e) && e@ == ApiErrorModel::not_found(object_label(object)),
        },
{
    let present: bool = match known {
        Some(o) => !o.deleted,
        None => false,
    };
    if !present {
        return Err(ApiError::not_found(object_name(object)));
    }
    let rec = match record {
        None => {
            return Err(
                ApiError::not_found(object_name(object).concat(" has no extracted content")),
            );
        },
        Some(rec) => rec,
    };
    if let Some(asked) = q.generation {
        if asked != rec.generation {
            let mut m = object_name(object).concat(" content generation ");
            push_decimal(&mut m, asked as u64);
            m.append(" is no longer stored; the catalog now holds generation ");
            push_decimal(&mut m, rec.generation as u64);
            let mut details: Vec<Detail> = Vec::new();
            details.push(Detail { key: "object_id", value: object.0 });
            details.push(Detail { key: "requested_generation", value: asked as i64 });
            details.push(Detail { key: "current_generation", value: rec.generation as i64 });
            let e = ApiError::conflict(m).with_kind("stale_generation").with_details(details);
            assert(e@.details =~= stale_answer(object, asked, rec.generation).details);
            return Err(e);
        }
    }
    let before: u32 = if q.before < MAX_NEIGHBORS {
        q.before
    } else {
        MAX_NEIGHBORS
    };
    let after: u32 = if q.after < MAX_NEIGHBORS {
        q.after
    } else {
        MAX_NEIGHBORS
    };
    Ok(
        ChunkRange {
            from: if q.ordinal >= before {
                q.ordinal - before
            } else {
                0
            },
            to: if q.ordinal <= u32::MAX - after {
                q.ordinal + after
            } else {
                u32::MAX
            },
        },
    )
}

/// Where a chunk stands among the rows read.
pub open spec fn is_position(rows: Seq<ChunkRow>, ordinal: u32, i: int) -> bool {
    &&& 0 <= i < rows.len()
    &&& rows[i].ordinal == ordinal
    &&& forall|j: int| 0 <= j < i ==> (#[trigger] rows[j]).ordinal != ordinal
}

fn position(rows: &Vec<ChunkRow>, ordinal: u32) -> (r: Option<usize>)
    ensures
        match r {
            Some(i) => is_position(rows@, ordinal, i as int),
            None => forall|j: int|
                0 <= j < rows.len() ==> (#[trigger] rows@[j]).ordinal != ordinal,
        },
{
    let mut i: usize = 0;
    while i < rows.len()
        invariant
            0 <= i <= rows.len(),
            forall|j: int| 0 <= j < i ==> (#[trigger] rows@[j]).ordinal != ordinal,
        decreases rows.len() - i,
    {
        if rows[i].ordinal == ordinal {
            return Some(i);
        }
        i += 1;
    }
    None
}

/// The highest ordinal that is stored: one less than the number of chunks,
/// guarded against an empty record.
pub open spec fn last_stored(chunk_count: u32, last: u32) -> u32 {
    let top = if chunk_count > 0 {
        (chunk_count - 1) as u32
    } else {
        0
    };
    if top < last {
        last
    } else {
        top
    }
}

pub open spec fn no_chunk_text(object: ObjectId, rec: ContentRecord, ordinal: u32) -> Seq<char> {
    object_label(object) + " generation "@ + decimal(rec.generation as nat) + " has no chunk "@
        + decimal(ordinal as nat) + " ("@ + decimal(rec.chunk_count as nat) + " stored)"@
}

/// A preview shows the record it was made from.
pub open spec fn shows_record(v: PreviewView, object: ObjectId, known: PreviewObject, rec: ContentRecord) -> bool {
    &&& v.object_id == object
    &&& v.generation == rec.generation
    &&& v.object_generation == known.generation
    &&& v.stale == (rec.generation != known.generation)
    &&& v.state == rec.state
    &&& v.coverage == rec.coverage
    &&& v.indexed_bytes == rec.indexed_bytes
    &&& v.total_bytes == rec.total_bytes
    &&& v.chunk_count == rec.chunk_count
    &&& v.line_count == rec.line_count
    &&& opt_text(v.encoding) == opt_text(rec.encoding)
    &&& opt_text(v.reason) == (match rec.reason {
        Some(r) => Some(r@),
        None => opt_text(rec.error),
    })
    &&& v.limits == (PreviewLimits {
        max_neighbors: MAX_NEIGHBORS,
        max_bytes: MAX_RESPONSE_BYTES,
        max_lines: MAX_RESPONSE_LINES,
    })
}

/// Whether the shown chunks end before the range that was asked for, or begin
/// after it.
pub open spec fn misses_rows(v: PreviewView, rec: ContentRecord, range: ChunkRange) -> bool {
    let last = v.chunks@.last().ordinal;
    let top = last_stored(rec.chunk_count, last);
    last < (if range.to < top {
        range.to
    } else {
        top
    }) || v.chunks@[0].ordinal > range.from
}

/// What a preview shows of the rows that were read.
pub open spec fn previews(
    v: PreviewView,
    object: ObjectId,
    known: PreviewObject,
    rec: ContentRecord,
    ordinal: u32,
    range: ChunkRange,
    rows: Seq<ChunkRow>,
) -> bool {
    &&& shows_record(v, object, known, rec)
    &&& v.requested_ordinal == ordinal
    &&& v.chunks@.len() > 0
    &&& exists|i: int, cut: bool|
        {
            &&& is_position(rows, ordinal, i)
            &&& #[trigger] windowed(rows, i, chunk_models(v.chunks@), cut)
            &&& v.truncated == (cut || misses_rows(v, rec, range))
        }
    &&& v.has_more_before == (v.chunks@[0].ordinal > 0)
    &&& v.has_more_after == (v.chunks@.last().ordinal < last_stored(
        rec.chunk_count,
        v.chunks@.last().ordinal,
    ))
}

/// A preview says that there is more text exactly if there is: behind the last
/// chunk shown, if the record stores more chunks than up to it; before the
/// first, unless that is the first of all. The requested chunk is shown, all
/// that is shown was read, and a stored chunk of the requested range that is
/// not shown, or a row that was read and is not shown, makes it truncated.
pub proof fn law_more_text_is_announced(
    v: PreviewView,
    object: ObjectId,
    known: PreviewObject,
    rec: ContentRecord,
    ordinal: u32,
    range: ChunkRange,
    rows: Seq<ChunkRow>,
    stored: u32,
)
    requires
        previews(v, object, known, rec, ordinal, range, rows),
    ensures
        ({
            let first = v.chunks@[0].ordinal;
            let last = v.chunks@[v.chunks@.len() - 1].ordinal;
            &&& v.chunks@.len() > 0
            &&& v.has_more_after <==> rec.chunk_count > last + 1
            &&& v.has_more_before <==> first > 0
            &&& last < stored < rec.chunk_count && stored <= range.to ==> v.truncated
            &&& range.from < first ==> v.truncated
            &&& v.chunks@.len() < rows.len() ==> v.truncated
            &&& v.truncated && v.chunks@.len() == rows.len() ==> {
                ||| range.from < first
                ||| last < range.to && last + 1 < rec.chunk_count
                ||| exists|i: int|
                    0 <= i < v.chunks@.len() && (#[trigger] v.chunks@[i]).ordinal == ordinal
                        && v.chunks@[i].truncated
            }
            &&& exists|i: int| 0 <= i < v.chunks@.len() && (#[trigger] v.chunks@[i]).ordinal == ordinal
            &&& exists|lo: int| #[trigger] shows_from(rows, chunk_models(v.chunks@), lo)
        }),
{
    let chunks = chunk_models(v.chunks@);
    let (i, cut) = choose|i: int, cut: bool|
        {
            &&& is_position(rows, ordinal, i)
            &&& #[trigger] windowed(rows, i, chunks, cut)
            &&& v.truncated == (cut || misses_rows(v, rec, range))
        };
    law_a_window_shows_its_rows(rows, i, chunks, cut);
    let lo = choose|lo: int|
        {
            &&& #[trigger] shows_from(rows, chunks, lo)
            &&& lo <= i < lo + chunks.len()
            &&& forall|k: int|
                0 <= k < chunks.len() && lo + k != i ==> !(#[trigger] chunks[k]).truncated
                    && chunks[k].text == sanitized(rows[lo + k].text@)
            &&& !chunks[i - lo].truncated ==> chunks[i - lo].text == sanitized(rows[i].text@)
            &&& cut <==> chunks[i - lo].truncated || lo > 0 || lo + chunks.len() < rows.len()
        };
    assert(chunks[i - lo] == v.chunks@[i - lo]@);
    assert(v.chunks@[i - lo].ordinal == ordinal);
    assert(v.chunks@.last() == v.chunks@[v.chunks@.len() - 1]);
}

/// Last step of a preview: `rows` are the chunks that were read of `range`.
pub fn build_preview(
    object: ObjectId,
    known: PreviewObject,
    rec: &ContentRecord,
    ordinal: u32,
    range: ChunkRange,
    rows: &Vec<ChunkRow>,
    path: Option<String>,
) -> (r: Result<PreviewView, ApiError>)
    ensures
        r is Ok <==> exists|i: int| is_position(rows@, ordinal, i),
        r matches Err(e) ==> e@ == ApiErrorModel::not_found(no_chunk_text(object, *rec, ordinal)),
        r matches Ok(v) ==> v.path == path && previews(v, object, known, *rec, ordinal, range, rows@),
{
    let center = match position(rows, ordinal) {
        Some(i) => i,
        None => {
            let mut m = object_name(object).concat(" generation ");
            push_decimal(&mut m, rec.generation as u64);
            m.append(" has no chunk ");
            push_decimal(&mut m, ordinal as u64);
            m.append(" (");
            push_decimal(&mut m, rec.chunk_count as u64);
            m.append(" stored)");
            return Err(ApiError::not_found(m));
        },
    };
    let (chunks, cut) = window(rows, center);
    let ghost c = choose|c: ChunkModel| #[trigger]
        is_window(rows@, center as int, chunk_models(chunks@), cut, c);
    proof {
        assert(is_window(rows@, center as int, chunk_models(chunks@), cut, c));
        let s = center_span(center as int, c);
        assert(byte_len(c.text) <= MAX_RESPONSE_BYTES) by {
            let full = sanitized(rows@[center as int].text@);
            if fits(full, MAX_RESPONSE_BYTES, MAX_RESPONSE_LINES) {
            } else {
                assert(c.text == full.take(c.text.len() as int));
            }
        }
        law_window_is_contiguous_and_bounded(rows@, s);
        assert(chunk_models(chunks@).len() > 0);
        assert(chunk_models(chunks@).len() == chunks@.len());
    }
    let first: u32 = chunks[0].ordinal;
    let last: u32 = chunks[chunks.len() - 1].ordinal;
    let top: u32 = if rec.chunk_count > 0 {
        rec.chunk_count - 1
    } else {
        0
    };
    let last_stored: u32 = if top < last {
        last
    } else {
        top
    };
    let reach: u32 = if range.to < last_stored {
        range.to
    } else {
        last_stored
    };
    let truncated = cut || last < reach || first > range.from;
    let reason = match &rec.reason {
        Some(r) => Some(r.clone()),
        None => copy_opt(&rec.error),
    };
    assert(is_position(rows@, ordinal, center as int));
    let v = PreviewView {
        object_id: object,
        path,
        generation: rec.generation,
        object_generation: known.generation,
        stale: rec.generation != known.generation,
        state: rec.state,
        coverage: rec.coverage,
        indexed_bytes: rec.indexed_bytes,
        total_bytes: rec.total_bytes,
        chunk_count: rec.chunk_count,
        line_count: rec.line_count,
        encoding: copy_opt(&rec.encoding),
        reason,
        requested_ordinal: ordinal,
        chunks,
        has_more_before: first > 0,
        has_more_after: last < last_stored,
        truncated,
        limits: PreviewLimits {
            max_neighbors: MAX_NEIGHBORS,
            max_bytes: MAX_RESPONSE_BYTES,
            max_lines: MAX_RESPONSE_LINES,
        },
    };
    assert(windowed(rows@, center as int, chunk_models(v.chunks@), cut));
    assert(v.truncated == (cut || misses_rows(v, *rec, range)));
    Ok(v)
}

} // verus!
