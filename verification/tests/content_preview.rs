use eidos_service::content_preview::{
    build_preview, plan_preview, sanitize, truncate, window, ChunkRow, ContentRecord,
    PreviewObject, PreviewQuery, MAX_RESPONSE_BYTES,
};
use eidos_service::domain::{ContentState, Coverage, ObjectId};

#[test]
fn sanitizes_controls_but_keeps_whitespace_and_unicode() {
    let (out, changed) = sanitize("a\tb\r\nc\u{0}\u{1b}[31m\u{7f}\u{202e}d — 😀 漢");
    assert!(changed);
    assert_eq!(
        out,
        "a\tb\r\nc\u{fffd}\u{fffd}[31m\u{fffd}\u{fffd}d — 😀 漢"
    );
    assert_eq!(sanitize("plain text"), ("plain text".to_string(), false));
}

#[test]
fn truncate_respects_char_boundaries_and_lines() {
    let (out, cut) = truncate("😀😀😀".into(), 5, 100);
    assert!(cut);
    assert_eq!(out, "😀");
    let (out, cut) = truncate("a\nb\nc\n".into(), 1000, 2);
    assert!(cut);
    assert_eq!(out, "a\nb");
    assert_eq!(truncate("short".into(), 1000, 100), ("short".into(), false));
    // No line at all is no character at all.
    assert_eq!(truncate("abc".into(), 1000, 0), ("".into(), true));
    assert_eq!(truncate("a\nb".into(), 1000, 1), ("a".into(), true));
    assert_eq!(truncate("".into(), 0, 0), ("".into(), false));
}

fn row(ordinal: u32, text: &str) -> ChunkRow {
    ChunkRow {
        ordinal,
        byte_start: 0,
        byte_end: text.len() as u64,
        line_start: 1,
        line_end: 1,
        chars: text.chars().count() as u32,
        text: text.to_string(),
    }
}

fn record() -> ContentRecord {
    ContentRecord {
        generation: 3,
        state: ContentState::Indexed,
        coverage: Coverage::Full,
        indexed_bytes: 10,
        total_bytes: 10,
        chunk_count: 5,
        line_count: 5,
        encoding: None,
        reason: None,
        error: None,
    }
}

#[test]
fn a_window_holds_the_requested_chunk_and_its_neighbours() {
    let rows = vec![row(0, "a"), row(1, "b\u{0}"), row(2, "c")];
    let (chunks, truncated) = window(&rows, 1);
    assert_eq!(
        chunks.iter().map(|c| c.ordinal).collect::<Vec<_>>(),
        vec![0, 1, 2]
    );
    assert!(!truncated);
    assert!(chunks[1].sanitized && !chunks[0].sanitized);
    assert_eq!(chunks[1].text, "b\u{fffd}");
}

#[test]
fn a_window_is_bounded_by_bytes() {
    let big = "x".repeat(MAX_RESPONSE_BYTES);
    let rows = vec![row(0, "a"), row(1, &big), row(2, "c")];
    let (chunks, truncated) = window(&rows, 1);
    assert_eq!(chunks.len(), 1);
    assert_eq!(chunks[0].ordinal, 1);
    assert!(truncated);
}

#[test]
fn previews_are_planned_against_the_stored_generation() {
    let id = ObjectId(9);
    let q = PreviewQuery {
        generation: None,
        ordinal: 2,
        before: 1,
        after: 100,
    };
    let object = PreviewObject {
        deleted: false,
        generation: 3,
    };
    let range = plan_preview(id, Some(object), Some(&record()), q).unwrap();
    assert_eq!((range.from, range.to), (1, 6), "four neighbours at most");
    let v = build_preview(
        id,
        object,
        &record(),
        2,
        range,
        &vec![row(1, "a"), row(2, "b"), row(3, "c"), row(4, "d")],
        None,
    )
    .unwrap();
    assert_eq!(v.chunks.len(), 4);
    assert!(v.has_more_before && !v.has_more_after);
    assert!(!v.stale);
    assert_eq!(plan_preview(id, None, None, q).unwrap_err().status, 404);
    assert_eq!(
        plan_preview(id, Some(object), None, q).unwrap_err().status,
        404
    );
    let mut old = q;
    old.generation = Some(2);
    let e = plan_preview(id, Some(object), Some(&record()), old).unwrap_err();
    assert_eq!((e.status, e.kind, e.details.len()), (409, "stale_generation", 3));
    let mut far = q;
    far.ordinal = 5;
    let range = plan_preview(id, Some(object), Some(&record()), far).unwrap();
    let e = build_preview(id, object, &record(), 5, range, &vec![row(4, "d")], None).unwrap_err();
    assert_eq!(e.message, "object 9 generation 3 has no chunk 5 (5 stored)");
}
