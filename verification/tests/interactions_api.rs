use eidos_service::domain::{ObjectId, SourceId, UnixNanos};
use eidos_service::interactions_api::{
    acknowledge, canonical, check_batch, convert as convert_with, is_datable,
    resolve_query as resolve_with, InteractionAck, InteractionAction, InteractionEvent, InteractionEventBody, ParsedQuery, Query,
    QueryShape, TimeField, DAY_NS, FIRST_DAY_NS, MAX_INTERACTION_BATCH,
};
use eidos_service::api::ApiError;

const MAX_SESSION_ID_LEN: usize = 64;
const NOW: UnixNanos = UnixNanos(1_700_000_000_000_000_000);

/// Write a query out.
fn render(q: &Query) -> String {
    let list = |sep: &str, v: &Vec<Query>| {
        let parts: Vec<String> = v.iter().map(render).collect();
        format!("({})", parts.join(sep))
    };
    match q {
        Query::And { clauses } => list(" ", clauses),
        Query::Or { clauses } => list(" OR ", clauses),
        Query::Not { clause } => format!("-{}", render(clause)),
        Query::Extension { values } => format!("ext:{}", values.join(",")),
        Query::Kind { values } => format!("kind:{}", values.join(",")),
        Query::ContentState { states } => format!("state:{}", states.join(",")),
        Query::Time {
            field,
            after,
            before,
        } => format!("{field:?}:{after:?}..{before:?}"),
        Query::Host { ids, names } => format!("host:{ids:?}{names:?}"),
        Query::Object { ids } => format!("object:{ids:?}"),
        Query::Source { ids, names } => format!("source:{ids:?}{names:?}"),
        Query::Leaf { text } => text.clone(),
    }
}

fn one(word: &str) -> Query {
    if let Some(inner) = word.strip_prefix('-') {
        return Query::Not {
            clause: Box::new(one(inner)),
        };
    }
    if let Some(list) = word.strip_prefix("ext:") {
        return Query::Extension {
            values: list.split(',').map(|v| v.to_string()).collect(),
        };
    }
    if word == "mtime:>=30d" {
        // A relative clause means another instant each time it is read.
        return Query::Time {
            field: TimeField::Modified,
            after: Some(NOW.0 - 30 * DAY_NS + 17),
            before: None,
        };
    }
    Query::Leaf {
        text: word.to_string(),
    }
}

fn all(words: Vec<Query>) -> Query {
    if words.len() == 1 {
        return words.into_iter().next().unwrap();
    }
    Query::And { clauses: words }
}

/// A reader for the queries of these tests: words, alternatives and one level
/// of brackets.
fn parse(text: &str) -> ParsedQuery {
    let mut words = Vec::new();
    let mut rest = text.trim();
    while !rest.is_empty() {
        if let Some(inner) = rest.strip_prefix('(') {
            let (group, after) = inner.split_once(')').unwrap();
            words.push(alternatives(group));
            rest = after.trim_start();
        } else {
            let end = rest.find(" (").unwrap_or(rest.len());
            words.extend(alternatives_or_words(&rest[..end]));
            rest = rest[end..].trim_start();
        }
    }
    let shape = if text.contains("content:") {
        "content_ranked"
    } else if text.split_whitespace().all(|w| w.contains(':')) {
        "metadata"
    } else {
        "name"
    };
    ParsedQuery::Parsed(
        all(words),
        QueryShape {
            label: shape.to_string(),
        },
    )
}

fn alternatives(text: &str) -> Query {
    Query::Or {
        clauses: text
            .split(" OR ")
            .map(|part| all(part.split_whitespace().map(one).collect()))
            .collect(),
    }
}

fn alternatives_or_words(text: &str) -> Vec<Query> {
    if text.contains(" OR ") {
        vec![alternatives(text)]
    } else {
        text.split_whitespace().map(one).collect()
    }
}

/// The digest of a text; any injective function does for these tests.
fn query_hash(text: &str) -> String {
    format!("#{text}")
}

fn resolve_query(text: &str) -> (String, String) {
    let (canonical, shape) = resolve_with(text, parse(text), &render);
    (query_hash(&canonical), shape.label)
}

fn convert(bodies: Vec<InteractionEventBody>) -> Result<Vec<InteractionEvent>, ApiError> {
    let resolve = |text: &str| {
        let (canonical, shape) = resolve_with(text, parse(text), &render);
        (query_hash(&canonical), shape)
    };
    convert_with(bodies, NOW, MAX_SESSION_ID_LEN, &resolve)
}

#[test]
fn equivalent_queries_share_a_hash_and_a_shape() {
    let (hash, shape) = resolve_query("ext:md  readme");
    assert_eq!(shape, "name");
    assert_eq!(resolve_query("ext:md readme").0, hash);
    assert_ne!(resolve_query("ext:txt readme").0, hash);
    assert_eq!(resolve_query("content:zephyr").1, "content_ranked");
    assert_eq!(resolve_query("").1, "metadata");
}

/// One search written several ways is one group, or the evidence for it is
/// split across as many groups as there are ways to type it.
#[test]
fn clause_order_does_not_split_a_query_into_several_groups() {
    let same = |a: &str, b: &str| {
        assert_eq!(
            resolve_query(a).0,
            resolve_query(b).0,
            "{a} and {b} are the same search"
        );
        assert_eq!(resolve_query(a).1, resolve_query(b).1);
    };
    same("readme ext:md", "ext:md readme");
    same("ext:md,txt", "ext:txt,md");
    same(
        "ext:md mtime:>=30d content:zephyr",
        "content:zephyr ext:md mtime:>=30d",
    );
    same("ext:md OR ext:txt", "ext:txt OR ext:md");
    same("-ext:vhdx size:>1G", "size:>1G -ext:vhdx");
    same("(readme OR license) ext:md", "ext:md (license OR readme)");
    // A relative time clause resolves to the instant it was parsed; the same
    // query run twice must still be one group.
    same("ext:md mtime:>=30d", "mtime:>=30d ext:md");
    // Different searches still land apart.
    assert_ne!(resolve_query("ext:md readme").0, resolve_query("ext:md").0);
    assert_ne!(
        resolve_query("ext:md OR ext:txt").0,
        resolve_query("ext:md ext:txt").0
    );
}

#[test]
fn a_batch_shares_one_resolution_per_distinct_query() {
    let body = |q: &str, action: &str| InteractionEventBody {
        session_id: "s".into(),
        action: action.into(),
        q: Some(q.into()),
        object_id: Some(ObjectId(7)),
        source_id: None,
        presented_rank: Some(0),
    };
    let events = convert(vec![
        body("ext:md", "presented"),
        body("ext:md", "opened_preview"),
        body("content:zephyr", "exported"),
    ])
    .unwrap();
    assert_eq!(events[0].query_hash, events[1].query_hash);
    assert_ne!(events[0].query_hash, events[2].query_hash);
    assert_eq!(events[0].query_shape.label, "metadata");
    assert_eq!(events[2].query_shape.label, "content_ranked");
    // One instant for the whole batch, taken here rather than by a client.
    assert_eq!(events[0].ts, events[2].ts);
}

fn bad(session_id: &str, action: &str) -> InteractionEventBody {
    InteractionEventBody {
        session_id: session_id.into(),
        action: action.into(),
        q: None,
        object_id: None,
        source_id: None,
        presented_rank: None,
    }
}

#[test]
fn malformed_events_are_rejected_before_anything_is_written() {
    assert!(convert(vec![bad("s", "clicked")]).is_err());
    assert!(convert(vec![bad("  ", "presented")]).is_err());
    assert!(convert(vec![bad(&"x".repeat(MAX_SESSION_ID_LEN + 1), "presented")]).is_err());
    assert!(convert(vec![bad("s", "presented")]).is_ok());
}

#[test]
fn each_refusal_says_what_is_wrong() {
    let message = |b: InteractionEventBody| {
        let e = convert(vec![bad("s", "presented"), b]).unwrap_err();
        assert_eq!(e.status, 400);
        e.message
    };
    assert_eq!(
        message(bad("s", "clicked")),
        "unknown interaction action 'clicked'"
    );
    assert_eq!(
        message(bad("", "presented")),
        "session_id must be 1..=64 characters"
    );
    let mut long = bad("s", "presented");
    long.q = Some("y".repeat(8193));
    assert_eq!(
        message(long),
        "query text is 8193 bytes; limit is 8192"
    );
    assert!(check_batch(MAX_INTERACTION_BATCH).is_ok());
    assert_eq!(
        check_batch(501).unwrap_err().message,
        "interaction batch has 501 events; limit is 500"
    );
}

#[test]
fn one_text_is_resolved_once_even_if_the_resolver_is_moody() {
    let calls = std::cell::Cell::new(0);
    let resolve = |_: &str| {
        calls.set(calls.get() + 1);
        (format!("{}", calls.get()), QueryShape::name())
    };
    let events = convert_with(
        vec![bad("a", "presented"), bad("b", "exported")],
        NOW,
        MAX_SESSION_ID_LEN,
        &resolve,
    )
    .unwrap();
    assert_eq!(calls.get(), 1);
    assert_eq!(events[0].query_hash, events[1].query_hash);
    assert_eq!(events[1].action, InteractionAction::Exported);
    assert_eq!(events[0].session_id, "a");
    assert_eq!(events[0].source_id, None::<SourceId>);
}

#[test]
fn set_valued_clauses_and_days_are_canonical() {
    let time = |t: i64| {
        let q = Query::Time {
            field: TimeField::Modified,
            after: Some(t),
            before: None,
        };
        render(&canonical(&q, &render))
    };
    assert_eq!(time(5), time(DAY_NS - 1));
    assert_ne!(time(-1), time(0));
    assert_eq!(time(-1), time(-DAY_NS));
    let ids = |v: Vec<i64>| render(&canonical(&Query::Object { ids: v }, &render));
    assert_eq!(ids(vec![3, 1, 2]), "object:[1, 2, 3]");
    let kinds = Query::Kind {
        values: vec!["file".into(), "directory".into()],
    };
    assert_eq!(
        render(&canonical(&kinds, &render)),
        "kind:directory,file"
    );
}

#[test]
fn text_the_parser_rejects_is_digested_as_it_is() {
    let (text, shape) = resolve_with("((", ParsedQuery::Rejected, &render);
    assert_eq!((text.as_str(), shape.label.as_str()), ("((", "name"));
    let (text, shape) = resolve_with("  ", ParsedQuery::Rejected, &render);
    assert_eq!((text.as_str(), shape.label.as_str()), ("", "metadata"));
}

#[test]
fn a_full_writer_drops_the_batch() {
    assert_eq!(
        acknowledge(3, true),
        InteractionAck {
            accepted: 3,
            dropped: 0
        }
    );
    assert_eq!(
        acknowledge(3, false),
        InteractionAck {
            accepted: 0,
            dropped: 3
        }
    );
}

#[test]
fn times_before_the_first_whole_day_have_no_canonical_form() {
    let at = |t: i64| Query::Time {
        field: TimeField::Modified,
        after: Some(t),
        before: None,
    };
    assert!(is_datable(&at(FIRST_DAY_NS)));
    assert!(!is_datable(&at(FIRST_DAY_NS - 1)));
    assert!(!is_datable(&Query::Or {
        clauses: vec![
            at(0),
            Query::Not {
                clause: Box::new(at(i64::MIN)),
            },
        ],
    }));
    assert!(is_datable(&Query::And { clauses: vec![] }));
}

#[test]
fn a_canonical_query_is_the_same_at_any_depth_and_stays() {
    let host = |ids: Vec<i64>, names: &[&str]| Query::Host {
        ids,
        names: names.iter().map(|n| n.to_string()).collect(),
    };
    let time = |t: i64| Query::Time {
        field: TimeField::Created,
        after: Some(t),
        before: Some(-t - 1),
    };
    let a = Query::Or {
        clauses: vec![
            Query::Not {
                clause: Box::new(Query::And {
                    clauses: vec![host(vec![3, 1], &["b", "a"]), time(5)],
                }),
            },
            Query::Object { ids: vec![9, 2, 5] },
        ],
    };
    let b = Query::Or {
        clauses: vec![
            Query::Object { ids: vec![2, 5, 9] },
            Query::Not {
                clause: Box::new(Query::And {
                    clauses: vec![time(DAY_NS - 1), host(vec![1, 3], &["a", "b"])],
                }),
            },
        ],
    };
    let once = canonical(&a, &|q: &Query| render(q));
    assert_eq!(render(&once), render(&canonical(&b, &|q: &Query| render(q))));
    let twice = canonical(&once, &|q: &Query| render(q));
    assert_eq!(render(&twice), render(&once));
}
