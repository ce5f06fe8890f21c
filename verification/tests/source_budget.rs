use eidos_service::domain::SourceId;
use eidos_service::source_budget::{SourceBudgets, DEFAULT_BUDGET};
use eidos_service::source_map::SourceMap;

const A: SourceId = SourceId(1);

fn policies(rows: &[(i64, u32)]) -> SourceMap<u32> {
    let mut map = SourceMap::new();
    for (id, budget) in rows {
        map.insert(*id, *budget);
    }
    map
}

/// Take a unit and give it back at once.
fn passes(b: &mut SourceBudgets, id: SourceId) -> bool {
    match b.try_reserve(id) {
        Some(unit) => {
            b.release(unit);
            true
        }
        None => false,
    }
}

#[test]
fn reservations_are_bounded_by_the_budget_and_released_on_drop() {
    let mut b = SourceBudgets::new();
    b.set(A, 2);
    let mut r1 = b.try_reserve(A).expect("first unit");
    let mut r2 = b.try_reserve(A).expect("second unit");
    r1.confirm(&mut b);
    r2.confirm(&mut b);
    assert!(b.try_reserve(A).is_none(), "budget of two is exhausted");
    assert_eq!(b.reserved(A), 2);
    b.release(r1);
    assert_eq!(b.reserved(A), 1);
    assert!(passes(&mut b, A));
    b.release(r2);
    assert_eq!(b.peak_reserved(A), 2, "high-water mark is kept");
}

#[test]
fn a_unit_released_because_another_gate_refused_stays_out_of_the_peak() {
    let mut b = SourceBudgets::new();
    b.set(A, 2);
    // A claim takes a unit here and is then refused by the shared-device
    // ceiling. It never read anything, so it is not this source's peak.
    for _ in 0..8 {
        let unit = b.try_reserve(A).expect("unit");
        b.release(unit);
    }
    assert_eq!(b.peak_reserved(A), 0);

    // A losing racer holding its unit alongside a winner is still excluded.
    let mut winner = b.try_reserve(A).expect("winner");
    winner.confirm(&mut b);
    let loser = b.try_reserve(A).expect("loser");
    assert_eq!(b.reserved(A), 2, "both units are genuinely held");
    assert_eq!(b.peak_reserved(A), 1, "only the confirmed unit counts");
    b.release(loser);

    // Confirming is idempotent and survives release of the other unit.
    winner.confirm(&mut b);
    assert_eq!(b.peak_reserved(A), 1);
    b.release(winner);
    assert_eq!(b.reserved(A), 0);
    let mut again = b.try_reserve(A).expect("unit");
    again.confirm(&mut b);
    assert_eq!(
        b.peak_reserved(A),
        1,
        "the mark is a high-water, not a count"
    );
}

#[test]
fn a_source_admits_nothing_until_its_policy_is_known() {
    let mut b = SourceBudgets::new();
    assert_eq!(b.budget(A), DEFAULT_BUDGET, "reported for display");
    assert!(
        b.try_reserve(A).is_none(),
        "an unread policy must not fall back to the default budget"
    );
    b.set_all(&policies(&[(1, 1)]));
    assert!(b.try_reserve(A).is_some(), "unblocked by the refresh");
}

#[test]
fn a_refresh_keeps_live_reservations() {
    let mut b = SourceBudgets::new();
    b.set(A, 2);
    let held = b.try_reserve(A).expect("unit");
    b.set_all(&policies(&[(1, 1), (2, 4)]));
    assert_eq!(b.budget(A), 1);
    assert_eq!(b.reserved(A), 1, "refresh must not lose live reservations");
    assert!(b.try_reserve(A).is_none(), "now over the lowered budget");
    b.release(held);
    assert!(passes(&mut b, A));
    // A source dropped from the refresh is unknown again, not default.
    b.set_all(&policies(&[]));
    assert_eq!(b.budget(SourceId(2)), DEFAULT_BUDGET);
    assert!(b.try_reserve(SourceId(2)).is_none());
}

#[test]
fn a_zero_budget_admits_nothing() {
    let mut b = SourceBudgets::new();
    b.set(A, 0);
    assert!(b.try_reserve(A).is_none());
    assert_eq!(b.budget(A), 0);
}

#[test]
fn snapshots_list_sources_in_order_with_their_marks() {
    let mut b = SourceBudgets::new();
    b.set(SourceId(9), 3);
    b.set(SourceId(4), 1);
    let mut unit = b.try_reserve(SourceId(9)).unwrap();
    unit.confirm(&mut b);
    assert_eq!(unit.source(), SourceId(9));
    assert_eq!(b.reserved_total(), 1);
    let s = b.snapshot();
    assert_eq!(
        s.iter().map(|v| v.source_id.0).collect::<Vec<_>>(),
        vec![4, 9]
    );
    assert_eq!((s[1].reserved, s[1].peak_reserved), (1, 1));
    b.release(unit);
    assert_eq!(b.reserved_total(), 0);
}
