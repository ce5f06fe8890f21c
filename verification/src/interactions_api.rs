//! What a search presented and what happened next, as it is recorded.
//!
//! Three properties keep the endpoint inert:
//!
//! - **The query text is not stored.** Clients send the query they ran; it is
//!   resolved once per distinct text in the batch into a digest of its
//!   canonical rendering and a label for its shape, and only those two are
//!   kept.
//! - **The timestamp is ours.** A client clock cannot place rows in the future
//!   where the retention window would never reach them.
//! - **The write is bounded and detached.** Past a small number of waiting
//!   batches, batches are dropped and reported as dropped.

use crate::api::{ApiError, ApiErrorModel};
use crate::domain::{ObjectId, SourceId, UnixNanos};
use crate::key_list::{
    lemma_text_lt_irreflexive, lemma_text_lt_total, lemma_text_lt_transitive, rank, text_lt, texts,
    Rank,
};
use crate::text::{byte_len, decimal, push_decimal, same, trim, trimmed};
use vstd::prelude::*;
use vstd::relations::*;
use vstd::seq_lib::*;
use vstd::string::*;

verus! {

// ----- orders ---------------------------------------------------------------

pub open spec fn text_leq(a: Seq<char>, b: Seq<char>) -> bool {
    a == b || text_lt(a, b)
}

/// The same texts in ascending order.
pub open spec fn sorted_texts(s: Seq<Seq<char>>) -> Seq<Seq<char>> {
    s.sort_by(|a: Seq<char>, b: Seq<char>| text_leq(a, b))
}

/// The same numbers in ascending order.
pub open spec fn sorted_ids(s: Seq<i64>) -> Seq<i64> {
    s.sort_by(|a: i64, b: i64| a <= b)
}

proof fn lemma_text_order()
    ensures
        total_ordering(|a: Seq<char>, b: Seq<char>| text_leq(a, b)),
{
    assert forall|a: Seq<char>, b: Seq<char>| #[trigger] text_leq(a, b) && #[trigger] text_leq(
        b,
        a,
    ) implies a == b by {
        if a != b {
            lemma_text_lt_transitive(a, b, a);
            lemma_text_lt_irreflexive(a);
        }
    }
    assert forall|a: Seq<char>, b: Seq<char>, c: Seq<char>| #[trigger]
        text_leq(a, b) && #[trigger] text_leq(b, c) implies text_leq(a, c) by {
        if a != b && b != c {
            lemma_text_lt_transitive(a, b, c);
        }
    }
    assert forall|a: Seq<char>, b: Seq<char>| #[trigger] text_leq(a, b) || text_leq(b, a) by {
        lemma_text_lt_total(a, b);
    }
}

// ----- queries --------------------------------------------------------------

#[derive(Debug, Clone, Copy, PartialEq, Eq, Structural)]
pub enum TimeField {
    Modified,
    Created,
    Accessed,
}

/// A parsed query. Clauses that have no order of their own and no time are
/// carried as they were written.
#[derive(Debug)]
pub enum Query {
    And { clauses: Vec<Query> },
    Or { clauses: Vec<Query> },
    Not { clause: Box<Query> },
    Extension { values: Vec<String> },
    /// Object kinds, by their labels.
    Kind { values: Vec<String> },
    /// Content states, by their labels.
    ContentState { states: Vec<String> },
    Time { field: TimeField, after: Option<i64>, before: Option<i64> },
    Host { ids: Vec<i64>, names: Vec<String> },
    Object { ids: Vec<i64> },
    Source { ids: Vec<i64>, names: Vec<String> },
    Leaf { text: String },
}

pub enum QueryModel {
    And(Seq<QueryModel>),
    Or(Seq<QueryModel>),
    Not(Box<QueryModel>),
    Extension(Seq<Seq<char>>),
    Kind(Seq<Seq<char>>),
    ContentState(Seq<Seq<char>>),
    Time(TimeField, Option<i64>, Option<i64>),
    Host(Seq<i64>, Seq<Seq<char>>),
    Object(Seq<i64>),
    Source(Seq<i64>, Seq<Seq<char>>),
    Leaf(Seq<char>),
}

pub open spec fn model(q: Query) -> QueryModel
    decreases q, 0nat,
{
    match q {
        Query::And { clauses } => QueryModel::And(models(clauses@)),
        Query::Or { clauses } => QueryModel::Or(models(clauses@)),
        Query::Not { clause } => QueryModel::Not(Box::new(model(*clause))),
        Query::Extension { values } => QueryModel::Extension(texts(values@)),
        Query::Kind { values } => QueryModel::Kind(texts(values@)),
        Query::ContentState { states } => QueryModel::ContentState(texts(states@)),
        Query::Time { field, after, before } => QueryModel::Time(field, after, before),
        Query::Host { ids, names } => QueryModel::Host(ids@, texts(names@)),
        Query::Object { ids } => QueryModel::Object(ids@),
        Query::Source { ids, names } => QueryModel::Source(ids@, texts(names@)),
        Query::Leaf { text } => QueryModel::Leaf(text@),
    }
}

/// The models of a list of queries.
pub open spec fn models(v: Seq<Query>) -> Seq<QueryModel>
    decreases v, v.len(),
{
    if v.len() == 0 {
        Seq::empty()
    } else {
        models(v.drop_last()).push(model(v.last()))
    }
}

/// How queries are written out.
pub type Rendering = spec_fn(QueryModel) -> Seq<char>;

/// What a list of queries is written as.
pub open spec fn renderings(s: Seq<QueryModel>, r: Rendering) -> Seq<Seq<char>> {
    s.map_values(r)
}

// ----- the canonical form ---------------------------------------------------

pub const DAY_NS: i64 = 86_400_000_000_000;

/// The earliest time whose day starts within the range of the clock.
pub const FIRST_DAY_NS: i64 = -9_223_286_400_000_000_000;

/// The start of the day that a time is on, before 1970 as after it.
pub open spec fn day_start(t: i64) -> i64 {
    ((t as int / DAY_NS as int) * DAY_NS) as i64
}

pub open spec fn opt_day_start(t: Option<i64>) -> Option<i64> {
    match t {
        Some(t) => Some(day_start(t)),
        None => None,
    }
}

/// Put a query behind all siblings that are not written after it.
pub open spec fn placed(s: Seq<QueryModel>, q: QueryModel, r: Rendering) -> Seq<QueryModel>
    decreases s.len(),
{
    if s.len() > 0 && text_lt(r(q), r(s.last())) {
        placed(s.drop_last(), q, r).push(s.last())
    } else {
        s.push(q)
    }
}

/// Siblings in the order of what they are written as; equally written ones
/// keep their order.
pub open spec fn ordered(s: Seq<QueryModel>, r: Rendering) -> Seq<QueryModel>
    decreases s.len(),
{
    if s.len() == 0 {
        s
    } else {
        placed(ordered(s.drop_last(), r), s.last(), r)
    }
}

/// The query in a form whose rendering does not depend on the order things
/// were typed in.
///
/// `and` and `or` are commutative and their set-valued clauses are sets, so
/// siblings are ordered by their own canonical rendering, bottom-up. Time
/// bounds are floored to the day: a relative clause parses to the instant it
/// was typed, so without this two runs of one query minutes apart would never
/// group at all.
pub open spec fn canon(q: QueryModel, r: Rendering) -> QueryModel
    decreases q, 0nat,
{
    match q {
        QueryModel::And(c) => QueryModel::And(ordered(canons(c, r), r)),
        QueryModel::Or(c) => QueryModel::Or(ordered(canons(c, r), r)),
        QueryModel::Not(c) => QueryModel::Not(Box::new(canon(*c, r))),
        QueryModel::Extension(v) => QueryModel::Extension(sorted_texts(v)),
        QueryModel::Kind(v) => QueryModel::Kind(sorted_texts(v)),
        QueryModel::ContentState(v) => QueryModel::ContentState(sorted_texts(v)),
        QueryModel::Time(f, a, b) => QueryModel::Time(f, opt_day_start(a), opt_day_start(b)),
        QueryModel::Host(ids, names) => QueryModel::Host(sorted_ids(ids), sorted_texts(names)),
        QueryModel::Object(ids) => QueryModel::Object(sorted_ids(ids)),
        QueryModel::Source(ids, names) => QueryModel::Source(sorted_ids(ids), sorted_texts(names)),
        QueryModel::Leaf(t) => QueryModel::Leaf(t),
    }
}

/// The canonical forms of a list of siblings, in the order they came.
pub open spec fn canons(s: Seq<QueryModel>, r: Rendering) -> Seq<QueryModel>
    decreases s, s.len(),
{
    if s.len() == 0 {
        Seq::empty()
    } else {
        canons(s.drop_last(), r).push(canon(s.last(), r))
    }
}

/// Whether every time bound of a query has a day that starts within the range
/// of the clock.
pub open spec fn datable(q: QueryModel) -> bool
    decreases q, 0nat,
{
    match q {
        QueryModel::And(c) => all_datable(c),
        QueryModel::Or(c) => all_datable(c),
        QueryModel::Not(c) => datable(*c),
        QueryModel::Time(_, a, b) => (a matches Some(t) ==> t >= FIRST_DAY_NS) && (b matches Some(
            t,
        ) ==> t >= FIRST_DAY_NS),
        _ => true,
    }
}

pub open spec fn all_datable(s: Seq<QueryModel>) -> bool
    decreases s, s.len(),
{
    s.len() == 0 || (all_datable(s.drop_last()) && datable(s.last()))
}

proof fn lemma_all_datable(s: Seq<QueryModel>, i: int)
    requires
        all_datable(s),
        0 <= i < s.len(),
    ensures
        datable(s[i]),
    decreases s.len(),
{
    if i < s.len() - 1 {
        lemma_all_datable(s.drop_last(), i);
    }
}

proof fn lemma_models(v: Seq<Query>)
    ensures
        models(v).len() == v.len(),
        forall|i: int| 0 <= i < v.len() ==> #[trigger] models(v)[i] == model(v[i]),
    decreases v.len(),
{
    if v.len() > 0 {
        let init = v.drop_last();
        lemma_models(init);
        assert forall|i: int| 0 <= i < v.len() implies #[trigger] models(v)[i] == model(v[i]) by {
            if i < init.len() {
                assert(models(init)[i] == model(init[i]));
            }
        }
    }
}

proof fn lemma_canons(s: Seq<QueryModel>, r: Rendering)
    ensures
        canons(s, r).len() == s.len(),
        forall|i: int| 0 <= i < s.len() ==> #[trigger] canons(s, r)[i] == canon(s[i], r),
    decreases s.len(),
{
    if s.len() > 0 {
        let init = s.drop_last();
        lemma_canons(init, r);
        assert forall|i: int| 0 <= i < s.len() implies #[trigger] canons(s, r)[i] == canon(
            s[i],
            r,
        ) by {
            if i < init.len() {
                assert(canons(init, r)[i] == canon(init[i], r));
            }
        }
    }
}

/// Where [`placed`] puts a query.
proof fn lemma_placed(s: Seq<QueryModel>, q: QueryModel, r: Rendering, at: int)
    requires
        0 <= at <= s.len(),
        forall|j: int| at <= j < s.len() ==> text_lt(r(q), r(#[trigger] s[j])),
        at > 0 ==> !text_lt(r(q), r(s[at - 1])),
    ensures
        placed(s, q, r) == s.insert(at, q),
    decreases s.len(),
{
    if at < s.len() {
        assert(text_lt(r(q), r(s[s.len() - 1])));
        let init = s.drop_last();
        lemma_placed(init, q, r, at);
        assert(init.insert(at, q).push(s.last()) =~= s.insert(at, q));
    } else {
        assert(s.insert(at, q) =~= s.push(q));
    }
}

// ----- the law --------------------------------------------------------------

/// Whether every sibling is written no later than `b`.
spec fn bounded(s: Seq<QueryModel>, r: Rendering, b: Seq<char>) -> bool {
    forall|j: int| 0 <= j < s.len() ==> text_leq(r(#[trigger] s[j]), b)
}

proof fn lemma_placed_keys(s: Seq<QueryModel>, q: QueryModel, r: Rendering)
    requires
        sorted_by(renderings(s, r), |a: Seq<char>, b: Seq<char>| text_leq(a, b)),
    ensures
        placed(s, q, r).len() == s.len() + 1,
        sorted_by(renderings(placed(s, q, r), r), |a: Seq<char>, b: Seq<char>| text_leq(a, b)),
        renderings(placed(s, q, r), r).to_multiset() == renderings(s, r).to_multiset().insert(r(q)),
        forall|b: Seq<char>| #[trigger]
            bounded(s, r, b) && text_leq(r(q), b) ==> bounded(placed(s, q, r), r, b),
    decreases s.len(),
{
    broadcast use group_to_multiset_ensures;

    let leq = |a: Seq<char>, b: Seq<char>| text_leq(a, b);
    let k = renderings(s, r);
    let p = placed(s, q, r);
    let pk = renderings(p, r);
    lemma_text_order();
    if s.len() > 0 && text_lt(r(q), r(s.last())) {
        let init = s.drop_last();
        let ik = renderings(init, r);
        assert(ik =~= k.drop_last());
        assert(sorted_by(ik, leq)) by {
            assert forall|i: int, j: int| 0 <= i < j < ik.len() implies #[trigger] leq(
                ik[i],
                ik[j],
            ) by {
                assert(leq(k[i], k[j]));
            }
        }
        lemma_placed_keys(init, q, r);
        let pi = placed(init, q, r);
        let last = r(s.last());
        assert forall|j: int| 0 <= j < init.len() implies text_leq(r(#[trigger] init[j]), last) by {
            assert(leq(k[j], k[s.len() - 1]));
        }
        assert(bounded(init, r, last));
        assert(pk =~= renderings(pi, r).push(last));
        assert forall|i: int, j: int| 0 <= i < j < pk.len() implies #[trigger] leq(pk[i], pk[j]) by {
            if j < pi.len() {
                assert(leq(renderings(pi, r)[i], renderings(pi, r)[j]));
            } else {
                assert(text_leq(r(pi[i]), last));
            }
        }
        assert(k =~= ik.push(last));
        assert(pk.to_multiset() =~= k.to_multiset().insert(r(q)));
        assert forall|b: Seq<char>| #[trigger]
            bounded(s, r, b) && text_leq(r(q), b) implies bounded(p, r, b) by {
            assert forall|j: int| 0 <= j < init.len() implies text_leq(r(#[trigger] init[j]), b) by {
                assert(text_leq(r(s[j]), b));
            }
            assert(bounded(init, r, b));
            assert forall|j: int| 0 <= j < p.len() implies text_leq(r(#[trigger] p[j]), b) by {
                if j < pi.len() {
                    assert(p[j] == pi[j]);
                } else {
                    assert(text_leq(r(s[s.len() - 1]), b));
                }
            }
        }
    } else {
        assert(pk =~= k.push(r(q)));
        assert forall|i: int, j: int| 0 <= i < j < pk.len() implies #[trigger] leq(pk[i], pk[j]) by {
            if j < k.len() {
                assert(leq(k[i], k[j]));
            } else {
                lemma_text_lt_total(r(q), r(s.last()));
                assert(text_leq(r(s.last()), r(q)));
                if i < s.len() - 1 {
                    assert(leq(k[i], k[s.len() - 1]));
                }
                assert(text_leq(k[i], r(s.last())));
                assert(leq(k[i], r(s.last())));
                assert(leq(r(s.last()), r(q)));
            }
        }
        assert forall|b: Seq<char>| #[trigger]
            bounded(s, r, b) && text_leq(r(q), b) implies bounded(p, r, b) by {
            assert forall|j: int| 0 <= j < p.len() implies text_leq(r(#[trigger] p[j]), b) by {
                if j < s.len() {
                    assert(text_leq(r(s[j]), b));
                }
            }
        }
    }
}

/// Ordered siblings are in the order of what they are written as, and are the
/// same siblings.
pub proof fn lemma_ordered_keys(s: Seq<QueryModel>, r: Rendering)
    ensures
        ordered(s, r).len() == s.len(),
        sorted_by(renderings(ordered(s, r), r), |a: Seq<char>, b: Seq<char>| text_leq(a, b)),
        renderings(ordered(s, r), r).to_multiset() == renderings(s, r).to_multiset(),
    decreases s.len(),
{
    broadcast use group_to_multiset_ensures;

    if s.len() > 0 {
        let init = s.drop_last();
        lemma_ordered_keys(init, r);
        lemma_placed_keys(ordered(init, r), s.last(), r);
        assert(renderings(s, r) =~= renderings(init, r).push(r(s.last())));
    }
}

/// What siblings are written as depends only on which they are.
proof fn lemma_same_siblings(a: Seq<QueryModel>, b: Seq<QueryModel>, f: Rendering)
    requires
        a.to_multiset() == b.to_multiset(),
    ensures
        a.map_values(f).to_multiset() == b.map_values(f).to_multiset(),
    decreases a.len(),
{
    broadcast use group_to_multiset_ensures;

    assert(a.len() == a.to_multiset().len());
    assert(b.len() == b.to_multiset().len());
    if a.len() > 0 {
        let x = a.last();
        let init = a.drop_last();
        assert(a =~= init.push(x));
        assert(a.contains(x)) by {
            assert(a[a.len() - 1] == x);
        }
        assert(b.to_multiset().count(x) > 0);
        assert(b.contains(x));
        let i = b.index_of(x);
        let rest = b.remove(i);
        assert(init.to_multiset() =~= a.to_multiset().remove(x));
        assert(rest.to_multiset() =~= b.to_multiset().remove(x));
        lemma_same_siblings(init, rest, f);
        assert(a.map_values(f) =~= init.map_values(f).push(f(x)));
        assert(rest.map_values(f) =~= b.map_values(f).remove(i));
        assert(b.map_values(f)[i] == f(x));
        let m = b.map_values(f);
        assert(m =~= m.remove(i).insert(i, f(x)));
        to_multiset_insert(m.remove(i), i, f(x));
        assert(m.to_multiset() == rest.map_values(f).to_multiset().insert(f(x)));
    } else {
        assert(b.len() == 0);
        assert(a.map_values(f) =~= b.map_values(f));
    }
}

/// A rendering that writes `and`, `or` and `not` from what their clauses are
/// written as.
pub open spec fn compositional(r: Rendering) -> bool {
    &&& forall|a: Seq<QueryModel>, b: Seq<QueryModel>|
        #![trigger renderings(a, r), renderings(b, r)]
        renderings(a, r) == renderings(b, r) ==> r(QueryModel::And(a)) == r(QueryModel::And(b)) && r(
            QueryModel::Or(a),
        ) == r(QueryModel::Or(b))
    &&& forall|a: QueryModel, b: QueryModel|
        #![trigger r(a), r(b)]
        r(a) == r(b) ==> r(QueryModel::Not(Box::new(a))) == r(QueryModel::Not(Box::new(b)))
}

proof fn lemma_sorted_texts(s: Seq<Seq<char>>)
    ensures
        sorted_by(sorted_texts(s), |a: Seq<char>, b: Seq<char>| text_leq(a, b)),
        sorted_texts(s).to_multiset() == s.to_multiset(),
{
    lemma_text_order();
    s.lemma_sort_by_ensures(|a: Seq<char>, b: Seq<char>| text_leq(a, b));
}

proof fn lemma_sorted_ids(s: Seq<i64>)
    ensures
        sorted_by(sorted_ids(s), |a: i64, b: i64| a <= b),
        sorted_ids(s).to_multiset() == s.to_multiset(),
{
    s.lemma_sort_by_ensures(|a: i64, b: i64| a <= b);
}

proof fn lemma_same_texts(a: Seq<Seq<char>>, b: Seq<Seq<char>>)
    requires
        a.to_multiset() == b.to_multiset(),
    ensures
        sorted_texts(a) == sorted_texts(b),
{
    lemma_text_order();
    lemma_sorted_texts(a);
    lemma_sorted_texts(b);
    lemma_sorted_unique(
        sorted_texts(a),
        sorted_texts(b),
        |x: Seq<char>, y: Seq<char>| text_leq(x, y),
    );
}

proof fn lemma_same_ids(a: Seq<i64>, b: Seq<i64>)
    requires
        a.to_multiset() == b.to_multiset(),
    ensures
        sorted_ids(a) == sorted_ids(b),
{
    lemma_sorted_ids(a);
    lemma_sorted_ids(b);
    lemma_sorted_unique(sorted_ids(a), sorted_ids(b), |x: i64, y: i64| x <= y);
}

/// Siblings whose canonical forms are written as the same texts, in whatever
/// order, are written the same once they are ordered.
proof fn lemma_siblings_written(a: Seq<QueryModel>, b: Seq<QueryModel>, r: Rendering)
    requires
        renderings(canons(a, r), r).to_multiset() == renderings(canons(b, r), r).to_multiset(),
    ensures
        renderings(ordered(canons(a, r), r), r) == renderings(ordered(canons(b, r), r), r),
{
    let ca = canons(a, r);
    let cb = canons(b, r);
    lemma_ordered_keys(ca, r);
    lemma_ordered_keys(cb, r);
    lemma_text_order();
    lemma_sorted_unique(
        renderings(ordered(ca, r), r),
        renderings(ordered(cb, r), r),
        |x: Seq<char>, y: Seq<char>| text_leq(x, y),
    );
}

/// One list of siblings is another in a different order.
proof fn lemma_siblings_reordered(a: Seq<QueryModel>, b: Seq<QueryModel>, r: Rendering)
    requires
        a.to_multiset() == b.to_multiset(),
    ensures
        renderings(canons(a, r), r).to_multiset() == renderings(canons(b, r), r).to_multiset(),
{
    let f: Rendering = |q: QueryModel| r(canon(q, r));
    lemma_canons(a, r);
    lemma_canons(b, r);
    assert(renderings(canons(a, r), r) =~= a.map_values(f));
    assert(renderings(canons(b, r), r) =~= b.map_values(f));
    lemma_same_siblings(a, b, f);
}

/// The canonical rendering of `and` and `or` does not depend on the order of
/// their clauses.
pub proof fn law_clause_order_does_not_matter(
    a: Seq<QueryModel>,
    b: Seq<QueryModel>,
    r: Rendering,
)
    requires
        compositional(r),
        a.to_multiset() == b.to_multiset(),
    ensures
        r(canon(QueryModel::And(a), r)) == r(canon(QueryModel::And(b), r)),
        r(canon(QueryModel::Or(a), r)) == r(canon(QueryModel::Or(b), r)),
{
    lemma_siblings_reordered(a, b, r);
    lemma_siblings_written(a, b, r);
}

/// The values of a set-valued clause have no order either.
pub proof fn law_value_order_does_not_matter(
    a: Seq<Seq<char>>,
    b: Seq<Seq<char>>,
    i: Seq<i64>,
    j: Seq<i64>,
    r: Rendering,
)
    requires
        a.to_multiset() == b.to_multiset(),
        i.to_multiset() == j.to_multiset(),
    ensures
        canon(QueryModel::Extension(a), r) == canon(QueryModel::Extension(b), r),
        canon(QueryModel::Kind(a), r) == canon(QueryModel::Kind(b), r),
        canon(QueryModel::ContentState(a), r) == canon(QueryModel::ContentState(b), r),
        canon(QueryModel::Host(i, a), r) == canon(QueryModel::Host(j, b), r),
        canon(QueryModel::Object(i), r) == canon(QueryModel::Object(j), r),
        canon(QueryModel::Source(i, a), r) == canon(QueryModel::Source(j, b), r),
{
    lemma_same_texts(a, b);
    lemma_same_ids(i, j);
}

/// Two time bounds on one day, before 1970 as after it, or none.
pub open spec fn same_day(a: Option<i64>, b: Option<i64>) -> bool {
    match (a, b) {
        (Some(t), Some(u)) => t as int / DAY_NS as int == u as int / DAY_NS as int,
        (None, None) => true,
        _ => false,
    }
}

/// Two runs of a relative time clause on one day are one search.
pub proof fn law_one_day_is_one_search(
    f: TimeField,
    after: Option<i64>,
    before: Option<i64>,
    later_after: Option<i64>,
    later_before: Option<i64>,
    r: Rendering,
)
    requires
        same_day(after, later_after),
        same_day(before, later_before),
    ensures
        canon(QueryModel::Time(f, after, before), r) == canon(
            QueryModel::Time(f, later_after, later_before),
            r,
        ),
{
}

/// The same siblings, in whatever order.
pub open spec fn reordered(a: Seq<QueryModel>, b: Seq<QueryModel>) -> bool {
    a.to_multiset() == b.to_multiset()
}

/// One search written in two ways: at any depth, the clauses of an `and` or an
/// `or` and the values of a set-valued clause may stand in another order, and a
/// time bound may lie elsewhere on its day.
pub open spec fn same_search(a: QueryModel, b: QueryModel) -> bool
    decreases a, 0nat,
{
    match a {
        QueryModel::And(x) => b matches QueryModel::And(y) && exists|p: Seq<QueryModel>| #[trigger]
            reordered(p, y) && same_siblings(x, p),
        QueryModel::Or(x) => b matches QueryModel::Or(y) && exists|p: Seq<QueryModel>| #[trigger]
            reordered(p, y) && same_siblings(x, p),
        QueryModel::Not(x) => b matches QueryModel::Not(y) && same_search(*x, *y),
        QueryModel::Extension(v) => b matches QueryModel::Extension(w) && v.to_multiset()
            == w.to_multiset(),
        QueryModel::Kind(v) => b matches QueryModel::Kind(w) && v.to_multiset() == w.to_multiset(),
        QueryModel::ContentState(v) => b matches QueryModel::ContentState(w) && v.to_multiset()
            == w.to_multiset(),
        QueryModel::Time(f, t, u) => b matches QueryModel::Time(g, x, y) && f == g && same_day(t, x)
            && same_day(u, y),
        QueryModel::Host(i, v) => b matches QueryModel::Host(j, w) && i.to_multiset()
            == j.to_multiset() && v.to_multiset() == w.to_multiset(),
        QueryModel::Object(i) => b matches QueryModel::Object(j) && i.to_multiset()
            == j.to_multiset(),
        QueryModel::Source(i, v) => b matches QueryModel::Source(j, w) && i.to_multiset()
            == j.to_multiset() && v.to_multiset() == w.to_multiset(),
        QueryModel::Leaf(_) => a == b,
    }
}

/// Siblings of which each is one search with its counterpart.
pub open spec fn same_siblings(a: Seq<QueryModel>, b: Seq<QueryModel>) -> bool
    decreases a, a.len(),
{
    &&& a.len() == b.len()
    &&& a.len() == 0 || (same_siblings(a.drop_last(), b.drop_last()) && same_search(
        a.last(),
        b.last(),
    ))
}

/// One search written several ways is one group: its canonical rendering is
/// the same however the clauses and values were ordered, at any depth, and
/// whenever on its day each time bound lies.
pub proof fn law_one_search_is_one_group(a: QueryModel, b: QueryModel, r: Rendering)
    requires
        compositional(r),
        same_search(a, b),
    ensures
        r(canon(a, r)) == r(canon(b, r)),
    decreases a, 0nat,
{
    match (a, b) {
        (QueryModel::And(x), QueryModel::And(y)) => {
            lemma_one_group_of_siblings(x, y, r);
        },
        (QueryModel::Or(x), QueryModel::Or(y)) => {
            lemma_one_group_of_siblings(x, y, r);
        },
        (QueryModel::Not(x), QueryModel::Not(y)) => {
            law_one_search_is_one_group(*x, *y, r);
        },
        (QueryModel::Extension(v), QueryModel::Extension(w)) => {
            lemma_same_texts(v, w);
        },
        (QueryModel::Kind(v), QueryModel::Kind(w)) => {
            lemma_same_texts(v, w);
        },
        (QueryModel::ContentState(v), QueryModel::ContentState(w)) => {
            lemma_same_texts(v, w);
        },
        (QueryModel::Host(i, v), QueryModel::Host(j, w)) => {
            lemma_same_ids(i, j);
            lemma_same_texts(v, w);
        },
        (QueryModel::Object(i), QueryModel::Object(j)) => {
            lemma_same_ids(i, j);
        },
        (QueryModel::Source(i, v), QueryModel::Source(j, w)) => {
            lemma_same_ids(i, j);
            lemma_same_texts(v, w);
        },
        _ => {},
    }
}

proof fn lemma_one_group_of_siblings(x: Seq<QueryModel>, y: Seq<QueryModel>, r: Rendering)
    requires
        compositional(r),
        exists|p: Seq<QueryModel>| #[trigger]
            reordered(p, y) && same_siblings(x, p),
    ensures
        renderings(ordered(canons(x, r), r), r) == renderings(ordered(canons(y, r), r), r),
    decreases x, x.len() + 1,
{
    let p = choose|p: Seq<QueryModel>| #[trigger] reordered(p, y) && same_siblings(x, p);
    lemma_siblings_written_alike(x, p, r);
    lemma_siblings_reordered(p, y, r);
    lemma_siblings_written(x, y, r);
}

proof fn lemma_siblings_written_alike(a: Seq<QueryModel>, b: Seq<QueryModel>, r: Rendering)
    requires
        compositional(r),
        same_siblings(a, b),
    ensures
        renderings(canons(a, r), r) == renderings(canons(b, r), r),
    decreases a, a.len(),
{
    if a.len() > 0 {
        lemma_siblings_written_alike(a.drop_last(), b.drop_last(), r);
        law_one_search_is_one_group(a.last(), b.last(), r);
        let (ia, ib) = (canons(a.drop_last(), r), canons(b.drop_last(), r));
        assert(renderings(canons(a, r), r) =~= renderings(ia, r).push(r(canon(a.last(), r))));
        assert(renderings(canons(b, r), r) =~= renderings(ib, r).push(r(canon(b.last(), r))));
    } else {
        assert(renderings(canons(a, r), r) =~= renderings(canons(b, r), r));
    }
}

/// Siblings that are in order already stay as they are.
proof fn lemma_ordered_settled(s: Seq<QueryModel>, r: Rendering)
    requires
        sorted_by(renderings(s, r), |a: Seq<char>, b: Seq<char>| text_leq(a, b)),
    ensures
        ordered(s, r) == s,
    decreases s.len(),
{
    let leq = |a: Seq<char>, b: Seq<char>| text_leq(a, b);
    if s.len() > 0 {
        let init = s.drop_last();
        let k = renderings(s, r);
        let ik = renderings(init, r);
        assert forall|i: int, j: int| 0 <= i < j < ik.len() implies #[trigger] leq(ik[i], ik[j]) by {
            assert(ik[i] == k[i] && ik[j] == k[j]);
            assert(leq(k[i], k[j]));
        }
        lemma_ordered_settled(init, r);
        if init.len() > 0 {
            assert(leq(k[s.len() - 2], k[s.len() - 1]));
            let (before, last) = (r(init.last()), r(s.last()));
            assert(text_leq(before, last));
            if text_lt(last, before) {
                lemma_text_lt_irreflexive(last);
                if before != last {
                    lemma_text_lt_transitive(last, before, last);
                }
            }
        }
        assert(init.push(s.last()) =~= s);
    }
}

/// Ordering siblings adds none.
proof fn lemma_ordered_members(s: Seq<QueryModel>, r: Rendering)
    ensures
        forall|i: int| 0 <= i < ordered(s, r).len() ==> s.contains(#[trigger] ordered(s, r)[i]),
    decreases s.len(),
{
    if s.len() > 0 {
        let init = s.drop_last();
        lemma_ordered_members(init, r);
        lemma_placed_members(ordered(init, r), s.last(), r);
        let o = ordered(s, r);
        assert forall|i: int| 0 <= i < o.len() implies s.contains(#[trigger] o[i]) by {
            if o[i] == s.last() {
                assert(s[s.len() - 1] == o[i]);
            } else {
                let before = ordered(init, r);
                let j = choose|j: int| 0 <= j < before.len() && before[j] == o[i];
                assert(init.contains(before[j]));
                let k = choose|k: int| 0 <= k < init.len() && init[k] == before[j];
                assert(s[k] == o[i]);
            }
        }
    }
}

proof fn lemma_placed_members(s: Seq<QueryModel>, q: QueryModel, r: Rendering)
    ensures
        forall|i: int|
            0 <= i < placed(s, q, r).len() ==> (#[trigger] placed(s, q, r)[i] == q || s.contains(
                placed(s, q, r)[i],
            )),
    decreases s.len(),
{
    let p = placed(s, q, r);
    if s.len() > 0 && text_lt(r(q), r(s.last())) {
        let init = s.drop_last();
        lemma_placed_members(init, q, r);
        let pi = placed(init, q, r);
        assert forall|i: int| 0 <= i < p.len() implies (#[trigger] p[i] == q || s.contains(
            p[i],
        )) by {
            if i < pi.len() {
                assert(p[i] == pi[i]);
                if pi[i] != q {
                    let j = choose|j: int| 0 <= j < init.len() && init[j] == pi[i];
                    assert(s[j] == p[i]);
                }
            } else {
                assert(s[s.len() - 1] == p[i]);
            }
        }
    } else {
        assert forall|i: int| 0 <= i < p.len() implies (#[trigger] p[i] == q || s.contains(
            p[i],
        )) by {
            if i < s.len() {
                assert(s[i] == p[i]);
            }
        }
    }
}

proof fn lemma_day_start_settled(t: Option<i64>)
    requires
        t matches Some(t) ==> t >= FIRST_DAY_NS,
    ensures
        opt_day_start(opt_day_start(t)) == opt_day_start(t),
{
    if let Some(t) = t {
        let d = t as int / DAY_NS as int;
        assert(d * DAY_NS <= t) by (nonlinear_arith)
            requires
                d == t as int / DAY_NS as int,
                DAY_NS > 0,
        ;
        assert(d >= -106_751) by (nonlinear_arith)
            requires
                d == t as int / DAY_NS as int,
                t >= -9_223_286_400_000_000_000,
                DAY_NS == 86_400_000_000_000,
        ;
        assert((d * DAY_NS) / (DAY_NS as int) == d) by (nonlinear_arith)
            requires
                DAY_NS > 0,
        ;
    }
}

proof fn lemma_siblings_settled(c: Seq<QueryModel>, r: Rendering)
    requires
        all_datable(c),
    ensures
        forall|i: int|
            0 <= i < c.len() ==> #[trigger] canon(canon(c[i], r), r) == canon(c[i], r),
    decreases c, c.len(),
{
    if c.len() > 0 {
        lemma_siblings_settled(c.drop_last(), r);
        law_a_canonical_query_stays(c.last(), r);
        assert forall|i: int| 0 <= i < c.len() implies #[trigger] canon(canon(c[i], r), r) == canon(
            c[i],
            r,
        ) by {
            if i < c.len() - 1 {
                let x = c.drop_last()[i];
                assert(canon(canon(x, r), r) == canon(x, r));
            }
        }
    }
}

proof fn lemma_clauses_settled(c: Seq<QueryModel>, r: Rendering)
    requires
        all_datable(c),
    ensures
        ordered(canons(ordered(canons(c, r), r), r), r) == ordered(canons(c, r), r),
    decreases c, c.len() + 1,
{
    let k = canons(c, r);
    let o = ordered(k, r);
    lemma_siblings_settled(c, r);
    lemma_canons(c, r);
    lemma_canons(o, r);
    lemma_ordered_keys(k, r);
    lemma_ordered_members(k, r);
    assert forall|i: int| 0 <= i < o.len() implies #[trigger] canons(o, r)[i] == o[i] by {
        assert(k.contains(o[i]));
        let j = choose|j: int| 0 <= j < k.len() && k[j] == o[i];
        assert(k[j] == canon(c[j], r));
        assert(canon(canon(c[j], r), r) == canon(c[j], r));
    }
    assert(canons(o, r) =~= o);
    lemma_ordered_settled(o, r);
}

/// The canonical form of a canonical query is that query.
pub proof fn law_a_canonical_query_stays(q: QueryModel, r: Rendering)
    requires
        datable(q),
    ensures
        canon(canon(q, r), r) == canon(q, r),
    decreases q, 0nat,
{
    match q {
        QueryModel::And(c) => {
            lemma_clauses_settled(c, r);
        },
        QueryModel::Or(c) => {
            lemma_clauses_settled(c, r);
        },
        QueryModel::Not(c) => {
            law_a_canonical_query_stays(*c, r);
        },
        QueryModel::Extension(v) => {
            lemma_sorted_texts(v);
            lemma_same_texts(sorted_texts(v), v);
        },
        QueryModel::Kind(v) => {
            lemma_sorted_texts(v);
            lemma_same_texts(sorted_texts(v), v);
        },
        QueryModel::ContentState(v) => {
            lemma_sorted_texts(v);
            lemma_same_texts(sorted_texts(v), v);
        },
        QueryModel::Time(_, a, b) => {
            lemma_day_start_settled(a);
            lemma_day_start_settled(b);
        },
        QueryModel::Host(i, v) => {
            lemma_sorted_ids(i);
            lemma_same_ids(sorted_ids(i), i);
            lemma_sorted_texts(v);
            lemma_same_texts(sorted_texts(v), v);
        },
        QueryModel::Object(i) => {
            lemma_sorted_ids(i);
            lemma_same_ids(sorted_ids(i), i);
        },
        QueryModel::Source(i, v) => {
            lemma_sorted_ids(i);
            lemma_same_ids(sorted_ids(i), i);
            lemma_sorted_texts(v);
            lemma_same_texts(sorted_texts(v), v);
        },
        QueryModel::Leaf(_) => {},
    }
}

proof fn lemma_placed_multiset(s: Seq<QueryModel>, q: QueryModel, r: Rendering)
    ensures
        placed(s, q, r).to_multiset() == s.to_multiset().insert(q),
    decreases s.len(),
{
    broadcast use group_to_multiset_ensures;

    if s.len() > 0 && text_lt(r(q), r(s.last())) {
        let init = s.drop_last();
        lemma_placed_multiset(init, q, r);
        assert(s =~= init.push(s.last()));
        assert(placed(s, q, r).to_multiset() =~= s.to_multiset().insert(q));
    }
}

proof fn lemma_ordered_multiset(s: Seq<QueryModel>, r: Rendering)
    ensures
        ordered(s, r).to_multiset() == s.to_multiset(),
    decreases s.len(),
{
    broadcast use group_to_multiset_ensures;

    if s.len() > 0 {
        let init = s.drop_last();
        lemma_ordered_multiset(init, r);
        lemma_placed_multiset(ordered(init, r), s.last(), r);
        assert(s =~= init.push(s.last()));
    }
}

/// The canonical form of a query is that search, written in one of its ways: no
/// clause and no value is lost, added or changed, and no time bound leaves its
/// day. So queries that are not one search never share a canonical form.
pub proof fn law_a_canonical_query_is_the_same_search(q: QueryModel, r: Rendering)
    requires
        datable(q),
    ensures
        same_search(q, canon(q, r)),
    decreases q, 0nat,
{
    match q {
        QueryModel::And(c) => {
            let p = canons(c, r);
            let y = ordered(p, r);
            lemma_canons_same(c, r);
            lemma_ordered_multiset(p, r);
            assert(reordered(p, y) && same_siblings(c, p));
            assert(canon(q, r) == QueryModel::And(y));
            lemma_reordered_same(c, p, y);
        },
        QueryModel::Or(c) => {
            let p = canons(c, r);
            let y = ordered(p, r);
            lemma_canons_same(c, r);
            lemma_ordered_multiset(p, r);
            assert(reordered(p, y) && same_siblings(c, p));
            assert(canon(q, r) == QueryModel::Or(y));
            lemma_reordered_same(c, p, y);
        },
        QueryModel::Not(c) => {
            law_a_canonical_query_is_the_same_search(*c, r);
        },
        QueryModel::Extension(v) => {
            lemma_sorted_texts(v);
        },
        QueryModel::Kind(v) => {
            lemma_sorted_texts(v);
        },
        QueryModel::ContentState(v) => {
            lemma_sorted_texts(v);
        },
        QueryModel::Time(_, a, b) => {
            if let Some(t) = a {
                law_a_day_starts_at_its_start(t);
            }
            if let Some(t) = b {
                law_a_day_starts_at_its_start(t);
            }
        },
        QueryModel::Host(ids, names) => {
            lemma_sorted_ids(ids);
            lemma_sorted_texts(names);
        },
        QueryModel::Object(ids) => {
            lemma_sorted_ids(ids);
        },
        QueryModel::Source(ids, names) => {
            lemma_sorted_ids(ids);
            lemma_sorted_texts(names);
        },
        QueryModel::Leaf(_) => {},
    }
}

proof fn lemma_reordered_same(c: Seq<QueryModel>, p: Seq<QueryModel>, y: Seq<QueryModel>)
    requires
        reordered(p, y),
        same_siblings(c, p),
    ensures
        same_search(QueryModel::And(c), QueryModel::And(y)),
        same_search(QueryModel::Or(c), QueryModel::Or(y)),
{
    assert(exists|x: Seq<QueryModel>| #[trigger] reordered(x, y) && same_siblings(c, x));
    reveal_with_fuel(same_search, 3);
    reveal_with_fuel(same_siblings, 3);
    let a = QueryModel::And(c);
    let b = QueryModel::And(y);
    assert(b matches QueryModel::And(z) && z == y);
    assert(same_search(a, b));
    let d = QueryModel::Or(c);
    let e = QueryModel::Or(y);
    assert(e matches QueryModel::Or(z) && z == y);
    assert(same_search(d, e));
}

proof fn lemma_canons_same(c: Seq<QueryModel>, r: Rendering)
    requires
        all_datable(c),
    ensures
        same_siblings(c, canons(c, r)),
    decreases c, c.len(),
{
    if c.len() > 0 {
        lemma_canons_same(c.drop_last(), r);
        law_a_canonical_query_is_the_same_search(c.last(), r);
        assert(canons(c, r).drop_last() =~= canons(c.drop_last(), r));
        assert(canons(c, r).len() == c.len());
    }
}

/// A time bound can be put on its day exactly if the start of that day can be
/// written, and everything else always can.
pub proof fn law_a_bound_is_datable_if_its_day_is(f: TimeField, t: i64, u: i64)
    ensures
        datable(QueryModel::Time(f, Some(t), None)) <==> t as int / 86_400_000_000_000
            * 86_400_000_000_000 >= i64::MIN,
        datable(QueryModel::Time(f, None, Some(u))) <==> u as int / 86_400_000_000_000
            * 86_400_000_000_000 >= i64::MIN,
        datable(QueryModel::Time(f, Some(t), Some(u))) <==> datable(
            QueryModel::Time(f, Some(t), None),
        ) && datable(QueryModel::Time(f, None, Some(u))),
        datable(QueryModel::Time(f, None, None)),
{
}

/// The start of a day is a whole number of days from 1970, at or before every
/// time on that day and less than a day before it.
pub proof fn law_a_day_starts_at_its_start(t: i64)
    requires
        t >= FIRST_DAY_NS,
    ensures
        day_start(t) <= t < day_start(t) + 86_400_000_000_000,
        day_start(t) as int % 86_400_000_000_000 == 0,
        day_start(t) as int / DAY_NS as int == t as int / DAY_NS as int,
{
    let d = t as int / 86_400_000_000_000;
    assert(d * 86_400_000_000_000 <= t < d * 86_400_000_000_000 + 86_400_000_000_000);
    assert(i64::MIN <= d * 86_400_000_000_000);
    assert((d * 86_400_000_000_000) / 86_400_000_000_000 == d) by (nonlinear_arith);
    assert((d * 86_400_000_000_000) % 86_400_000_000_000 == 0) by (nonlinear_arith);
}

// ----- computing it ---------------------------------------------------------

fn precedes(a: &str, b: &str) -> (r: bool)
    ensures
        r == text_lt(a@, b@),
{
    proof {
        lemma_text_lt_irreflexive(a@);
    }
    match rank(a, b) {
        Rank::Before => true,
        _ => false,
    }
}

fn sort_texts(v: &Vec<String>) -> (out: Vec<String>)
    ensures
        texts(out@) == sorted_texts(texts(v@)),
{
    let ghost leq = |a: Seq<char>, b: Seq<char>| text_leq(a, b);
    proof {
        lemma_text_order();
    }
    let mut out: Vec<String> = Vec::new();
    let mut i: usize = 0;
    assert(texts(v@).take(0) =~= texts(out@));
    while i < v.len()
        invariant
            0 <= i <= v.len(),
            leq == (|a: Seq<char>, b: Seq<char>| text_leq(a, b)),
            total_ordering(leq),
            sorted_by(texts(out@), leq),
            texts(out@).to_multiset() == texts(v@).take(i as int).to_multiset(),
        decreases v.len() - i,
    {
        let mut at: usize = out.len();
        let ghost key = v@[i as int]@;
        while at > 0 && precedes(&v[i], &out[at - 1])
            invariant
                0 <= at <= out.len(),
                0 <= i < v.len(),
                key == v@[i as int]@,
                forall|j: int| at <= j < out.len() ==> text_lt(key, #[trigger] texts(out@)[j]),
            decreases at,
        {
            at = at - 1;
        }
        let ghost before = texts(out@);
        out.insert(at, v[i].clone());
        proof {
            broadcast use group_to_multiset_ensures;

            let after = texts(out@);
            assert(after =~= before.insert(at as int, key));
            to_multiset_insert(before, at as int, key);
            assert(texts(v@).take(i + 1) =~= texts(v@).take(i as int).push(key));
            assert forall|p: int, q: int| 0 <= p < q < after.len() implies #[trigger] leq(
                after[p],
                after[q],
            ) by {
                if p < at && q < at {
                    assert(leq(before[p], before[q]));
                } else if p < at && q > at {
                    assert(leq(before[p], before[q - 1]));
                } else if p > at {
                    assert(leq(before[p - 1], before[q - 1]));
                } else if p == at {
                    assert(text_lt(key, before[q - 1]));
                } else {
                    lemma_text_lt_total(key, before[at - 1]);
                    assert(text_leq(before[at - 1], key));
                    if p < at - 1 {
                        assert(leq(before[p], before[at - 1]));
                    }
                    assert(leq(before[p], before[at - 1]));
                    assert(leq(before[at - 1], key));
                }
            }
        }
        i += 1;
    }
    proof {
        assert(texts(v@).take(i as int) =~= texts(v@));
        texts(v@).lemma_sort_by_ensures(leq);
        lemma_sorted_unique(texts(out@), texts(v@).sort_by(leq), leq);
    }
    out
}

fn sort_ids(v: &Vec<i64>) -> (out: Vec<i64>)
    ensures
        out@ == sorted_ids(v@),
{
    let ghost leq = |a: i64, b: i64| a <= b;
    let mut out: Vec<i64> = Vec::new();
    let mut i: usize = 0;
    assert(v@.take(0) =~= out@);
    while i < v.len()
        invariant
            0 <= i <= v.len(),
            leq == (|a: i64, b: i64| a <= b),
            sorted_by(out@, leq),
            out@.to_multiset() == v@.take(i as int).to_multiset(),
        decreases v.len() - i,
    {
        let mut at: usize = out.len();
        let key: i64 = v[i];
        while at > 0 && key < out[at - 1]
            invariant
                0 <= at <= out.len(),
                forall|j: int| at <= j < out.len() ==> key < #[trigger] out@[j],
            decreases at,
        {
            at = at - 1;
        }
        let ghost before = out@;
        out.insert(at, key);
        proof {
            broadcast use group_to_multiset_ensures;

            let after = out@;
            assert(after =~= before.insert(at as int, key));
            to_multiset_insert(before, at as int, key);
            assert(v@.take(i + 1) =~= v@.take(i as int).push(key));
            assert forall|p: int, q: int| 0 <= p < q < after.len() implies #[trigger] leq(
                after[p],
                after[q],
            ) by {
                if p < at && q < at {
                    assert(leq(before[p], before[q]));
                } else if p < at && q > at {
                    assert(leq(before[p], before[q - 1]));
                } else if p > at {
                    assert(leq(before[p - 1], before[q - 1]));
                } else if p == at {
                    assert(key < before[q - 1]);
                } else {
                    if p < at - 1 {
                        assert(leq(before[p], before[at - 1]));
                    }
                }
            }
        }
        i += 1;
    }
    proof {
        assert(v@.take(i as int) =~= v@);
        v@.lemma_sort_by_ensures(leq);
        lemma_sorted_unique(out@, v@.sort_by(leq), leq);
    }
    out
}

fn floor_to_day(t: i64) -> (r: i64)
    requires
        t >= FIRST_DAY_NS,
    ensures
        r == day_start(t),
        r <= t < r + DAY_NS,
{
    // Whole days since the epoch: division that floors, so that times before
    // 1970 round the same direction as those after it.
    let days: i64 = if t >= 0 {
        t / DAY_NS
    } else {
        -((-(t + 1)) / DAY_NS) - 1
    };
    proof {
        let d = DAY_NS as int;
        if t < 0 {
            let u = -(t + 1);
            assert(t as int / d == -(u as int / d) - 1) by (nonlinear_arith)
                requires
                    u == -(t + 1),
                    u >= 0,
                    d > 0,
            ;
        }
        assert(days == t as int / d);
        assert(days * d <= t < days * d + d) by (nonlinear_arith)
            requires
                days == t as int / d,
                d > 0,
        ;
    }
    days * DAY_NS
}

fn floor_opt(t: &Option<i64>) -> (r: Option<i64>)
    requires
        t matches Some(x) ==> x >= FIRST_DAY_NS,
    ensures
        r == opt_day_start(*t),
{
    match t {
        Some(x) => Some(floor_to_day(*x)),
        None => None,
    }
}

/// A function that writes queries out, as `r` says.
pub open spec fn renders<F: Fn(&Query) -> String>(f: F, r: Rendering) -> bool {
    &&& forall|q: &Query| call_requires(f, (q,))
    &&& forall|q: &Query, s: String| #[trigger] call_ensures(f, (q,), s) ==> s@ == r(model(*q))
}

/// A function that writes every query out, and equal ones alike.
pub open spec fn is_rendering<F: Fn(&Query) -> String>(f: F) -> bool {
    exists|r: Rendering| renders(f, r)
}

/// Siblings in canonical form and order.
fn canonical_siblings<F: Fn(&Query) -> String>(clauses: &Vec<Query>, render: &F) -> (out: Vec<Query>)
    requires
        is_rendering(*render),
        all_datable(models(clauses@)),
    ensures
        forall|r: Rendering| #[trigger]
            renders(*render, r) ==> models(out@) == ordered(canons(models(clauses@), r), r),
    decreases clauses,
{
    let mut out: Vec<Query> = Vec::new();
    let mut keys: Vec<String> = Vec::new();
    let mut i: usize = 0;
    proof {
        lemma_models(clauses@);
        assert(models(clauses@).take(0) =~= Seq::empty());
    }
    while i < clauses.len()
        invariant
            0 <= i <= clauses.len(),
            is_rendering(*render),
            all_datable(models(clauses@)),
            models(clauses@).len() == clauses.len(),
            out.len() == keys.len() == i,
            forall|r: Rendering| #[trigger]
                renders(*render, r) ==> models(out@) == ordered(
                    canons(models(clauses@).take(i as int), r),
                    r,
                ),
            forall|r: Rendering, j: int|
                #![trigger renders(*render, r), keys@[j]]
                renders(*render, r) && 0 <= j < keys.len() ==> keys@[j]@ == r(model(out@[j])),
        decreases clauses.len() - i,
    {
        proof {
            lemma_models(clauses@);
            lemma_all_datable(models(clauses@), i as int);
        }
        let clause = canonical(&clauses[i], render);
        let key = render(&clause);
        let mut at: usize = out.len();
        while at > 0 && precedes(&key, &keys[at - 1])
            invariant
                0 <= at <= keys.len(),
                forall|j: int| at <= j < keys.len() ==> text_lt(key@, (#[trigger] keys@[j])@),
            decreases at,
        {
            at = at - 1;
        }
        let ghost before = out@;
        let ghost old_keys = keys@;
        let ghost placed_clause = clause;
        let ghost placed_key = key@;
        out.insert(at, clause);
        keys.insert(at, key);
        proof {
            lemma_models(before);
            lemma_models(out@);
            assert(models(out@) =~= models(before).insert(at as int, model(placed_clause)));
            let done = models(clauses@).take(i as int);
            let next = models(clauses@).take(i + 1);
            assert(next.drop_last() =~= done);
            assert(next.last() == model(clauses@[i as int]));
            assert forall|r: Rendering| #[trigger] renders(*render, r) implies models(out@)
                == ordered(canons(next, r), r) by {
                let c = canons(next, r);
                assert(c.drop_last() =~= canons(done, r));
                assert(c.last() == canon(next.last(), r));
                assert(model(placed_clause) == c.last());
                assert(placed_key == r(model(placed_clause)));
                let s = models(before);
                assert forall|j: int| at <= j < s.len() implies text_lt(
                    r(c.last()),
                    r(#[trigger] s[j]),
                ) by {
                    assert(old_keys[j]@ == r(model(before[j])));
                }
                if at > 0 {
                    assert(old_keys[at - 1]@ == r(model(before[at - 1])));
                }
                lemma_placed(s, c.last(), r, at as int);
            }
            assert forall|r: Rendering, j: int|
                #![trigger renders(*render, r), keys@[j]]
                renders(*render, r) && 0 <= j < keys.len() implies keys@[j]@ == r(model(out@[j])) by {
                if j < at {
                    assert(keys@[j] == old_keys[j] && out@[j] == before[j]);
                } else if j > at {
                    assert(keys@[j] == old_keys[j - 1] && out@[j] == before[j - 1]);
                }
            }
        }
        i += 1;
    }
    assert(models(clauses@).take(i as int) =~= models(clauses@));
    out
}

/// A query in its canonical form. `render` writes a query out.
pub fn canonical<F: Fn(&Query) -> String>(query: &Query, render: &F) -> (c: Query)
    requires
        is_rendering(*render),
        datable(model(*query)),
    ensures
        forall|r: Rendering| #[trigger]
            renders(*render, r) ==> model(c) == canon(model(*query), r),
    decreases query,
{
    match query {
        Query::And { clauses } => Query::And { clauses: canonical_siblings(clauses, render) },
        Query::Or { clauses } => Query::Or { clauses: canonical_siblings(clauses, render) },
        Query::Not { clause } => Query::Not { clause: Box::new(canonical(clause, render)) },
        Query::Extension { values } => Query::Extension { values: sort_texts(values) },
        Query::Kind { values } => Query::Kind { values: sort_texts(values) },
        Query::ContentState { states } => Query::ContentState { states: sort_texts(states) },
        Query::Time { field, after, before } => Query::Time {
            field: *field,
            after: floor_opt(after),
            before: floor_opt(before),
        },
        Query::Host { ids, names } => Query::Host { ids: sort_ids(ids), names: sort_texts(names) },
        Query::Object { ids } => Query::Object { ids: sort_ids(ids) },
        Query::Source { ids, names } => Query::Source {
            ids: sort_ids(ids),
            names: sort_texts(names),
        },
        Query::Leaf { text } => Query::Leaf { text: text.clone() },
    }
}

fn bound_datable(t: &Option<i64>) -> (r: bool)
    ensures
        r == (t matches Some(t) ==> t >= FIRST_DAY_NS),
{
    match t {
        Some(t) => *t >= FIRST_DAY_NS,
        None => true,
    }
}

fn siblings_datable(clauses: &Vec<Query>) -> (r: bool)
    ensures
        r == all_datable(models(clauses@)),
    decreases clauses,
{
    let mut i: usize = 0;
    proof {
        lemma_models(clauses@);
        assert(models(clauses@).take(0) =~= Seq::empty());
    }
    while i < clauses.len()
        invariant
            0 <= i <= clauses.len() == models(clauses@).len(),
            all_datable(models(clauses@).take(i as int)),
        decreases clauses.len() - i,
    {
        let ok = is_datable(&clauses[i]);
        proof {
            lemma_models(clauses@);
            assert(models(clauses@).take(i + 1).drop_last() =~= models(clauses@).take(i as int));
            if !ok && all_datable(models(clauses@)) {
                lemma_all_datable(models(clauses@), i as int);
            }
        }
        if !ok {
            return false;
        }
        i += 1;
    }
    assert(models(clauses@).take(i as int) =~= models(clauses@));
    true
}

/// Whether a query can be brought into its canonical form: the day of every
/// time bound starts within the range of the clock.
pub fn is_datable(query: &Query) -> (r: bool)
    ensures
        r == datable(model(*query)),
    decreases query,
{
    match query {
        Query::And { clauses } => siblings_datable(clauses),
        Query::Or { clauses } => siblings_datable(clauses),
        Query::Not { clause } => is_datable(clause),
        Query::Time { after, before, .. } => bound_datable(after) && bound_datable(before),
        _ => true,
    }
}

// ----- one query text -------------------------------------------------------

/// The label of a query's shape.
#[derive(Debug)]
pub struct QueryShape {
    pub label: String,
}

impl View for QueryShape {
    type V = Seq<char>;

    open spec fn view(&self) -> Seq<char> {
        self.label@
    }
}

pub const METADATA_SHAPE: &'static str = "metadata";

pub const NAME_SHAPE: &'static str = "name";

impl QueryShape {
    pub fn metadata() -> (r: QueryShape)
        ensures
            r@ == METADATA_SHAPE@,
    {
        QueryShape { label: METADATA_SHAPE.to_owned() }
    }

    pub fn name() -> (r: QueryShape)
        ensures
            r@ == NAME_SHAPE@,
    {
        QueryShape { label: NAME_SHAPE.to_owned() }
    }

    pub fn copy(&self) -> (r: QueryShape)
        ensures
            r@ == self@,
    {
        QueryShape { label: self.label.clone() }
    }
}

/// What the parser made of a query text.
#[derive(Debug)]
pub enum ParsedQuery {
    Rejected,
    Parsed(Query, QueryShape),
}

pub open spec fn parsed_datable(p: ParsedQuery) -> bool {
    p matches ParsedQuery::Parsed(q, _) ==> datable(model(q))
}

/// The text to digest for a query text, and the label of its shape.
///
/// A parsed query is digested by its canonical rendering, so the same query
/// written two ways groups as one. Text the parser rejects still produced a
/// result page for someone, so it is recorded rather than refused: the raw
/// text is digested as-is and labelled by the shape of the bare words such a
/// query almost always is.
pub fn resolve_query<F: Fn(&Query) -> String>(text: &str, parsed: ParsedQuery, render: &F) -> (r: (
    String,
    QueryShape,
))
    requires
        is_rendering(*render),
        parsed_datable(parsed),
    ensures
        if trim(text@).len() == 0 {
            r.0@.len() == 0 && r.1@ == METADATA_SHAPE@
        } else {
            match parsed {
                ParsedQuery::Rejected => r.0@ == text@ && r.1@ == NAME_SHAPE@,
                ParsedQuery::Parsed(q, shape) => {
                    &&& r.1@ == shape@
                    &&& forall|w: Rendering| #[trigger]
                        renders(*render, w) ==> r.0@ == w(canon(model(q), w))
                },
            }
        },
{
    let bare = trimmed(text);
    if bare.as_str().is_empty() {
        return (String::new(), QueryShape::metadata());
    }
    match parsed {
        ParsedQuery::Rejected => (text.to_owned(), QueryShape::name()),
        ParsedQuery::Parsed(query, shape) => {
            let c = canonical(&query, render);
            (render(&c), shape)
        },
    }
}

// ----- a batch --------------------------------------------------------------

/// Events one request may carry. Clients flush more often rather than bigger.
pub const MAX_INTERACTION_BATCH: usize = 500;

/// Query text longer than this is not worth digesting; the batch is rejected.
pub const MAX_QUERY_TEXT: usize = 8192;

/// Batches that may be waiting on the catalog writer at once.
pub const MAX_PENDING_INTERACTION_WRITES: usize = 2;

#[derive(Debug, Clone, Copy, PartialEq, Eq, Structural)]
pub enum InteractionAction {
    Presented,
    OpenedPreview,
    OpenedFile,
    CopiedPath,
    Exported,
}

pub open spec fn action_of(s: Seq<char>) -> Option<InteractionAction> {
    if s == "presented"@ {
        Some(InteractionAction::Presented)
    } else if s == "opened_preview"@ {
        Some(InteractionAction::OpenedPreview)
    } else if s == "opened_file"@ {
        Some(InteractionAction::OpenedFile)
    } else if s == "copied_path"@ {
        Some(InteractionAction::CopiedPath)
    } else if s == "exported"@ {
        Some(InteractionAction::Exported)
    } else {
        None
    }
}

impl InteractionAction {
    pub fn parse(s: &str) -> (r: Option<InteractionAction>)
        ensures
            r == action_of(s@),
    {
        if same(s, "presented") {
            Some(InteractionAction::Presented)
        } else if same(s, "opened_preview") {
            Some(InteractionAction::OpenedPreview)
        } else if same(s, "opened_file") {
            Some(InteractionAction::OpenedFile)
        } else if same(s, "copied_path") {
            Some(InteractionAction::CopiedPath)
        } else if same(s, "exported") {
            Some(InteractionAction::Exported)
        } else {
            None
        }
    }
}

/// Body of a batch.
#[derive(Debug)]
pub struct InteractionBatch {
    pub events: Vec<InteractionEventBody>,
}

/// One interaction. The time is assigned by the server, so it is absent here.
#[derive(Debug)]
pub struct InteractionEventBody {
    /// Opaque per-tab (web) or per-invocation (CLI) id. Never a user id.
    pub session_id: String,
    /// `presented`, `opened_preview`, `opened_file`, `copied_path`, `exported`.
    pub action: String,
    /// The query the results came from. Digested and discarded, never stored.
    pub q: Option<String>,
    pub object_id: Option<ObjectId>,
    pub source_id: Option<SourceId>,
    /// 0-based position of the hit in the result set it was presented in.
    pub presented_rank: Option<u32>,
}

/// An interaction as it is stored.
#[derive(Debug)]
pub struct InteractionEvent {
    pub ts: UnixNanos,
    pub query_hash: String,
    pub query_shape: QueryShape,
    pub object_id: Option<ObjectId>,
    pub source_id: Option<SourceId>,
    pub presented_rank: Option<u32>,
    pub action: InteractionAction,
    pub session_id: String,
}

/// What became of a batch. `dropped` is not an error: a client that is told
/// its events were dropped should carry on exactly as if they were kept.
#[derive(Debug, Clone, Copy, PartialEq, Eq, Structural)]
pub struct InteractionAck {
    pub accepted: u32,
    pub dropped: u32,
}

/// The query of an event; none is the empty query.
pub open spec fn query_of(b: InteractionEventBody) -> Seq<char> {
    match b.q {
        Some(q) => q@,
        None => Seq::empty(),
    }
}

/// Why an event is refused.
pub open spec fn event_problem(b: InteractionEventBody, max_session_id_len: usize) -> Option<
    Seq<char>,
> {
    let session = trim(b.session_id@);
    if action_of(b.action@) is None {
        Some("unknown interaction action '"@ + b.action@ + "'"@)
    } else if session.len() == 0 || byte_len(session) > max_session_id_len {
        Some("session_id must be 1..="@ + decimal(max_session_id_len as nat) + " characters"@)
    } else if byte_len(query_of(b)) > MAX_QUERY_TEXT {
        Some(
            "query text is "@ + decimal(byte_len(query_of(b))) + " bytes; limit is "@ + decimal(
                MAX_QUERY_TEXT as nat,
            ),
        )
    } else {
        None
    }
}

/// An event is accepted exactly if its action is known, its session id is there
/// and within bounds once it is trimmed, and its query is at most 8 KiB.
pub proof fn law_only_sound_events_are_stored(b: InteractionEventBody, max_session_id_len: usize)
    ensures
        event_problem(b, max_session_id_len) is None <==> {
            &&& action_of(b.action@) is Some
            &&& 0 < trim(b.session_id@).len()
            &&& byte_len(trim(b.session_id@)) <= max_session_id_len
            &&& b.q matches Some(q) ==> byte_len(q@) <= 8192
        },
        query_of(b) == (match b.q {
            Some(q) => q@,
            None => Seq::empty(),
        }),
{
    assert(byte_len(Seq::<char>::empty()) == 0);
}

/// Every action has a name of its own.
pub proof fn law_actions_have_names_of_their_own(s: Seq<char>, t: Seq<char>)
    requires
        action_of(s) is Some,
        action_of(s) == action_of(t),
    ensures
        s == t,
        action_of("presented"@) == Some(InteractionAction::Presented),
        action_of("opened_preview"@) == Some(InteractionAction::OpenedPreview),
        action_of("opened_file"@) == Some(InteractionAction::OpenedFile),
        action_of("copied_path"@) == Some(InteractionAction::CopiedPath),
        action_of("exported"@) == Some(InteractionAction::Exported),
{
    reveal_strlit("presented");
    reveal_strlit("opened_preview");
    reveal_strlit("opened_file");
    reveal_strlit("copied_path");
    reveal_strlit("exported");
    assert("presented"@.len() == 9);
    assert("opened_preview"@.len() == 14);
    assert("opened_file"@.len() == 11);
    assert("copied_path"@.len() == 11);
    assert("exported"@.len() == 8);
    assert("opened_file"@[0] != "copied_path"@[0]);
}

/// Whether a digest and a shape are what `resolve` made of a query text.
pub open spec fn resolved_by<F: Fn(&str) -> (String, QueryShape)>(
    resolve: F,
    q: Seq<char>,
    hash: Seq<char>,
    shape: Seq<char>,
) -> bool {
    exists|t: &str, r: (String, QueryShape)| #[trigger]
        call_ensures(resolve, (t,), r) && t@ == q && r.0@ == hash && r.1@ == shape
}

/// An event is stored as it came, under one time and with its query resolved.
pub open spec fn stores<F: Fn(&str) -> (String, QueryShape)>(
    e: InteractionEvent,
    b: InteractionEventBody,
    ts: UnixNanos,
    resolve: F,
) -> bool {
    &&& e.ts == ts
    &&& e.object_id == b.object_id
    &&& e.source_id == b.source_id
    &&& e.presented_rank == b.presented_rank
    &&& Some(e.action) == action_of(b.action@)
    &&& e.session_id@ == trim(b.session_id@)
    &&& resolved_by(resolve, query_of(b), e.query_hash@, e.query_shape@)
}

/// A stored event is the one that was sent, at the server's time, and holds of
/// its query only what it was resolved to.
pub proof fn law_a_stored_event_is_the_one_sent<F: Fn(&str) -> (String, QueryShape)>(
    e: InteractionEvent,
    b: InteractionEventBody,
    ts: UnixNanos,
    resolve: F,
    hash: Seq<char>,
    shape: Seq<char>,
)
    requires
        stores(e, b, ts, resolve),
        forall|t: &str, r: (String, QueryShape)| #[trigger]
            call_ensures(resolve, (t,), r) && t@ == query_of(b) ==> r.0@ == hash && r.1@ == shape,
    ensures
        e.ts == ts,
        e.object_id == b.object_id && e.source_id == b.source_id && e.presented_rank
            == b.presented_rank,
        Some(e.action) == action_of(b.action@),
        e.session_id@ == trim(b.session_id@),
        e.query_hash@ == hash && e.query_shape@ == shape,
{
}

/// One resolved query text.
struct Resolved {
    query: String,
    hash: String,
    shape: QueryShape,
}

/// The size of a text in bytes.
fn size_of(s: &str) -> (n: usize)
    ensures
        n == byte_len(s@),
{
    let bytes = s.as_bytes();
    bytes.len()
}

/// Check one event. Returns its action and its session.
fn check_event(b: &InteractionEventBody, max_session_id_len: usize) -> (r: Result<
    (InteractionAction, String),
    String,
>)
    ensures
        match event_problem(*b, max_session_id_len) {
            Some(p) => r matches Err(e) && e@ == p,
            None => r matches Ok((action, session)) && Some(action) == action_of(b.action@)
                && session@ == trim(b.session_id@),
        },
{
    let action = match InteractionAction::parse(&b.action) {
        Some(a) => a,
        None => {
            return Err("unknown interaction action '".to_owned().concat(&b.action).concat("'"));
        },
    };
    let session = trimmed(&b.session_id);
    if session.as_str().is_empty() || size_of(&session) > max_session_id_len {
        let mut m = "session_id must be 1..=".to_owned();
        push_decimal(&mut m, max_session_id_len as u64);
        m.append(" characters");
        return Err(m);
    }
    let size: usize = match &b.q {
        Some(q) => size_of(q),
        None => {
            assert(byte_len(query_of(*b)) == 0);
            0
        },
    };
    if size > MAX_QUERY_TEXT {
        let mut m = "query text is ".to_owned();
        push_decimal(&mut m, size as u64);
        m.append(" bytes; limit is ");
        push_decimal(&mut m, MAX_QUERY_TEXT as u64);
        return Err(m);
    }
    Ok((action, session))
}

/// The position of a query text among the resolved ones.
fn find_resolved(table: &Vec<Resolved>, q: &str) -> (r: Option<usize>)
    ensures
        match r {
            Some(i) => i < table.len() && table@[i as int].query@ == q@,
            None => forall|i: int| 0 <= i < table.len() ==> (#[trigger] table@[i]).query@ != q@,
        },
{
    let mut i: usize = 0;
    while i < table.len()
        invariant
            0 <= i <= table.len(),
            forall|j: int| 0 <= j < i ==> (#[trigger] table@[j]).query@ != q@,
        decreases table.len() - i,
    {
        if same(&table[i].query, q) {
            return Some(i);
        }
        i += 1;
    }
    None
}

/// Validate the batch and turn each event into its stored form. Query text is
/// resolved once per distinct string: a page of hits shares one query, so a
/// full batch normally resolves once.
pub fn convert<F: Fn(&str) -> (String, QueryShape)>(
    bodies: Vec<InteractionEventBody>,
    ts: UnixNanos,
    max_session_id_len: usize,
    resolve: &F,
) -> (r: Result<Vec<InteractionEvent>, ApiError>)
    requires
        forall|t: &str| call_requires(*resolve, (t,)),
    ensures
        match r {
            Ok(events) => {
                &&& events.len() == bodies.len()
                &&& forall|i: int|
                    0 <= i < bodies.len() ==> event_problem(
                        #[trigger] bodies@[i],
                        max_session_id_len,
                    ) is None && stores(events@[i], bodies@[i], ts, *resolve)
                &&& forall|i: int, j: int|
                    #![trigger bodies@[i], bodies@[j]]
                    0 <= i < bodies.len() && 0 <= j < bodies.len() && query_of(bodies@[i])
                        == query_of(bodies@[j]) ==> events@[i].query_hash@
                        == events@[j].query_hash@ && events@[i].query_shape@
                        == events@[j].query_shape@
            },
            Err(e) => first_refused(bodies@, max_session_id_len, e@),
        },
{
    let mut table: Vec<Resolved> = Vec::new();
    let mut events: Vec<InteractionEvent> = Vec::new();
    let mut i: usize = 0;
    while i < bodies.len()
        invariant
            0 <= i <= bodies.len(),
            forall|t: &str| call_requires(*resolve, (t,)),
            events.len() == i,
            forall|k: int|
                0 <= k < table.len() ==> resolved_by(
                    *resolve,
                    (#[trigger] table@[k]).query@,
                    table@[k].hash@,
                    table@[k].shape@,
                ),
            forall|k: int|
                0 <= k < i ==> event_problem(#[trigger] bodies@[k], max_session_id_len) is None
                    && stores(events@[k], bodies@[k], ts, *resolve) && in_table(
                    table@,
                    query_of(bodies@[k]),
                    events@[k].query_hash@,
                    events@[k].query_shape@,
                ),
            distinct(table@),
        decreases bodies.len() - i,
    {
        let (action, session_id) = match check_event(&bodies[i], max_session_id_len) {
            Ok(x) => x,
            Err(m) => {
                let e = ApiError::bad_request(m);
                assert(refused_at(bodies@, max_session_id_len, e@, i as int));
                return Err(e);
            },
        };
        let q: String = match &bodies[i].q {
            Some(q) => q.clone(),
            None => String::new(),
        };
        assert(q@ =~= query_of(bodies@[i as int]));
        let ghost before = table@;
        let at: usize = match find_resolved(&table, &q) {
            Some(k) => k,
            None => {
                let (hash, shape) = resolve(&q);
                let n: usize = table.len();
                table.push(Resolved { query: q.clone(), hash, shape });
                proof {
                    assert(resolved_by(*resolve, q@, hash@, shape@));
                    assert forall|k: int| 0 <= k < i implies in_table(
                        table@,
                        query_of(#[trigger] bodies@[k]),
                        events@[k].query_hash@,
                        events@[k].query_shape@,
                    ) by {
                        let x = choose|x: int|
                            0 <= x < before.len() && (#[trigger] before[x]).query@ == query_of(
                                bodies@[k],
                            ) && before[x].hash@ == events@[k].query_hash@ && before[x].shape@
                                == events@[k].query_shape@;
                        assert(table@[x] == before[x]);
                    }
                }
                n
            },
        };
        let ghost done = events@;
        events.push(
            InteractionEvent {
                ts,
                query_hash: table[at].hash.clone(),
                query_shape: table[at].shape.copy(),
                object_id: bodies[i].object_id,
                source_id: bodies[i].source_id,
                presented_rank: bodies[i].presented_rank,
                action,
                session_id,
            },
        );
        proof {
            assert(in_table(
                table@,
                query_of(bodies@[i as int]),
                events@[i as int].query_hash@,
                events@[i as int].query_shape@,
            )) by {
                assert(table@[at as int].query@ == q@);
            }
            assert forall|k: int| 0 <= k < i implies events@[k] == #[trigger] done[k] by {}
        }
        i += 1;
    }
    proof {
        assert forall|a: int, b: int|
            #![trigger bodies@[a], bodies@[b]]
            0 <= a < bodies.len() && 0 <= b < bodies.len() && query_of(bodies@[a]) == query_of(
                bodies@[b],
            ) implies events@[a].query_hash@ == events@[b].query_hash@
            && events@[a].query_shape@ == events@[b].query_shape@ by {
            let x = table_index(
                table@,
                query_of(bodies@[a]),
                events@[a].query_hash@,
                events@[a].query_shape@,
            );
            let y = table_index(
                table@,
                query_of(bodies@[b]),
                events@[b].query_hash@,
                events@[b].query_shape@,
            );
            assert(table@[x].query@ == table@[y].query@);
        }
    }
    Ok(events)
}

spec fn distinct(t: Seq<Resolved>) -> bool {
    forall|i: int, j: int|
        0 <= i < t.len() && 0 <= j < t.len() && (#[trigger] t[i]).query@ == (
        #[trigger] t[j]).query@ ==> i == j
}

spec fn in_table(t: Seq<Resolved>, q: Seq<char>, hash: Seq<char>, shape: Seq<char>) -> bool {
    exists|x: int|
        0 <= x < t.len() && (#[trigger] t[x]).query@ == q && t[x].hash@ == hash && t[x].shape@
            == shape
}

spec fn table_index(t: Seq<Resolved>, q: Seq<char>, hash: Seq<char>, shape: Seq<char>) -> int {
    choose|x: int|
        0 <= x < t.len() && (#[trigger] t[x]).query@ == q && t[x].hash@ == hash && t[x].shape@
            == shape
}

/// Whether event `k` is the first that is refused, and how.
pub open spec fn refused_at(
    bodies: Seq<InteractionEventBody>,
    max_session_id_len: usize,
    e: ApiErrorModel,
    k: int,
) -> bool {
    &&& 0 <= k < bodies.len()
    &&& event_problem(bodies[k], max_session_id_len) matches Some(p) && e
        == ApiErrorModel::bad_request(p)
    &&& forall|j: int| 0 <= j < k ==> event_problem(#[trigger] bodies[j], max_session_id_len) is None
}

/// A batch is refused for its first bad event.
pub open spec fn first_refused(
    bodies: Seq<InteractionEventBody>,
    max_session_id_len: usize,
    e: ApiErrorModel,
) -> bool {
    exists|k: int| refused_at(bodies, max_session_id_len, e, k)
}

/// Whether a batch is small enough.
pub fn check_batch(events: usize) -> (r: Result<(), ApiError>)
    ensures
        r is Ok <==> events <= MAX_INTERACTION_BATCH,
        r matches Err(e) ==> e@ == ApiErrorModel::bad_request(
            "interaction batch has "@ + decimal(events as nat) + " events; limit is "@ + decimal(
                MAX_INTERACTION_BATCH as nat,
            ),
        ),
{
    if events > MAX_INTERACTION_BATCH {
        let mut m = "interaction batch has ".to_owned();
        push_decimal(&mut m, events as u64);
        m.append(" events; limit is ");
        push_decimal(&mut m, MAX_INTERACTION_BATCH as u64);
        return Err(ApiError::bad_request(m));
    }
    Ok(())
}

/// The answer to a batch of checked events. An empty batch needs no writer; a
/// full gate costs the batch rather than the caller.
pub fn acknowledge(events: usize, gate_open: bool) -> (r: InteractionAck)
    requires
        events <= MAX_INTERACTION_BATCH,
    ensures
        r.accepted + r.dropped == events,
        r.dropped == (if gate_open {
            0
        } else {
            events as int
        }),
{
    if gate_open {
        InteractionAck { accepted: events as u32, dropped: 0 }
    } else {
        InteractionAck { accepted: 0, dropped: events as u32 }
    }
}

} // verus!
