//! Text in code-point order, and strictly ascending lists of keys.

use crate::text::chars_of;
use vstd::prelude::*;

verus! {

/// Code-point order, which is also the byte order of the UTF-8 encodings.
pub open spec fn text_lt(a: Seq<char>, b: Seq<char>) -> bool
    decreases a.len(),
{
    if b.len() == 0 {
        false
    } else if a.len() == 0 {
        true
    } else if a[0] != b[0] {
        a[0] < b[0]
    } else {
        text_lt(a.skip(1), b.skip(1))
    }
}

pub proof fn lemma_text_lt_irreflexive(a: Seq<char>)
    ensures
        !text_lt(a, a),
    decreases a.len(),
{
    if a.len() > 0 {
        lemma_text_lt_irreflexive(a.skip(1));
    }
}

pub proof fn lemma_text_lt_transitive(a: Seq<char>, b: Seq<char>, c: Seq<char>)
    requires
        text_lt(a, b),
        text_lt(b, c),
    ensures
        text_lt(a, c),
    decreases a.len(),
{
    if a.len() > 0 && b.len() > 0 && c.len() > 0 && a[0] == b[0] && b[0] == c[0] {
        lemma_text_lt_transitive(a.skip(1), b.skip(1), c.skip(1));
    }
}

pub proof fn lemma_text_lt_total(a: Seq<char>, b: Seq<char>)
    ensures
        a == b || text_lt(a, b) || text_lt(b, a),
    decreases a.len(),
{
    if a.len() > 0 && b.len() > 0 && a[0] == b[0] {
        lemma_text_lt_total(a.skip(1), b.skip(1));
        if a.skip(1) == b.skip(1) {
            assert(a =~= seq![a[0]] + a.skip(1));
            assert(b =~= seq![b[0]] + b.skip(1));
        }
    } else if a.len() == 0 && b.len() == 0 {
        assert(a =~= b);
    }
}

/// Texts are ordered by the first character in which they differ, whatever
/// follows it, and a text comes before all that begin with it and go on.
pub proof fn law_the_first_difference_decides(
    same: Seq<char>,
    x: char,
    y: char,
    after_x: Seq<char>,
    after_y: Seq<char>,
)
    requires
        x < y,
    ensures
        text_lt(same.push(x) + after_x, same.push(y) + after_y),
        !text_lt(same.push(y) + after_y, same.push(x) + after_x),
        text_lt(same, same.push(x) + after_x),
        !text_lt(same.push(x) + after_x, same),
    decreases same.len(),
{
    let a = same.push(x) + after_x;
    let b = same.push(y) + after_y;
    if same.len() > 0 {
        let rest = same.skip(1);
        law_the_first_difference_decides(rest, x, y, after_x, after_y);
        assert(a.skip(1) =~= rest.push(x) + after_x);
        assert(b.skip(1) =~= rest.push(y) + after_y);
        assert(a[0] == same[0] && b[0] == same[0]);
    } else {
        assert(a[0] == x && b[0] == y);
    }
}

/// How two texts stand to each other.
#[derive(Debug, Clone, Copy, PartialEq, Eq, Structural)]
pub enum Rank {
    Before,
    Same,
    After,
}

pub open spec fn rank_of(a: Seq<char>, b: Seq<char>) -> Rank {
    if a == b {
        Rank::Same
    } else if text_lt(a, b) {
        Rank::Before
    } else {
        Rank::After
    }
}

/// Of two texts one comes before the other exactly if the other comes after it,
/// and they are the same exactly if neither does.
pub proof fn law_ranks_are_opposite(a: Seq<char>, b: Seq<char>)
    ensures
        rank_of(a, b) == Rank::Same <==> a == b,
        rank_of(a, b) == Rank::Before <==> rank_of(b, a) == Rank::After,
        rank_of(a, b) == Rank::Before <==> text_lt(a, b),
{
    lemma_text_lt_total(a, b);
    lemma_text_lt_irreflexive(a);
    if text_lt(a, b) && text_lt(b, a) {
        lemma_text_lt_transitive(a, b, a);
    }
}

pub fn rank(a: &str, b: &str) -> (r: Rank)
    ensures
        r == rank_of(a@, b@),
{
    let x = chars_of(a);
    let y = chars_of(b);
    let mut i: usize = 0;
    assert(x@.skip(0) =~= x@);
    assert(y@.skip(0) =~= y@);
    while i < x.len() && i < y.len()
        invariant
            x@ == a@,
            y@ == b@,
            0 <= i <= x.len(),
            i <= y.len(),
            text_lt(x@, y@) == text_lt(x@.skip(i as int), y@.skip(i as int)),
            (x@ == y@) == (x@.skip(i as int) == y@.skip(i as int)),
        decreases x.len() - i,
    {
        let ghost p = x@.skip(i as int);
        let ghost q = y@.skip(i as int);
        assert(p[0] == x@[i as int] && q[0] == y@[i as int]);
        if x[i] != y[i] {
            assert(p != q);
            return if x[i] < y[i] {
                Rank::Before
            } else {
                Rank::After
            };
        }
        assert(p.skip(1) =~= x@.skip(i + 1));
        assert(q.skip(1) =~= y@.skip(i + 1));
        assert((p == q) == (p.skip(1) == q.skip(1))) by {
            assert(p =~= seq![p[0]] + p.skip(1));
            assert(q =~= seq![q[0]] + q.skip(1));
        }
        i += 1;
    }
    if x.len() == y.len() {
        assert(x@.skip(i as int) =~= y@.skip(i as int));
        Rank::Same
    } else if x.len() < y.len() {
        assert(x@.len() != y@.len());
        Rank::Before
    } else {
        assert(x@.len() != y@.len());
        Rank::After
    }
}

// ----- lists ----------------------------------------------------------------

/// What a list of strings holds.
pub open spec fn texts(v: Seq<String>) -> Seq<Seq<char>> {
    Seq::new(v.len(), |i: int| v[i]@)
}

pub open spec fn strictly_sorted(s: Seq<Seq<char>>) -> bool {
    forall|i: int, j: int| 0 <= i < j < s.len() ==> text_lt(#[trigger] s[i], #[trigger] s[j])
}

/// A strictly ascending list holds no key twice.
pub proof fn lemma_sorted_distinct(s: Seq<Seq<char>>)
    requires
        strictly_sorted(s),
    ensures
        s.no_duplicates(),
        s.to_set().len() == s.len(),
        s.to_set().finite(),
{
    assert forall|i: int, j: int| 0 <= i < s.len() && 0 <= j < s.len() && i != j implies s[i]
        != s[j] by {
        lemma_text_lt_irreflexive(s[i]);
        if i < j {
            assert(text_lt(s[i], s[j]));
        } else {
            assert(text_lt(s[j], s[i]));
        }
    }
    s.unique_seq_to_set();
}

/// Two strictly ascending lists of the same keys are the same list.
pub proof fn lemma_sorted_unique(s: Seq<Seq<char>>, t: Seq<Seq<char>>)
    requires
        strictly_sorted(s),
        strictly_sorted(t),
        s.to_set() == t.to_set(),
    ensures
        s == t,
    decreases s.len(),
{
    lemma_sorted_distinct(s);
    lemma_sorted_distinct(t);
    if s.len() == 0 {
        assert(s =~= t);
    } else {
        let a = s.last();
        let b = t.last();
        assert(s.to_set().contains(a)) by {
            assert(s[s.len() - 1] == a);
        }
        assert(t.to_set().contains(b)) by {
            assert(t[t.len() - 1] == b);
        }
        assert(t.contains(a) && s.contains(b));
        let i = s.index_of(b);
        let j = t.index_of(a);
        if a != b {
            assert(i < s.len() - 1 && j < t.len() - 1);
            assert(text_lt(s[i], s[s.len() - 1]));
            assert(text_lt(t[j], t[t.len() - 1]));
            lemma_text_lt_transitive(a, b, a);
            lemma_text_lt_irreflexive(a);
        }
        let u = s.drop_last();
        let v = t.drop_last();
        assert(u.to_set() =~= v.to_set()) by {
            assert forall|x: Seq<char>| u.contains(x) == v.contains(x) by {
                if u.contains(x) {
                    let p = u.index_of(x);
                    assert(s[p] == x && p != s.len() - 1);
                    assert(s.to_set().contains(x));
                    let q = t.index_of(x);
                    assert(t.contains(x));
                    assert(x != b);
                    assert(v[q] == x);
                }
                if v.contains(x) {
                    let p = v.index_of(x);
                    assert(t[p] == x && p != t.len() - 1);
                    assert(t.to_set().contains(x));
                    let q = s.index_of(x);
                    assert(s.contains(x));
                    assert(x != a);
                    assert(u[q] == x);
                }
            }
        }
        lemma_sorted_unique(u, v);
        assert(s =~= u.push(a));
        assert(t =~= v.push(b));
    }
}

/// Add a key to a strictly ascending list, unless it is there already.
pub fn insert_key(list: &mut Vec<String>, key: &String)
    requires
        strictly_sorted(texts(old(list)@)),
    ensures
        strictly_sorted(texts(final(list)@)),
        texts(final(list)@).to_set() == texts(old(list)@).to_set().insert(key@),
{
    let ghost before = texts(list@);
    let mut i: usize = 0;
    while i < list.len()
        invariant
            0 <= i <= list.len(),
            texts(list@) == before,
            list@ == old(list)@,
            strictly_sorted(before),
            forall|j: int| 0 <= j < i ==> text_lt(#[trigger] before[j], key@),
        decreases list.len() - i,
    {
        match rank(&list[i], key) {
            Rank::Before => {
                assert(before[i as int] == list@[i as int]@);
                i += 1;
            },
            Rank::Same => {
                assert(before[i as int] == key@);
                assert(before.to_set().insert(key@) =~= before.to_set());
                return ;
            },
            Rank::After => {
                assert(before[i as int] == list@[i as int]@);
                proof {
                    lemma_text_lt_total(before[i as int], key@);
                    lemma_insert_sorted(before, i as int, key@);
                }
                list.insert(i, key.clone());
                assert(texts(list@) =~= before.insert(i as int, key@));
                return ;
            },
        }
    }
    proof {
        lemma_insert_sorted(before, i as int, key@);
    }
    list.push(key.clone());
    assert(texts(list@) =~= before.insert(i as int, key@));
}

proof fn lemma_insert_sorted(s: Seq<Seq<char>>, i: int, k: Seq<char>)
    requires
        strictly_sorted(s),
        0 <= i <= s.len(),
        forall|j: int| 0 <= j < i ==> text_lt(#[trigger] s[j], k),
        i < s.len() ==> text_lt(k, s[i]),
    ensures
        strictly_sorted(s.insert(i, k)),
        s.insert(i, k).to_set() == s.to_set().insert(k),
{
    let t = s.insert(i, k);
    assert forall|a: int, b: int| 0 <= a < b < t.len() implies text_lt(
        #[trigger] t[a],
        #[trigger] t[b],
    ) by {
        if a == i {
            if b - 1 > i {
                assert(text_lt(s[i], s[b - 1]));
                lemma_text_lt_transitive(k, s[i], s[b - 1]);
            }
        } else if b == i {
            assert(text_lt(s[a], k));
        } else {
            let p = if a < i {
                a
            } else {
                a - 1
            };
            let q = if b < i {
                b
            } else {
                b - 1
            };
            assert(text_lt(s[p], s[q]));
        }
    }
    assert(t.to_set() =~= s.to_set().insert(k)) by {
        assert forall|x: Seq<char>| t.contains(x) == (s.contains(x) || x == k) by {
            if t.contains(x) {
                let p = t.index_of(x);
                if p < i {
                    assert(s[p] == x);
                } else if p > i {
                    assert(s[p - 1] == x);
                }
            }
            if s.contains(x) {
                let p = s.index_of(x);
                if p < i {
                    assert(t[p] == x);
                } else {
                    assert(t[p + 1] == x);
                }
            }
            assert(t[i] == k);
        }
    }
}

/// The distinct keys of `list`, ascending.
pub fn sorted_keys(list: &Vec<String>) -> (r: Vec<String>)
    ensures
        strictly_sorted(texts(r@)),
        texts(r@).to_set() == texts(list@).to_set(),
{
    let mut r: Vec<String> = Vec::new();
    let mut i: usize = 0;
    assert(texts(r@).to_set() =~= texts(list@.take(0)).to_set());
    while i < list.len()
        invariant
            0 <= i <= list.len(),
            strictly_sorted(texts(r@)),
            texts(r@).to_set() == texts(list@.take(i as int)).to_set(),
        decreases list.len() - i,
    {
        insert_key(&mut r, &list[i]);
        i += 1;
        proof {
            let a = texts(list@.take(i - 1));
            let b = texts(list@.take(i as int));
            assert(b =~= a.push(list@[i - 1]@));
            assert(b.to_set() =~= a.to_set().insert(list@[i - 1]@)) by {
                assert forall|x: Seq<char>| b.contains(x) == (a.contains(x) || x == list@[i
                    - 1]@) by {
                    if b.contains(x) {
                        let p = b.index_of(x);
                        if p < a.len() {
                            assert(a[p] == x);
                        }
                    }
                    if a.contains(x) {
                        let p = a.index_of(x);
                        assert(b[p] == x);
                    }
                    assert(b[a.len() as int] == list@[i - 1]@);
                }
            }
        }
    }
    assert(list@.take(i as int) =~= list@);
    r
}

/// Whether two lists hold the same keys in the same order.
pub fn same_keys(a: &Vec<String>, b: &Vec<String>) -> (r: bool)
    ensures
        r == (texts(a@) == texts(b@)),
{
    if a.len() != b.len() {
        assert(texts(a@).len() != texts(b@).len());
        return false;
    }
    let mut i: usize = 0;
    while i < a.len()
        invariant
            0 <= i <= a.len() == b.len(),
            forall|j: int| 0 <= j < i ==> a@[j]@ == b@[j]@,
        decreases a.len() - i,
    {
        if a[i] != b[i] {
            assert(texts(a@)[i as int] != texts(b@)[i as int]);
            return false;
        }
        i += 1;
    }
    assert(texts(a@) =~= texts(b@));
    true
}

/// Whether the list holds the key.
pub fn holds_key(list: &Vec<String>, key: &str) -> (r: bool)
    ensures
        r == texts(list@).contains(key@),
{
    let mut i: usize = 0;
    while i < list.len()
        invariant
            0 <= i <= list.len(),
            forall|j: int| 0 <= j < i ==> list@[j]@ != key@,
        decreases list.len() - i,
    {
        if crate::text::same(&list[i], key) {
            assert(texts(list@)[i as int] == key@);
            return true;
        }
        i += 1;
    }
    assert forall|j: int| 0 <= j < texts(list@).len() implies texts(list@)[j] != key@ by {
        assert(list@[j]@ != key@);
    }
    false
}

/// A copy of a list of strings.
pub fn copy_keys(list: &Vec<String>) -> (r: Vec<String>)
    ensures
        texts(r@) == texts(list@),
{
    let mut r: Vec<String> = Vec::new();
    let mut i: usize = 0;
    while i < list.len()
        invariant
            0 <= i <= list.len(),
            r@ == list@.take(i as int),
        decreases list.len() - i,
    {
        r.push(list[i].clone());
        i += 1;
        assert(list@.take(i as int) =~= list@.take(i - 1).push(list@[i - 1]));
    }
    assert(list@.take(i as int) =~= list@);
    r
}

} // verus!
