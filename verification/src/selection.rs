//! Selecting rows of a table and putting them in order.

use vstd::prelude::*;

verus! {

/// Which rows of a table are wanted, and in which order.
pub trait Query {
    /// How many rows the table has.
    spec fn size(&self) -> nat;

    /// Row `i` is wanted.
    spec fn wants(&self, i: int) -> bool;

    /// Row `i` comes before row `j`.
    spec fn before(&self, i: int, j: int) -> bool;

    /// A row that comes before a second, which comes before a third, comes before the third;
    /// no row comes before itself; of two rows one comes before the other.
    proof fn order(&self, i: int, j: int, k: int)
        requires
            0 <= i < self.size(),
            0 <= j < self.size(),
            0 <= k < self.size(),
        ensures
            self.before(i, j) && self.before(j, k) ==> self.before(i, k),
            !self.before(i, i),
            i != j ==> self.before(i, j) || self.before(j, i),
    ;

    /// How many rows the table has.
    fn row_count(&self) -> (r: usize)
        ensures
            r == self.size(),
    ;

    /// Whether row `i` is wanted.
    fn is_wanted(&self, i: usize) -> (r: bool)
        requires
            i < self.size(),
        ensures
            r == self.wants(i as int),
    ;

    /// Whether row `i` comes before row `j`.
    fn is_before(&self, i: usize, j: usize) -> (r: bool)
        requires
            i < self.size(),
            j < self.size(),
        ensures
            r == self.before(i as int, j as int),
    ;
}

/// `rows` are wanted rows among the first `bound` of the table, all of them, in order.
pub open spec fn selects_below<Q: Query>(query: Q, bound: int, rows: Seq<int>) -> bool {
    &&& forall|a: int|
        0 <= a < rows.len() ==> 0 <= #[trigger] rows[a] < bound && query.wants(rows[a])
    &&& forall|i: int| 0 <= i < bound && query.wants(i) ==> #[trigger] rows.contains(i)
    &&& forall|a: int, b: int|
        0 <= a < b < rows.len() ==> query.before(#[trigger] rows[a], #[trigger] rows[b])
}

/// `rows` are the wanted rows, all of them, in order.
pub open spec fn selects<Q: Query>(query: Q, rows: Seq<int>) -> bool {
    selects_below(query, query.size() as int, rows)
}

/// The wanted rows in order.
pub open spec fn selection<Q: Query>(query: Q) -> Seq<int> {
    choose|rows: Seq<int>| selects(query, rows)
}

/// Indices as integers.
pub open spec fn as_ints(rows: Seq<usize>) -> Seq<int> {
    rows.map_values(|i: usize| i as int)
}

/// The first `limit` elements of a list; all of them where it is shorter or `limit` is
/// negative.
pub open spec fn at_most<V>(all: Seq<V>, limit: int) -> Seq<V> {
    if limit < 0 || all.len() <= limit {
        all
    } else {
        all.take(limit)
    }
}

/// How many of `n` elements are among the first `limit`, where a negative number stands for
/// all.
pub fn bounded(n: usize, limit: i64) -> (r: usize)
    ensures
        r == (if limit < 0 || n <= limit {
            n as int
        } else {
            limit as int
        }),
{
    if limit < 0 || n as u64 <= limit as u64 {
        n
    } else {
        limit as usize
    }
}

/// Each element comes before those that follow it.
pub open spec fn in_order<V>(list: Seq<V>, before: spec_fn(V, V) -> bool) -> bool {
    forall|a: int, b: int|
        0 <= a < b < list.len() ==> before(#[trigger] list[a], #[trigger] list[b])
}

/// There is only one way to list given elements in order.
pub proof fn lemma_order_unique<V>(
    first: Seq<V>,
    second: Seq<V>,
    before: spec_fn(V, V) -> bool,
)
    requires
        in_order(first, before),
        in_order(second, before),
        forall|x: V| first.contains(x) <==> second.contains(x),
        forall|x: V, y: V| #[trigger] before(x, y) ==> !before(y, x),
    ensures
        first == second,
{
    lemma_same_start(first, second, before, first.len() as int);
    lemma_same_start(second, first, before, second.len() as int);
    assert(first =~= second);
}

/// The two lists agree on their first `n` elements.
proof fn lemma_same_start<V>(
    first: Seq<V>,
    second: Seq<V>,
    before: spec_fn(V, V) -> bool,
    n: int,
)
    requires
        in_order(first, before),
        in_order(second, before),
        forall|x: V| first.contains(x) <==> second.contains(x),
        forall|x: V, y: V| #[trigger] before(x, y) ==> !before(y, x),
        0 <= n <= first.len(),
    ensures
        n <= second.len(),
        forall|a: int| 0 <= a < n ==> first[a] == second[a],
    decreases n,
{
    if n > 0 {
        lemma_same_start(first, second, before, n - 1);
        let x = first[n - 1];
        assert(first.contains(x));
        let at = choose|b: int| 0 <= b < second.len() && second[b] == x;
        if at < n - 1 {
            assert(before(first[at], first[n - 1]));
            assert(false);
        }
        let y = second[n - 1];
        assert(second.contains(y));
        let back = choose|a: int| 0 <= a < first.len() && first[a] == y;
        if back < n - 1 {
            assert(before(second[back], second[n - 1]));
            assert(false);
        }
        if x != y {
            assert(before(first[n - 1], first[back]));
            assert(before(second[n - 1], second[at]));
            assert(false);
        }
    }
}

/// The elements of a finite set can be listed in order.
pub proof fn lemma_order_exists<V>(s: Set<V>, before: spec_fn(V, V) -> bool) -> (list: Seq<V>)
    requires
        s.finite(),
        forall|x: V, y: V, z: V|
            s.contains(x) && s.contains(y) && s.contains(z) && #[trigger] before(x, y)
                && #[trigger] before(y, z) ==> before(x, z),
        forall|x: V, y: V| #![trigger s.contains(x), s.contains(y)]
            s.contains(x) && s.contains(y) && x != y ==> before(x, y) || before(y, x),
    ensures
        in_order(list, before),
        forall|x: V| #[trigger] list.contains(x) <==> s.contains(x),
    decreases s.len(),
{
    if s.len() == 0 {
        assert(s =~= Set::empty());
        Seq::empty()
    } else {
        let x = s.choose();
        let rest = s.remove(x);
        let shorter = lemma_order_exists(rest, before);
        let p = lemma_place_exists(shorter, x, s, before, shorter.len() as int);
        let list = shorter.insert(p, x);
        assert forall|y: V| #[trigger] list.contains(y) <==> s.contains(y) by {
            if list.contains(y) {
                let a = choose|a: int| 0 <= a < list.len() && list[a] == y;
                if a < p {
                    assert(shorter[a] == y);
                } else if a > p {
                    assert(shorter[a - 1] == y);
                }
                assert(y == x || shorter.contains(y));
            }
            if s.contains(y) {
                if y == x {
                    assert(list[p] == y);
                } else {
                    assert(shorter.contains(y));
                    let a = choose|a: int| 0 <= a < shorter.len() && shorter[a] == y;
                    if a < p {
                        assert(list[a] == y);
                    } else {
                        assert(list[a + 1] == y);
                    }
                }
            }
        }
        assert forall|a: int, b: int| 0 <= a < b < list.len() implies before(
            #[trigger] list[a],
            #[trigger] list[b],
        ) by {
            let k = if a < p { a } else { a - 1 };
            let l = if b < p { b } else { b - 1 };
            if a != p {
                assert(list[a] == shorter[k]);
            }
            if b != p {
                assert(list[b] == shorter[l]);
            }
        }
        list
    }
}

/// There is a place for `x` among the first `n` elements of `list`, which is in order.
proof fn lemma_place_exists<V>(
    list: Seq<V>,
    x: V,
    s: Set<V>,
    before: spec_fn(V, V) -> bool,
    n: int,
) -> (p: int)
    requires
        0 <= n <= list.len(),
        in_order(list, before),
        s.contains(x),
        forall|y: V| #[trigger] list.contains(y) ==> s.contains(y) && y != x,
        forall|a: V, b: V, c: V|
            s.contains(a) && s.contains(b) && s.contains(c) && #[trigger] before(a, b)
                && #[trigger] before(b, c) ==> before(a, c),
        forall|a: V, b: V| #![trigger s.contains(a), s.contains(b)]
            s.contains(a) && s.contains(b) && a != b ==> before(a, b) || before(b, a),
        forall|a: int| n <= a < list.len() ==> before(x, #[trigger] list[a]),
    ensures
        0 <= p <= list.len(),
        forall|a: int| 0 <= a < p ==> before(#[trigger] list[a], x),
        forall|a: int| p <= a < list.len() ==> before(x, #[trigger] list[a]),
    decreases n,
{
    if n == 0 {
        0
    } else {
        let last = list[n - 1];
        assert(list.contains(last));
        if before(last, x) {
            assert forall|a: int| 0 <= a < n implies before(#[trigger] list[a], x) by {
                assert(list.contains(list[a]));
                if a < n - 1 {
                    assert(before(list[a], list[n - 1]));
                }
            }
            n
        } else {
            lemma_place_exists(list, x, s, before, n - 1)
        }
    }
}

/// There is only one way to list the wanted rows in order.
pub proof fn lemma_selection_unique<Q: Query>(query: Q, first: Seq<int>, second: Seq<int>)
    requires
        selects(query, first),
        selects(query, second),
    ensures
        first == second,
{
    let before = |i: int, j: int|
        0 <= i < query.size() && 0 <= j < query.size() && query.before(i, j);
    assert forall|x: int, y: int| #[trigger] before(x, y) implies !before(y, x) by {
        query.order(x, y, x);
    }
    assert forall|x: int| first.contains(x) <==> second.contains(x) by {
        if first.contains(x) {
            let a = choose|a: int| 0 <= a < first.len() && first[a] == x;
            assert(query.wants(first[a]));
        }
        if second.contains(x) {
            let a = choose|a: int| 0 <= a < second.len() && second[a] == x;
            assert(query.wants(second[a]));
        }
    }
    lemma_order_unique(first, second, before);
}

/// What selects the wanted rows is the selection.
pub proof fn lemma_is_selection<Q: Query>(query: Q, rows: Seq<int>)
    requires
        selects(query, rows),
    ensures
        selection(query) == rows,
        selects(query, selection(query)),
{
    lemma_selection_unique(query, selection(query), rows);
}

/// Where row `i` belongs among `rows`, which are in order.
fn place<Q: Query>(query: &Q, rows: &Vec<usize>, i: usize) -> (p: usize)
    requires
        selects_below(*query, i as int, as_ints(rows@)),
        i < query.size(),
    ensures
        p <= rows@.len(),
        forall|a: int| 0 <= a < p ==> query.before(#[trigger] rows@[a] as int, i as int),
        forall|a: int|
            p <= a < rows@.len() ==> query.before(i as int, #[trigger] rows@[a] as int),
{
    let ghost ints = as_ints(rows@);
    let mut low: usize = 0;
    let mut high: usize = rows.len();
    while low < high
        invariant
            low <= high <= rows@.len(),
            i < query.size(),
            ints == as_ints(rows@),
            selects_below(*query, i as int, ints),
            forall|a: int| 0 <= a < low ==> query.before(#[trigger] rows@[a] as int, i as int),
            forall|a: int|
                high <= a < rows@.len() ==> query.before(i as int, #[trigger] rows@[a] as int),
        decreases high - low,
    {
        let middle: usize = low + (high - low) / 2;
        assert(0 <= ints[middle as int] < i);
        let ghost m = rows@[middle as int] as int;
        if query.is_before(rows[middle], i) {
            assert forall|a: int| 0 <= a <= middle implies query.before(
                #[trigger] rows@[a] as int,
                i as int,
            ) by {
                if a < middle {
                    assert(query.before(ints[a], ints[middle as int]));
                    query.order(ints[a], m, i as int);
                }
            }
            low = middle + 1;
        } else {
            proof {
                query.order(m, i as int, i as int);
            }
            assert forall|a: int| middle <= a < rows@.len() implies query.before(
                i as int,
                #[trigger] rows@[a] as int,
            ) by {
                if a > middle {
                    assert(query.before(ints[middle as int], ints[a]));
                    query.order(i as int, m, ints[a]);
                }
            }
            high = middle;
        }
    }
    low
}

/// The wanted rows in order.
pub fn select<Q: Query>(query: &Q) -> (r: Vec<usize>)
    ensures
        selects(*query, as_ints(r@)),
        as_ints(r@) == selection(*query),
{
    let n: usize = query.row_count();
    let mut rows: Vec<usize> = Vec::new();
    let mut i: usize = 0;
    while i < n
        invariant
            i <= n,
            n == query.size(),
            selects_below(*query, i as int, as_ints(rows@)),
        decreases n - i,
    {
        let ghost seen = as_ints(rows@);
        if query.is_wanted(i) {
            let p: usize = place(query, &rows, i);
            let ghost held = rows@;
            rows.insert(p, i);
            proof {
                let now = as_ints(rows@);
                assert(now =~= seen.insert(p as int, i as int));
                assert forall|k: int| 0 <= k < i + 1 && query.wants(k) implies #[trigger] now.contains(
                    k,
                ) by {
                    if k == i {
                        assert(now[p as int] == i);
                    } else {
                        assert(seen.contains(k));
                        let a = choose|a: int| 0 <= a < seen.len() && seen[a] == k;
                        if a < p {
                            assert(now[a] == k);
                        } else {
                            assert(now[a + 1] == k);
                        }
                    }
                }
                assert forall|a: int| 0 <= a < now.len() implies 0 <= #[trigger] now[a] < i + 1
                    && query.wants(now[a]) by {
                    if a < p {
                        assert(now[a] == seen[a]);
                    } else if a > p {
                        assert(now[a] == seen[a - 1]);
                    }
                }
                assert forall|a: int, b: int| 0 <= a < b < now.len() implies query.before(
                    #[trigger] now[a],
                    #[trigger] now[b],
                ) by {
                    let x = if a < p { a } else { a - 1 };
                    let y = if b < p { b } else { b - 1 };
                    if a == p {
                        assert(now[b] == held[y] as int);
                    } else if b == p {
                        assert(now[a] == held[x] as int);
                    } else {
                        assert(now[a] == seen[x] && now[b] == seen[y]);
                    }
                }
            }
        } else {
            proof {
                assert forall|k: int| 0 <= k < i + 1 && query.wants(k) implies #[trigger] seen.contains(
                    k,
                ) by {}
            }
        }
        i = i + 1;
    }
    proof {
        lemma_is_selection(*query, as_ints(rows@));
    }
    rows
}

/// The first elements of a list stand where they stood: as many as were asked for where there
/// are that many, and otherwise, or where the number is negative, all of them.
pub proof fn first_elements_stand_where_they_stood<V>(all: Seq<V>, limit: int, i: int)
    ensures
        limit < 0 ==> at_most(all, limit).len() == all.len(),
        0 <= limit <= all.len() ==> at_most(all, limit).len() == limit,
        all.len() < limit ==> at_most(all, limit).len() == all.len(),
        0 <= i < at_most(all, limit).len() ==> at_most(all, limit)[i] == all[i],
{
}

} // verus!
