//! Nearest-neighbour ordering of the stops of a distance table.
//!
//! Stop 0 is where the tour starts; every other stop is visited once, each
//! time moving to the stop nearest to the one just reached.

use vstd::prelude::*;
use vstd::seq_lib::{lemma_multiset_commutative, to_multiset_contains, to_multiset_remove};
use crate::distance::DistanceTable;

verus! {

/// Whether position `k` holds the least of `keys` and no earlier position
/// holds an equal key.
pub open spec fn is_nearest(keys: Seq<u64>, k: int) -> bool {
    &&& 0 <= k < keys.len()
    &&& forall|m: int| 0 <= m < k ==> keys[k] < #[trigger] keys[m]
    &&& forall|m: int| k <= m < keys.len() ==> keys[k] <= #[trigger] keys[m]
}

/// The first position of the least of `keys` (arbitrary when `keys` is empty).
pub open spec fn nearest_position(keys: Seq<u64>) -> int {
    choose|k: int| is_nearest(keys, k)
}

/// The keys of the distances from stop `from` to each stop of `pool`, in
/// `pool`'s order.
pub open spec fn pool_keys(table: Seq<Seq<u64>>, from: usize, pool: Seq<usize>) -> Seq<u64> {
    Seq::new(pool.len(), |p: int| table[from as int][pool[p] as int])
}

/// The stops `1, 2, .., dim - 1` in increasing order.
pub open spec fn stops_after_start(dim: nat) -> Seq<usize> {
    if dim == 0 {
        Seq::empty()
    } else {
        Seq::new((dim - 1) as nat, |k: int| (k + 1) as usize)
    }
}

/// The order in which the stops of `pool` are visited when starting at
/// `from`: the nearest stop of the pool comes first (the earliest in the pool
/// among equally near ones), and the rest of the pool is then visited in the
/// same way from there.
pub open spec fn greedy_visits(table: Seq<Seq<u64>>, from: usize, pool: Seq<usize>) -> Seq<usize>
    decreases pool.len(),
{
    if pool.len() == 0 {
        Seq::empty()
    } else {
        let k = nearest_position(pool_keys(table, from, pool));
        proof {
            nearest_position_is_unique(pool_keys(table, from, pool), k);
        }
        seq![pool[k]] + greedy_visits(table, pool[k], pool.remove(k))
    }
}

/// Every non-empty sequence of keys has exactly one nearest position.
pub proof fn nearest_position_is_unique(keys: Seq<u64>, k: int)
    requires
        keys.len() > 0,
    ensures
        is_nearest(keys, nearest_position(keys)),
        is_nearest(keys, k) ==> k == nearest_position(keys),
    decreases keys.len(),
{
    if keys.len() == 1 {
        assert(is_nearest(keys, 0));
    } else {
        let front = keys.drop_last();
        let last = keys.len() - 1;
        nearest_position_is_unique(front, 0);
        let f = nearest_position(front);
        assert(forall|m: int| 0 <= m < front.len() ==> front[m] == keys[m]);
        if keys[last] < keys[f] {
            assert(is_nearest(keys, last));
        } else {
            assert(is_nearest(keys, f));
        }
    }
}

/// The visits rearrange the pool: every stop of the pool is visited, as often
/// as the pool holds it, and nothing else is.
pub proof fn greedy_visits_rearranges(table: Seq<Seq<u64>>, from: usize, pool: Seq<usize>)
    ensures
        greedy_visits(table, from, pool).len() == pool.len(),
        greedy_visits(table, from, pool).to_multiset() == pool.to_multiset(),
    decreases pool.len(),
{

    let visits = greedy_visits(table, from, pool);
    if pool.len() == 0 {
        assert(visits =~= pool);
    } else {
        let keys = pool_keys(table, from, pool);
        nearest_position_is_unique(keys, 0);
        let k = nearest_position(keys);
        let rest = greedy_visits(table, pool[k], pool.remove(k));
        greedy_visits_rearranges(table, pool[k], pool.remove(k));
        to_multiset_remove(pool, k);
        to_multiset_contains(pool, pool[k]);
        lemma_multiset_commutative(seq![pool[k]], rest);
        assert(seq![pool[k]].to_multiset() =~= vstd::multiset::Multiset::singleton(pool[k])) by {
            Seq::<usize>::empty().to_multiset_ensures();
        }
    }
}

/// Every visit goes to the nearest of the stops not yet visited: seen from
/// the stop where a visit sets out (`from` for the first, the stop visited
/// just before for the others), no later visit has a smaller key.
pub proof fn greedy_visits_go_to_nearest(
    table: Seq<Seq<u64>>,
    from: usize,
    pool: Seq<usize>,
    p: int,
    q: int,
)
    requires
        0 <= p <= q < pool.len(),
    ensures
        ({
            let visits = greedy_visits(table, from, pool);
            let origin = if p == 0 {
                from
            } else {
                visits[p - 1]
            };
            table[origin as int][visits[p] as int] <= table[origin as int][visits[q] as int]
        }),
    decreases pool.len(),
{
    let visits = greedy_visits(table, from, pool);
    let keys = pool_keys(table, from, pool);
    nearest_position_is_unique(keys, 0);
    let k = nearest_position(keys);
    let rest = greedy_visits(table, pool[k], pool.remove(k));
    greedy_visits_rearranges(table, from, pool);
    if p == 0 {
        to_multiset_contains(visits, visits[q]);
        to_multiset_contains(pool, visits[q]);
        let m = choose|m: int| 0 <= m < pool.len() && pool[m] == visits[q];
        assert(keys[m] == table[from as int][visits[q] as int]);
    } else {
        greedy_visits_go_to_nearest(table, pool[k], pool.remove(k), p - 1, q - 1);
    }
}

/// Whether the stops of `pool` stand in increasing order, none twice.
pub open spec fn is_increasing(pool: Seq<usize>) -> bool {
    forall|a: int, b: int| 0 <= a < b < pool.len() ==> pool[a] < pool[b]
}

/// Of two stops equally near, the one that stands earlier in the pool is
/// visited first: when a visit and a later visit have the same key seen
/// from where the earlier one sets out, the earlier one goes to the stop
/// with the smaller number.
pub proof fn greedy_visits_break_ties_by_order(
    table: Seq<Seq<u64>>,
    from: usize,
    pool: Seq<usize>,
    p: int,
    q: int,
)
    requires
        is_increasing(pool),
        0 <= p < q < pool.len(),
    ensures
        ({
            let visits = greedy_visits(table, from, pool);
            let origin = if p == 0 {
                from
            } else {
                visits[p - 1]
            };
            table[origin as int][visits[p] as int] == table[origin as int][visits[q] as int]
                ==> visits[p] < visits[q]
        }),
    decreases pool.len(),
{
    let visits = greedy_visits(table, from, pool);
    let keys = pool_keys(table, from, pool);
    nearest_position_is_unique(keys, 0);
    let k = nearest_position(keys);
    let left = pool.remove(k);
    let rest = greedy_visits(table, pool[k], left);
    greedy_visits_rearranges(table, pool[k], left);
    if p == 0 {
        to_multiset_contains(rest, rest[q - 1]);
        to_multiset_contains(left, rest[q - 1]);
        let m = choose|m: int| 0 <= m < left.len() && left[m] == rest[q - 1];
        if m < k {
            assert(keys[m] == table[from as int][visits[q] as int]);
        }
    } else {
        greedy_visits_break_ties_by_order(table, pool[k], left, p - 1, q - 1);
    }
}

/// Whether, seen from `origin`, stop `a` is nearer than stop `b`, or as near
/// and lower in number.
pub open spec fn comes_before(table: Seq<Seq<u64>>, origin: usize, a: usize, b: usize) -> bool {
    let key_a = table[origin as int][a as int];
    let key_b = table[origin as int][b as int];
    key_a < key_b || (key_a == key_b && a < b)
}

/// Whether `visits` goes through the stops of `pool` nearest first: it
/// rearranges the pool, and each visit goes to a stop that, seen from where
/// the visit sets out (`from` for the first, the stop visited just before
/// for the others), is nearer than every stop visited later, or as near and
/// lower in number.
pub open spec fn is_nearest_first(
    table: Seq<Seq<u64>>,
    from: usize,
    pool: Seq<usize>,
    visits: Seq<usize>,
) -> bool {
    &&& visits.to_multiset() == pool.to_multiset()
    &&& forall|p: int, q: int|
        0 <= p < q < visits.len() ==> comes_before(
            table,
            if p == 0 {
                from
            } else {
                visits[p - 1]
            },
            #[trigger] visits[p],
            #[trigger] visits[q],
        )
}

/// The visits of a pool in increasing order go through it nearest first.
pub proof fn greedy_visits_are_nearest_first(table: Seq<Seq<u64>>, from: usize, pool: Seq<usize>)
    requires
        is_increasing(pool),
    ensures
        is_nearest_first(table, from, pool, greedy_visits(table, from, pool)),
{
    let visits = greedy_visits(table, from, pool);
    greedy_visits_rearranges(table, from, pool);
    assert forall|p: int, q: int| 0 <= p < q < visits.len() implies comes_before(
        table,
        if p == 0 {
            from
        } else {
            visits[p - 1]
        },
        #[trigger] visits[p],
        #[trigger] visits[q],
    ) by {
        greedy_visits_go_to_nearest(table, from, pool, p, q);
        greedy_visits_break_ties_by_order(table, from, pool, p, q);
    }
}

/// Only one order goes through a pool nearest first: whatever does is the
/// order of the visits.
pub proof fn nearest_first_is_unique(
    table: Seq<Seq<u64>>,
    from: usize,
    pool: Seq<usize>,
    visits: Seq<usize>,
)
    requires
        is_increasing(pool),
        is_nearest_first(table, from, pool, visits),
    ensures
        visits == greedy_visits(table, from, pool),
    decreases pool.len(),
{
    broadcast use vstd::multiset::group_multiset_axioms;

    visits.to_multiset_ensures();
    pool.to_multiset_ensures();
    if pool.len() > 0 {
        let keys = pool_keys(table, from, pool);
        nearest_position_is_unique(keys, 0);
        let k = nearest_position(keys);
        let left = pool.remove(k);
        let rest = visits.drop_first();
        // The first visit goes to the stop at the nearest position: were
        // that stop visited later, the first visit would have to come
        // before it, and no stop of the pool does.
        assert(visits[0] == pool[k]) by {
            to_multiset_contains(pool, visits[0]);
            to_multiset_contains(visits, pool[k]);
            let m = choose|m: int| 0 <= m < pool.len() && pool[m] == visits[0];
            let q = choose|q: int| 0 <= q < visits.len() && visits[q] == pool[k];
            assert(keys[m] == table[from as int][visits[0] as int]);
            if q > 0 {
                assert(comes_before(table, from, visits[0], visits[q]));
            }
        }
        // What follows goes nearest first through what is left of the pool.
        assert(is_nearest_first(table, pool[k], left, rest)) by {
            to_multiset_remove(pool, k);
            to_multiset_remove(visits, 0);
            assert(visits.remove(0) =~= rest);
            assert forall|p: int, q: int| 0 <= p < q < rest.len() implies comes_before(
                table,
                if p == 0 {
                    pool[k]
                } else {
                    rest[p - 1]
                },
                #[trigger] rest[p],
                #[trigger] rest[q],
            ) by {
                assert(comes_before(table, visits[p], visits[p + 1], visits[q + 1]));
            }
        }
        nearest_first_is_unique(table, pool[k], left, rest);
        assert(visits =~= seq![pool[k]] + rest);
    } else {
        assert(visits =~= greedy_visits(table, from, pool));
    }
}

/// The position in `pool` of the stop nearest to `from`.
fn nearest_in_pool(table: &DistanceTable, from: usize, pool: &Vec<usize>) -> (k: usize)
    requires
        pool.len() > 0,
        from < table@.len(),
        forall|p: int| 0 <= p < pool.len() ==> pool[p] < table@.len(),
    ensures
        is_nearest(pool_keys(table@, from, pool@), k as int),
{
    let ghost keys = pool_keys(table@, from, pool@);
    let mut nearest: usize = 0;
    let mut least: u64 = table.key(from, pool[0]);
    let mut p: usize = 1;
    while p < pool.len()
        invariant
            1 <= p <= pool.len(),
            nearest < p,
            from < table@.len(),
            forall|q: int| 0 <= q < pool.len() ==> pool[q] < table@.len(),
            keys == pool_keys(table@, from, pool@),
            least == keys[nearest as int],
            is_nearest(keys.take(p as int), nearest as int),
        decreases pool.len() - p,
    {
        let key = table.key(from, pool[p]);
        if key < least {
            least = key;
            nearest = p;
        }
        p += 1;
    }
    proof {
        assert(keys.take(p as int) =~= keys);
    }
    nearest
}

/// Visits every stop of the table after stop 0, nearest first, and returns
/// the stops in the order of the visits.
pub fn visit_order(table: &DistanceTable) -> (order: Vec<usize>)
    ensures
        order@ == greedy_visits(table@, 0, stops_after_start(table@.len())),
        is_nearest_first(table@, 0, stops_after_start(table@.len()), order@),
{
    let dim = table.dim();
    proof {
        greedy_visits_are_nearest_first(table@, 0, stops_after_start(dim as nat));
    }
    let mut unvisited: Vec<usize> = Vec::new();
    let mut s: usize = 1;
    while s < dim
        invariant
            1 <= s,
            s <= dim || (dim == 0 && s == 1),
            unvisited@ == stops_after_start(s as nat),
        decreases dim - s,
    {
        unvisited.push(s);
        s += 1;
    }
    let mut order: Vec<usize> = Vec::new();
    let mut current: usize = 0;
    while unvisited.len() > 0
        invariant
            dim == table@.len(),
            unvisited.len() > 0 ==> current < dim,
            forall|p: int| 0 <= p < unvisited.len() ==> unvisited[p] < dim,
            order@ + greedy_visits(table@, current, unvisited@) == greedy_visits(
                table@,
                0,
                stops_after_start(dim as nat),
            ),
        decreases unvisited.len(),
    {
        let k = nearest_in_pool(table, current, &unvisited);
        let ghost pool = unvisited@;
        let ghost before = order@;
        proof {
            nearest_position_is_unique(pool_keys(table@, current, pool), k as int);
        }
        let next = unvisited.remove(k);
        order.push(next);
        proof {
            assert(order@ + greedy_visits(table@, next, unvisited@) =~= before + greedy_visits(
                table@,
                current,
                pool,
            ));
        }
        current = next;
    }
    order
}

} // verus!
