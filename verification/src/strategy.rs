//! The decisions of the team strategy that do not depend on the geometry: when to plan after a
//! goal, which roles to take, in which order the robots plan, and how their orders rank.
use vstd::prelude::*;
use crate::roles::{Forward, Role};

verus! {

/// The score by which new roles must beat the current ones to be taken.
pub const ROBOT_ROLE_CHANGE_GAP: i32 = 0;

/// The score that each later place in the priority order costs an order.
pub const ROBOT_PRIORITY_CHANGE_GAP: i32 = 0;

/// The ticks after a goal during which the robots do not plan.
pub const TICKS_AFTER_RESET: i32 = 20;

/// Whether the robots plan at the tick `current_tick`, the last pause after a goal having been
/// seen at `last_reset_tick`: only more than `TICKS_AFTER_RESET` ticks later.
pub fn may_plan(current_tick: i32, last_reset_tick: i32) -> (r: bool)
    requires
        i32::MIN <= current_tick - last_reset_tick <= i32::MAX,
    ensures
        r == (current_tick - last_reset_tick > TICKS_AFTER_RESET),
{
    current_tick - last_reset_tick > TICKS_AFTER_RESET
}

/// Every teammate, given by its identifier, as a forward, in the same order.
pub fn roles_for_teammates(teammate_ids: &Vec<i32>) -> (r: Vec<Role>)
    ensures
        r@.len() == teammate_ids@.len(),
        forall|i: int|
            0 <= i < r@.len() ==> #[trigger] r@[i] == Role::Forward(Forward { robot_id: teammate_ids@[i] }),
{
    let mut result: Vec<Role> = Vec::new();
    let mut i: usize = 0;
    while i < teammate_ids.len()
        invariant
            i <= teammate_ids@.len(),
            result@.len() == i,
            forall|j: int|
                0 <= j < i ==> #[trigger] result@[j] == Role::Forward(Forward { robot_id: teammate_ids@[j] }),
        decreases teammate_ids@.len() - i,
    {
        result.push(Role::forward(teammate_ids[i]));
        i = i + 1;
    }
    result
}

/// Whether two lists of roles are the same, role by role.
pub fn same_roles(current: &Vec<Role>, new: &Vec<Role>) -> (r: bool)
    ensures
        r == (current@ == new@),
{
    if current.len() != new.len() {
        return false;
    }
    let mut i: usize = 0;
    while i < current.len()
        invariant
            current@.len() == new@.len(),
            i <= current@.len(),
            forall|j: int| 0 <= j < i ==> current@[j] == new@[j],
        decreases current@.len() - i,
    {
        if current[i] != new[i] {
            return false;
        }
        i = i + 1;
    }
    proof {
        assert(current@ =~= new@);
    }
    true
}

/// Whether the new roles replace the current ones: they must differ, and either there are no
/// current roles or the new roles score more than `ROBOT_ROLE_CHANGE_GAP` above them.
pub fn accept_roles(current: &Vec<Role>, new: &Vec<Role>, current_score: i32, new_score: i32) -> (r:
    bool)
    requires
        current_score + ROBOT_ROLE_CHANGE_GAP <= i32::MAX,
    ensures
        r == (current@ != new@ && (current@.len() == 0 || new_score > current_score
            + ROBOT_ROLE_CHANGE_GAP)),
{
    let same = same_roles(current, new);
    !same && (current.len() == 0 || new_score > current_score + ROBOT_ROLE_CHANGE_GAP)
}

/// The order of pairs by their first component, then their second.
pub open spec fn pair_le(a: (i32, i32), b: (i32, i32)) -> bool {
    a.0 < b.0 || (a.0 == b.0 && a.1 <= b.1)
}

fn pair_le_exec(a: (i32, i32), b: (i32, i32)) -> (r: bool)
    ensures
        r == pair_le(a, b),
{
    a.0 < b.0 || (a.0 == b.0 && a.1 <= b.1)
}

/// Pairs are ordered by their first component, and by their second where the first ones are
/// equal.
pub proof fn lemma_pair_le_lexicographic(a: (i32, i32), b: (i32, i32))
    ensures
        pair_le(a, b) <==> (a.0 < b.0 || (a.0 == b.0 && a.1 <= b.1)),
        a.0 < b.0 ==> pair_le(a, b) && !pair_le(b, a),
{
}

pub open spec fn sorted_pairs(s: Seq<(i32, i32)>) -> bool {
    forall|i: int, j: int| 0 <= i < j < s.len() ==> pair_le(s[i], s[j])
}

/// Sorts `v` in place by insertion into the total order `le`, which `le_exec` decides; entries
/// that `le` ranks both ways keep no particular order among themselves.
fn insertion_sort<E: Copy>(
    v: &mut Vec<E>,
    Ghost(le): Ghost<spec_fn(E, E) -> bool>,
    le_exec: impl Fn(E, E) -> bool,
)
    requires
        forall|a: E, b: E| #[trigger] le(a, b) || le(b, a),
        forall|a: E, b: E, c: E| #[trigger] le(a, b) && #[trigger] le(b, c) ==> le(a, c),
        forall|a: E, b: E| le_exec.requires((a, b)),
        forall|a: E, b: E, r: bool| le_exec.ensures((a, b), r) ==> r == le(a, b),
    ensures
        forall|a: int, b: int| 0 <= a < b < final(v)@.len() ==> le(final(v)@[a], final(v)@[b]),
        final(v)@.to_multiset() == old(v)@.to_multiset(),
        final(v)@.len() == old(v)@.len(),
{
    let n = v.len();
    if n <= 1 {
        return ;
    }
    let mut i: usize = 1;
    while i < n
        invariant
            1 <= i <= n,
            n == v@.len(),
            forall|a: E, b: E| #[trigger] le(a, b) || le(b, a),
            forall|a: E, b: E, c: E| #[trigger] le(a, b) && #[trigger] le(b, c) ==> le(a, c),
            forall|a: E, b: E| le_exec.requires((a, b)),
            forall|a: E, b: E, r: bool| le_exec.ensures((a, b), r) ==> r == le(a, b),
            forall|a: int, b: int| 0 <= a < b < i ==> le(v@[a], v@[b]),
            v@.to_multiset() == old(v)@.to_multiset(),
        decreases n - i,
    {
        let mut j = i;
        while j > 0 && !le_exec(v[j - 1], v[j])
            invariant
                0 <= j <= i < n,
                n == v@.len(),
                forall|a: E, b: E| #[trigger] le(a, b) || le(b, a),
                forall|a: E, b: E, c: E| #[trigger] le(a, b) && #[trigger] le(b, c) ==> le(a, c),
                forall|a: E, b: E| le_exec.requires((a, b)),
                forall|a: E, b: E, r: bool| le_exec.ensures((a, b), r) ==> r == le(a, b),
                v@.to_multiset() == old(v)@.to_multiset(),
                forall|a: int, b: int| 0 <= a < b < j ==> le(v@[a], v@[b]),
                forall|a: int, b: int| j < a < b <= i ==> le(v@[a], v@[b]),
                forall|a: int, b: int| 0 <= a < j && j < b <= i ==> le(v@[a], v@[b]),
                forall|b: int| j < b <= i ==> le(v@[j as int], v@[b]),
            decreases j,
        {
            let x = v[j];
            let y = v[j - 1];
            let ghost before = v@;
            proof {
                assert(!le(y, x));
                assert(le(x, y));
            }
            v.set(j - 1, x);
            v.set(j, y);
            proof {
                crate::random::lemma_swap_multiset(before, j - 1, j as int);
                assert(v@ =~= crate::random::swap_seq(before, j - 1, j as int));
                assert forall|b: int| j < b <= i implies le(v@[j as int], #[trigger] v@[b]) by {
                    assert(le(before[j as int], before[b]));
                }
                assert forall|b: int| j - 1 < b <= i implies le(v@[j - 1], #[trigger] v@[b]) by {
                    if b > j {
                        assert(le(before[j as int], before[b]));
                        assert(le(x, y) && le(y, v@[b]));
                    }
                }
                assert forall|a: int, b: int| 0 <= a < j - 1 && j - 1 < b <= i implies le(
                    v@[a],
                    v@[b],
                ) by {
                    if b == j {
                        assert(le(before[a], before[j - 1]));
                    } else {
                        assert(le(before[a], before[b]));
                    }
                }
                assert forall|a: int, b: int| j - 1 < a < b <= i implies le(v@[a], v@[b]) by {
                    if a == j {
                        assert(le(before[j - 1], before[b]));
                    } else {
                        assert(le(before[a], before[b]));
                    }
                }
            }
            j = j - 1;
        }
        proof {
            if j > 0 {
                assert(le(v@[j - 1], v@[j as int]));
            }
            assert forall|a: int, b: int| 0 <= a < b < i + 1 implies le(v@[a], v@[b]) by {
                if b < j {
                } else if b == j {
                    if a < j - 1 {
                        assert(le(v@[a], v@[j - 1]) && le(v@[j - 1], v@[j as int]));
                    }
                } else if a < j {
                } else if a == j {
                } else {
                }
            }
        }
        i = i + 1;
    }
}

/// The priority of the robots: their identifiers ordered by the paired score (the distance to the
/// ball), then by identifier.
pub fn priority_by_score(pairs: Vec<(i32, i32)>) -> (r: Vec<i32>)
    ensures
        exists|sorted: Seq<(i32, i32)>|
            {
                &&& sorted_pairs(sorted)
                &&& forall|i: int, j: int|
                    0 <= i < j < sorted.len() ==> (#[trigger] sorted[i]).0 < (#[trigger] sorted[j]).0 || (
                    sorted[i].0 == sorted[j].0 && sorted[i].1 <= sorted[j].1)
                &&& sorted.to_multiset() == pairs@.to_multiset()
                &&& r@ == sorted.map_values(|p: (i32, i32)| p.1)
            },
{
    let mut sorted = pairs;
    let ghost le = |a: (i32, i32), b: (i32, i32)| pair_le(a, b);
    insertion_sort(
        &mut sorted,
        Ghost(le),
        pair_le_exec,
    );
    proof {
        assert forall|i: int, j: int| 0 <= i < j < sorted@.len() implies pair_le(sorted@[i], sorted@[j]) by {
            assert(le(sorted@[i], sorted@[j]));
        }
    }
    let mut ids: Vec<i32> = Vec::new();
    let mut i: usize = 0;
    while i < sorted.len()
        invariant
            i <= sorted@.len(),
            ids@ == sorted@.subrange(0, i as int).map_values(|p: (i32, i32)| p.1),
        decreases sorted@.len() - i,
    {
        ids.push(sorted[i].1);
        i = i + 1;
        proof {
            assert(ids@ =~= sorted@.subrange(0, i as int).map_values(|p: (i32, i32)| p.1));
        }
    }
    proof {
        assert(sorted@.subrange(0, i as int) =~= sorted@);
        assert(sorted_pairs(sorted@));
        assert forall|a: int, b: int| 0 <= a < b < sorted@.len() implies (#[trigger] sorted@[a]).0 < (
        #[trigger] sorted@[b]).0 || (sorted@[a].0 == sorted@[b].0 && sorted@[a].1 <= sorted@[b].1) by {
            lemma_pair_le_lexicographic(sorted@[a], sorted@[b]);
        }
        assert(sorted@.to_multiset() == pairs@.to_multiset());
    }
    ids
}

/// The order of keyed positions by their key, then their position.
pub open spec fn keyed_le(a: (i32, usize), b: (i32, usize)) -> bool {
    a.0 < b.0 || (a.0 == b.0 && a.1 <= b.1)
}

fn keyed_le_exec(a: (i32, usize), b: (i32, usize)) -> (r: bool)
    ensures
        r == keyed_le(a, b),
{
    a.0 < b.0 || (a.0 == b.0 && a.1 <= b.1)
}

/// The key by which the order at position `n` of the priority order ranks, smaller first: minus
/// its score, raised by `ROBOT_PRIORITY_CHANGE_GAP` for each place when the robots had orders.
pub open spec fn rank_key(score: i32, n: usize, has_orders: bool) -> int {
    if has_orders {
        -(score - (n as i32) * ROBOT_PRIORITY_CHANGE_GAP)
    } else {
        -score
    }
}

/// Ranking keys order the orders by score, the highest first, whether or not the robots had
/// orders.
pub proof fn lemma_rank_key_by_score(s1: i32, n1: usize, s2: i32, n2: usize, has_orders: bool)
    ensures
        rank_key(s1, n1, has_orders) < rank_key(s2, n2, has_orders) <==> s1 > s2,
        rank_key(s1, n1, has_orders) == rank_key(s2, n2, has_orders) <==> s1 == s2,
{
    assert((n1 as i32) * ROBOT_PRIORITY_CHANGE_GAP == 0);
    assert((n2 as i32) * ROBOT_PRIORITY_CHANGE_GAP == 0);
}

fn order_key(score: i32, n: usize, has_orders: bool) -> (r: i32)
    requires
        score > i32::MIN,
    ensures
        r == rank_key(score, n, has_orders),
{
    if has_orders {
        -(score - (n as i32) * ROBOT_PRIORITY_CHANGE_GAP)
    } else {
        -score
    }
}

/// The positions of the orders from the best to the worst, by `rank_key`; orders with equal keys
/// keep their order. The result holds each position once.
pub fn rank_orders(scores: &Vec<i32>, has_orders: bool) -> (r: Vec<usize>)
    requires
        forall|i: int| 0 <= i < scores@.len() ==> #[trigger] scores@[i] > i32::MIN,
    ensures
        r@.len() == scores@.len(),
        forall|i: int| 0 <= i < r@.len() ==> #[trigger] r@[i] < scores@.len(),
        forall|i: int, j: int| 0 <= i < j < r@.len() ==> r@[i] != r@[j],
        forall|i: int, j: int|
            #![trigger r@[i], r@[j]]
            0 <= i < j < r@.len() ==> {
                let a = r@[i];
                let b = r@[j];
                rank_key(scores@[a as int], a, has_orders) < rank_key(scores@[b as int], b, has_orders)
                    || (rank_key(scores@[a as int], a, has_orders) == rank_key(
                    scores@[b as int],
                    b,
                    has_orders,
                ) && a < b)
            },
        forall|i: int, j: int|
            #![trigger r@[i], r@[j]]
            0 <= i < j < r@.len() ==> scores@[r@[i] as int] > scores@[r@[j] as int] || (scores@[r@[i] as int]
                == scores@[r@[j] as int] && r@[i] < r@[j]),
{
    let n = scores.len();
    let mut keyed: Vec<(i32, usize)> = Vec::new();
    let mut k: usize = 0;
    while k < n
        invariant
            k <= n,
            n == scores@.len(),
            keyed@.len() == k,
            forall|i: int| 0 <= i < scores@.len() ==> #[trigger] scores@[i] > i32::MIN,
            forall|i: int|
                0 <= i < k ==> #[trigger] keyed@[i] == (
                    rank_key(scores@[i], i as usize, has_orders) as i32,
                    i as usize,
                ),
        decreases n - k,
    {
        let key = order_key(scores[k], k, has_orders);
        keyed.push((key, k));
        k = k + 1;
    }
    let ghost built = keyed@;
    proof {
        assert(built.no_duplicates()) by {
            assert forall|a: int, b: int| 0 <= a < built.len() && 0 <= b < built.len() && a != b implies built[a]
                != built[b] by {
                assert(built[a].1 == a as usize);
                assert(built[b].1 == b as usize);
            }
        }
        built.lemma_multiset_has_no_duplicates();
    }
    insertion_sort(
        &mut keyed,
        Ghost(|a: (i32, usize), b: (i32, usize)| keyed_le(a, b)),
        keyed_le_exec,
    );
    let ghost out = keyed@;
    proof {
        broadcast use vstd::seq_lib::to_multiset_contains;
        out.lemma_multiset_has_no_duplicates_conv();
        assert forall|i: int| 0 <= i < out.len() implies (#[trigger] out[i]).1 < n && out[i].0 == rank_key(
            scores@[out[i].1 as int],
            out[i].1,
            has_orders,
        ) by {
            assert(out.contains(out[i]));
            assert(out.to_multiset().count(out[i]) > 0);
            assert(built.to_multiset().count(out[i]) > 0);
            assert(built.contains(out[i]));
            let m = choose|m: int| 0 <= m < built.len() && built[m] == out[i];
            assert(built[m] == (rank_key(scores@[m], m as usize, has_orders) as i32, m as usize));
        }
    }
    let mut result: Vec<usize> = Vec::new();
    let mut i: usize = 0;
    while i < keyed.len()
        invariant
            i <= keyed@.len(),
            keyed@ == out,
            result@.len() == i,
            forall|j: int| 0 <= j < i ==> #[trigger] result@[j] == out[j].1,
        decreases keyed@.len() - i,
    {
        result.push(keyed[i].1);
        i = i + 1;
    }
    proof {
        assert forall|a: int, b: int| 0 <= a < b < result@.len() implies result@[a] != result@[b] by {
            if result@[a] == result@[b] {
                assert(out[a] == out[b]);
            }
        }
        assert forall|a: int, b: int| 0 <= a < b < result@.len() implies {
            let x = #[trigger] result@[a];
            let y = #[trigger] result@[b];
            rank_key(scores@[x as int], x, has_orders) < rank_key(scores@[y as int], y, has_orders) || (
            rank_key(scores@[x as int], x, has_orders) == rank_key(scores@[y as int], y, has_orders)
                && x < y)
        } by {
            assert(keyed_le(out[a], out[b]));
            assert(out[a] != out[b]);
            assert(out[a].0 == rank_key(scores@[out[a].1 as int], out[a].1, has_orders));
            assert(out[b].0 == rank_key(scores@[out[b].1 as int], out[b].1, has_orders));
        }
        assert forall|a: int, b: int| 0 <= a < b < result@.len() implies {
            let x = #[trigger] result@[a];
            let y = #[trigger] result@[b];
            scores@[x as int] > scores@[y as int] || (scores@[x as int] == scores@[y as int] && x < y)
        } by {
            let x = result@[a];
            let y = result@[b];
            lemma_rank_key_by_score(scores@[x as int], x, scores@[y as int], y, has_orders);
        }
    }
    result
}

} // verus!
