//! Evaluation orders: what makes one valid, what makes it the stable one,
//! and the resolver that computes it.

use vstd::prelude::*;
use crate::counting::{count_marked, count_marked_all, count_marked_full, count_marked_grows, count_marked_none};
use crate::cycle::{acyclic, all_met, cycle_link, is_cycle, is_simple, next_on, stuck, waiting};
use crate::graph::{depends_on, DependencyGraph};
use crate::schema::Target;
use crate::shortest::{is_minimal_cycle, minimal_cycle_starts_at_earliest_field, shortest_cycle_is_simple};

verus! {

/// Field `f` stands in `order` before position `k`.
pub open spec fn placed_before(order: Seq<usize>, k: int, f: usize) -> bool {
    exists|j: int| 0 <= j < k && j < order.len() && #[trigger] order[j] == f
}

/// Every field that `f` reads stands in `order` before position `k`.
/// Parameters count as evaluated from the start.
pub open spec fn deps_placed(edges: Seq<Seq<Target>>, order: Seq<usize>, k: int, f: usize) -> bool {
    forall|d: usize| #[trigger] depends_on(edges, f, d) ==> placed_before(order, k, d)
}

/// Field `f` could be evaluated at position `k`: it is not placed yet and
/// everything it reads is.
pub open spec fn ready(edges: Seq<Seq<Target>>, order: Seq<usize>, k: int, f: usize) -> bool {
    &&& f < edges.len()
    &&& !placed_before(order, k, f)
    &&& deps_placed(edges, order, k, f)
}

/// `order` is a valid evaluation order: it holds every field once, and every
/// field after all the fields it reads.
pub open spec fn is_topological(edges: Seq<Seq<Target>>, order: Seq<usize>) -> bool {
    &&& order.len() == edges.len()
    &&& forall|k: int| 0 <= k < order.len() ==> #[trigger] order[k] < edges.len()
    &&& forall|j: int, k: int| 0 <= j < k < order.len() ==> order[j] != order[k]
    &&& forall|f: usize| f < edges.len() ==> #[trigger] placed_before(order, order.len() as int, f)
    &&& forall|k: int| 0 <= k < order.len() ==> #[trigger] deps_placed(edges, order, k, order[k])
}

/// Among the fields that could be evaluated at a position, `order` takes the
/// one declared first.
pub open spec fn earliest_first(edges: Seq<Seq<Target>>, order: Seq<usize>) -> bool {
    forall|k: int, f: usize|
        0 <= k < order.len() && #[trigger] ready(edges, order, k, f) ==> order[k] <= f
}

/// `order` is the stable evaluation order of the graph: a valid order in
/// which ties are broken by declaration order.
pub open spec fn is_stable_order(edges: Seq<Seq<Target>>, order: Seq<usize>) -> bool {
    &&& is_topological(edges, order)
    &&& earliest_first(edges, order)
}

/// Where field `f` stands in `order`.
pub open spec fn position_in(order: Seq<usize>, f: usize) -> int {
    choose|j: int| 0 <= j < order.len() && order[j] == f
}

/// In a valid evaluation order every field has exactly one position.
pub proof fn position_is_exact(edges: Seq<Seq<Target>>, order: Seq<usize>, k: int)
    requires
        is_topological(edges, order),
        0 <= k < order.len(),
    ensures
        position_in(order, order[k]) == k,
{
    let p = position_in(order, order[k]);
    assert(0 <= p < order.len() && order[p] == order[k]);
    if p < k {
        assert(order[p] != order[k]);
    } else if k < p {
        assert(order[k] != order[p]);
    }
}

/// In a valid evaluation order, the position of every field exceeds the
/// position of every field it depends on.
pub proof fn dependencies_come_first(edges: Seq<Seq<Target>>, order: Seq<usize>, a: usize, b: usize)
    requires
        is_topological(edges, order),
        depends_on(edges, a, b),
    ensures
        0 <= position_in(order, b) < position_in(order, a) < order.len(),
        order[position_in(order, a)] == a,
        order[position_in(order, b)] == b,
{
    assert(placed_before(order, order.len() as int, a));
    let ja = choose|j: int| 0 <= j < order.len() && j < order.len() && #[trigger] order[j] == a;
    position_is_exact(edges, order, ja);
    assert(deps_placed(edges, order, ja, order[ja]));
    assert(placed_before(order, ja, b));
    let jb = choose|j: int| 0 <= j < ja && j < order.len() && #[trigger] order[j] == b;
    position_is_exact(edges, order, jb);
}

/// Along a cycle, positions in a valid evaluation order would fall forever.
proof fn positions_fall_along_cycle(edges: Seq<Seq<Target>>, order: Seq<usize>, path: Seq<usize>, k: int)
    requires
        is_topological(edges, order),
        is_cycle(edges, path),
        0 <= k < path.len(),
    ensures
        position_in(order, path[k]) <= position_in(order, path[0]) - k,
    decreases k,
{
    if k > 0 {
        positions_fall_along_cycle(edges, order, path, k - 1);
        assert(cycle_link(edges, path, k - 1));
        assert(next_on(path, k - 1) == path[k]);
        dependencies_come_first(edges, order, path[k - 1], path[k]);
    }
}

/// A graph that has a valid evaluation order has no dependency cycle.
pub proof fn ordered_graph_is_acyclic(edges: Seq<Seq<Target>>, order: Seq<usize>)
    requires
        is_topological(edges, order),
    ensures
        acyclic(edges),
{
    assert forall|path: Seq<usize>| !#[trigger] is_cycle(edges, path) by {
        if is_cycle(edges, path) {
            let last = path.len() - 1;
            positions_fall_along_cycle(edges, order, path, last);
            assert(cycle_link(edges, path, last));
            assert(next_on(path, last) == path[0]);
            dependencies_come_first(edges, order, path[last], path[0]);
        }
    }
}

/// Two stable orders of one graph agree up to any position.
proof fn stable_orders_agree(edges: Seq<Seq<Target>>, o1: Seq<usize>, o2: Seq<usize>, k: int)
    requires
        is_stable_order(edges, o1),
        is_stable_order(edges, o2),
        0 <= k <= o1.len(),
    ensures
        forall|j: int| 0 <= j < k ==> o1[j] == o2[j],
    decreases k,
{
    if k > 0 {
        stable_orders_agree(edges, o1, o2, k - 1);
        let at = k - 1;
        taken_in_turn(edges, o1, o2, at);
        taken_in_turn(edges, o2, o1, at);
    }
}

/// Where two valid orders agree before `at`, what the second takes at `at`
/// is ready there in the first.
proof fn taken_in_turn(edges: Seq<Seq<Target>>, o1: Seq<usize>, o2: Seq<usize>, at: int)
    requires
        is_stable_order(edges, o1),
        is_topological(edges, o2),
        0 <= at < o1.len(),
        forall|j: int| 0 <= j < at ==> o1[j] == o2[j],
    ensures
        o1[at] <= o2[at],
{
    let f = o2[at];
    if placed_before(o1, at, f) {
        let j = choose|j: int| 0 <= j < at && j < o1.len() && #[trigger] o1[j] == f;
        assert(o2[j] != o2[at]);
    }
    assert(deps_placed(edges, o2, at, o2[at]));
    assert forall|d: usize| #[trigger] depends_on(edges, f, d) implies placed_before(o1, at, d) by {
        assert(placed_before(o2, at, d));
        let j = choose|j: int| 0 <= j < at && j < o2.len() && #[trigger] o2[j] == d;
        assert(o1[j] == d);
    }
    assert(ready(edges, o1, at, f));
}

/// The stable evaluation order of a graph is unique: resolving the same
/// graph again yields the same order.
pub proof fn stable_order_is_unique(edges: Seq<Seq<Target>>, o1: Seq<usize>, o2: Seq<usize>)
    requires
        is_stable_order(edges, o1),
        is_stable_order(edges, o2),
    ensures
        o1 == o2,
{
    stable_orders_agree(edges, o1, o2, o1.len() as int);
    assert(o1 =~= o2);
}

/// Without dependencies among the fields, the stable order keeps them up to
/// any position where they were declared.
proof fn independent_prefix(edges: Seq<Seq<Target>>, order: Seq<usize>, k: int)
    requires
        is_stable_order(edges, order),
        forall|a: usize, b: usize| !depends_on(edges, a, b),
        0 <= k <= order.len(),
    ensures
        forall|j: int| 0 <= j < k ==> order[j] == j,
    decreases k,
{
    if k > 0 {
        independent_prefix(edges, order, k - 1);
        let at = k - 1;
        let taken = order[at];
        if taken < at {
            assert(order[taken as int] == taken);
            assert(order[taken as int] != order[at]);
        }
        let f = at as usize;
        if placed_before(order, at, f) {
            let j = choose|j: int| 0 <= j < at && j < order.len() && #[trigger] order[j] == f;
            assert(order[j] == j);
        }
        assert(ready(edges, order, at, f));
    }
}

/// In a record without dependency edges, the stable evaluation order is the
/// declaration order.
pub proof fn independent_fields_keep_declaration_order(edges: Seq<Seq<Target>>, order: Seq<usize>)
    requires
        is_stable_order(edges, order),
        forall|a: usize, b: usize| !depends_on(edges, a, b),
    ensures
        order.len() == edges.len(),
        forall|k: int| 0 <= k < order.len() ==> order[k] == k,
{
    independent_prefix(edges, order, order.len() as int);
}

/// In the stable order, a field that reads no other field stands before
/// every field declared after it: it is scheduled as early as the
/// declaration order allows.
pub proof fn free_field_precedes_later_ones(edges: Seq<Seq<Target>>, order: Seq<usize>, f: usize, g: usize)
    requires
        is_stable_order(edges, order),
        f < g < edges.len(),
        forall|d: usize| !depends_on(edges, f, d),
    ensures
        0 <= position_in(order, f) < position_in(order, g) < order.len(),
{
    assert(placed_before(order, order.len() as int, f));
    let pf = choose|j: int| 0 <= j < order.len() && j < order.len() && #[trigger] order[j] == f;
    position_is_exact(edges, order, pf);
    assert(placed_before(order, order.len() as int, g));
    let pg = choose|j: int| 0 <= j < order.len() && j < order.len() && #[trigger] order[j] == g;
    position_is_exact(edges, order, pg);
    if pg < pf {
        if placed_before(order, pg, f) {
            let j = choose|j: int| 0 <= j < pg && j < order.len() && #[trigger] order[j] == f;
            position_is_exact(edges, order, j);
        }
        assert(ready(edges, order, pg, f));
    }
}

/// What the resolver holds after each field it has placed: `order` is the
/// beginning of the stable order, and `placed` marks the fields in it.
spec fn is_stable_prefix(edges: Seq<Seq<Target>>, order: Seq<usize>, placed: Seq<bool>) -> bool {
    &&& placed.len() == edges.len()
    &&& count_marked(placed) == order.len()
    &&& forall|f: usize|
        f < placed.len() ==> (#[trigger] placed[f as int] <==> placed_before(order, order.len() as int, f))
    &&& forall|k: int| 0 <= k < order.len() ==> #[trigger] order[k] < edges.len()
    &&& forall|j: int, k: int| 0 <= j < k < order.len() ==> order[j] != order[k]
    &&& forall|k: int| 0 <= k < order.len() ==> #[trigger] deps_placed(edges, order, k, order[k])
    &&& earliest_first(edges, order)
}

/// What stands before a position is not changed by placing one more field.
proof fn push_keeps_placed(order: Seq<usize>, x: usize, k: int, f: usize)
    requires
        0 <= k <= order.len(),
    ensures
        placed_before(order.push(x), k, f) == placed_before(order, k, f),
{
    let longer = order.push(x);
    if placed_before(order, k, f) {
        let j = choose|j: int| 0 <= j < k && j < order.len() && #[trigger] order[j] == f;
        assert(longer[j] == f);
    }
    if placed_before(longer, k, f) {
        let j = choose|j: int| 0 <= j < k && j < longer.len() && #[trigger] longer[j] == f;
        assert(order[j] == f);
    }
}

/// Which fields are ready at a position is not changed by placing one more
/// field behind it.
proof fn push_keeps_ready(edges: Seq<Seq<Target>>, order: Seq<usize>, x: usize, k: int, f: usize)
    requires
        0 <= k <= order.len(),
    ensures
        deps_placed(edges, order.push(x), k, f) == deps_placed(edges, order, k, f),
        ready(edges, order.push(x), k, f) == ready(edges, order, k, f),
{
    assert forall|d: usize| placed_before(order.push(x), k, d) == placed_before(order, k, d) by {
        push_keeps_placed(order, x, k, d);
    }
    push_keeps_placed(order, x, k, f);
}

/// Placing the first ready field extends the beginning of the stable order.
proof fn place_next(edges: Seq<Seq<Target>>, order: Seq<usize>, placed: Seq<bool>, x: usize)
    requires
        is_stable_prefix(edges, order, placed),
        x < edges.len(),
        !placed[x as int],
        all_met(edges, placed, x),
        forall|f: usize| f < x ==> #[trigger] placed[f as int] || waiting(edges, placed, f),
    ensures
        is_stable_prefix(edges, order.push(x), placed.update(x as int, true)),
{
    let m = order.len() as int;
    let longer = order.push(x);
    let marked = placed.update(x as int, true);
    count_marked_grows(placed, x as int);
    assert forall|f: usize| f < marked.len() implies (#[trigger] marked[f as int] <==> placed_before(
        longer,
        longer.len() as int,
        f,
    )) by {
        if f == x {
            assert(longer[m] == x);
        } else {
            if placed_before(order, m, f) {
                let j = choose|j: int| 0 <= j < m && j < order.len() && #[trigger] order[j] == f;
                assert(longer[j] == f);
            }
            if placed_before(longer, m + 1, f) {
                let j = choose|j: int| 0 <= j < m + 1 && j < longer.len() && #[trigger] longer[j] == f;
                assert(order[j] == f);
            }
        }
    }
    assert forall|j: int, k: int| 0 <= j < k < longer.len() implies longer[j] != longer[k] by {
        if k == m && longer[j] == x {
            assert(order[j] == x);
            assert(placed_before(order, m, x));
        }
    }
    assert forall|k: int| 0 <= k < longer.len() implies #[trigger] deps_placed(edges, longer, k, longer[k]) by {
        push_keeps_ready(edges, order, x, k, longer[k]);
        if k == m {
            assert forall|d: usize| #[trigger] depends_on(edges, x, d) implies placed_before(order, m, d) by {
                assert(placed[d as int]);
            }
        } else {
            assert(deps_placed(edges, order, k, order[k]));
        }
    }
    assert forall|k: int, f: usize| 0 <= k < longer.len() && #[trigger] ready(edges, longer, k, f) implies longer[k]
        <= f by {
        push_keeps_ready(edges, order, x, k, f);
        if k == m {
            if f < x {
                assert(!placed[f as int]);
                let d = choose|d: usize| #[trigger] depends_on(edges, f, d) && d < placed.len() && !placed[d as int];
                assert(placed_before(order, m, d));
            }
        }
    }
}

/// A stable prefix that holds every field is the stable order.
proof fn full_prefix_is_stable_order(edges: Seq<Seq<Target>>, order: Seq<usize>, placed: Seq<bool>)
    requires
        is_stable_prefix(edges, order, placed),
        order.len() == edges.len(),
    ensures
        is_stable_order(edges, order),
{
    count_marked_full(placed);
    assert forall|f: usize| f < edges.len() implies #[trigger] placed_before(order, order.len() as int, f) by {
        assert(placed[f as int]);
    }
}

impl DependencyGraph {
    /// The first field that is not placed and reads no field that is not.
    fn first_ready(&self, placed: &Vec<bool>) -> (found: Option<usize>)
        requires
            placed@.len() == self@.len(),
        ensures
            match found {
                Some(x) => {
                    &&& x < self@.len()
                    &&& !placed@[x as int]
                    &&& all_met(self@, placed@, x)
                    &&& forall|f: usize| f < x ==> #[trigger] placed@[f as int] || waiting(self@, placed@, f)
                },
                None => stuck(self@, placed@),
            },
    {
        let n = self.len();
        let mut x: usize = 0;
        while x < n
            invariant
                x <= n,
                n == self@.len(),
                placed@.len() == n,
                forall|f: usize| f < x ==> #[trigger] placed@[f as int] || waiting(self@, placed@, f),
            decreases n - x,
        {
            if !placed[x] {
                if self.first_unplaced_dependency(x, placed).is_none() {
                    return Some(x);
                }
            }
            x += 1;
        }
        None
    }

    /// The stable evaluation order of the fields, or the minimal dependency
    /// cycle where there is no valid order at all.
    ///
    /// Fields are taken one by one; whenever several could come next, the
    /// one declared first does. Where none can, some of the fields left
    /// depend on each other in a circle, and a minimal cycle is returned:
    /// one with the fewest fields and, among those, from the earliest
    /// declared field.
    pub fn evaluation_order(&self) -> (result: Result<Vec<usize>, Vec<usize>>)
        ensures
            match result {
                Ok(order) => is_stable_order(self@, order@),
                Err(cycle) => is_minimal_cycle(self@, cycle@) && is_simple(cycle@),
            },
            result is Ok <==> acyclic(self@),
    {
        let n = self.len();
        let mut placed: Vec<bool> = Vec::new();
        let mut i: usize = 0;
        while i < n
            invariant
                i <= n,
                placed@.len() == i,
                forall|j: int| 0 <= j < i ==> !placed@[j],
            decreases n - i,
        {
            placed.push(false);
            i += 1;
        }
        let mut order: Vec<usize> = Vec::new();
        proof {
            count_marked_none(placed@);
        }
        while order.len() < n
            invariant
                n == self@.len(),
                is_stable_prefix(self@, order@, placed@),
                order@.len() <= n,
            decreases n - order@.len(),
        {
            match self.first_ready(&placed) {
                Some(x) => {
                    proof {
                        place_next(self@, order@, placed@, x);
                    }
                    placed.set(x, true);
                    order.push(x);
                },
                None => {
                    let mut start: usize = 0;
                    while start < n && placed[start]
                        invariant
                            start <= n,
                            placed@.len() == n,
                            forall|j: int| 0 <= j < start ==> placed@[j],
                        decreases n - start,
                    {
                        start += 1;
                    }
                    proof {
                        if start == n {
                            count_marked_all(placed@);
                        }
                    }
                    let known = self.walk_to_cycle(&placed, start);
                    let cycle = self.minimal_cycle(&known);
                    proof {
                        minimal_cycle_starts_at_earliest_field(self@, cycle@);
                        shortest_cycle_is_simple(self@, cycle@);
                    }
                    return Err(cycle);
                },
            }
        }
        proof {
            full_prefix_is_stable_order(self@, order@, placed@);
            ordered_graph_is_acyclic(self@, order@);
        }
        Ok(order)
    }
}

} // verus!
