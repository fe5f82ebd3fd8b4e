//! Dependency cycles: what they are and how one is found.

use vstd::prelude::*;
use crate::counting::{count_marked, count_marked_full, count_marked_grows, count_marked_none};
use crate::graph::{depends_on, well_formed, DependencyGraph};
use crate::schema::Target;

verus! {

/// The field that follows position `k` on a circular path.
pub open spec fn next_on(path: Seq<usize>, k: int) -> usize {
    if k + 1 < path.len() {
        path[k + 1]
    } else {
        path[0]
    }
}

/// The field at `k` of the path reads the field that follows it.
pub open spec fn cycle_link(edges: Seq<Seq<Target>>, path: Seq<usize>, k: int) -> bool {
    depends_on(edges, path[k], next_on(path, k))
}

/// `path` is a dependency cycle: each field on it reads the next one, and
/// the last one reads the first.
pub open spec fn is_cycle(edges: Seq<Seq<Target>>, path: Seq<usize>) -> bool {
    &&& path.len() > 0
    &&& forall|k: int| 0 <= k < path.len() ==> #[trigger] cycle_link(edges, path, k)
}

/// No field occurs twice on `path`.
pub open spec fn is_simple(path: Seq<usize>) -> bool {
    forall|j: int, k: int| 0 <= j < k < path.len() ==> path[j] != path[k]
}

/// The graph has no dependency cycle.
pub open spec fn acyclic(edges: Seq<Seq<Target>>) -> bool {
    forall|path: Seq<usize>| !#[trigger] is_cycle(edges, path)
}

/// Every field on a cycle is a field of the graph.
pub proof fn cycle_stays_in_graph(edges: Seq<Seq<Target>>, path: Seq<usize>)
    requires
        is_cycle(edges, path),
    ensures
        forall|k: int| 0 <= k < path.len() ==> #[trigger] path[k] < edges.len(),
{
    assert forall|k: int| 0 <= k < path.len() implies #[trigger] path[k] < edges.len() by {
        assert(cycle_link(edges, path, k));
    }
}

/// Every field that `f` reads is marked in `placed`.
pub open spec fn all_met(edges: Seq<Seq<Target>>, placed: Seq<bool>, f: usize) -> bool {
    forall|d: usize| #[trigger] depends_on(edges, f, d) ==> d < placed.len() && placed[d as int]
}

/// Field `f` reads a field that is not marked in `placed`.
pub open spec fn waiting(edges: Seq<Seq<Target>>, placed: Seq<bool>, f: usize) -> bool {
    exists|d: usize| #[trigger] depends_on(edges, f, d) && d < placed.len() && !placed[d as int]
}

/// No field can be placed next: each one is placed already or waits for
/// another that is not.
pub open spec fn stuck(edges: Seq<Seq<Target>>, placed: Seq<bool>) -> bool {
    forall|f: usize| f < placed.len() ==> #[trigger] placed[f as int] || waiting(edges, placed, f)
}

/// The field at `k` of the path reads the field at `k + 1`.
pub open spec fn walk_link(edges: Seq<Seq<Target>>, path: Seq<usize>, k: int) -> bool {
    depends_on(edges, path[k], path[k + 1])
}

/// Each field on `path` reads the one after it.
pub open spec fn is_walk(edges: Seq<Seq<Target>>, path: Seq<usize>) -> bool {
    forall|k: int| 0 <= k < path.len() - 1 ==> #[trigger] walk_link(edges, path, k)
}

/// The tail of a walk whose last field reads the tail's first is a cycle.
pub proof fn walk_closes_to_cycle(edges: Seq<Seq<Target>>, path: Seq<usize>, from: int)
    requires
        is_walk(edges, path),
        0 <= from < path.len(),
        depends_on(edges, path.last(), path[from]),
    ensures
        is_cycle(edges, path.subrange(from, path.len() as int)),
{
    let tail = path.subrange(from, path.len() as int);
    assert forall|k: int| 0 <= k < tail.len() implies #[trigger] cycle_link(edges, tail, k) by {
        if k + 1 < tail.len() {
            assert(walk_link(edges, path, from + k));
        }
    }
}

impl DependencyGraph {
    /// A field that `f` reads and that `placed` does not mark, if there is
    /// one.
    pub(crate) fn first_unplaced_dependency(&self, f: usize, placed: &Vec<bool>) -> (found: Option<usize>)
        requires
            f < self@.len(),
            placed@.len() == self@.len(),
        ensures
            match found {
                Some(d) => d < self@.len() && depends_on(self@, f, d) && !placed@[d as int],
                None => all_met(self@, placed@, f),
            },
    {
        let n = self.len();
        let row = self.targets(f);
        let mut e: usize = 0;
        while e < row.len()
            invariant
                e <= row@.len(),
                row@ == self@[f as int],
                f < self@.len(),
                n == self@.len(),
                placed@.len() == n,
                well_formed(self@, self.params()),
                forall|e2: int|
                    0 <= e2 < e ==> (#[trigger] row@[e2] matches Target::Field(d) ==> d < n
                        && placed@[d as int]),
            decreases row@.len() - e,
        {
            match row[e] {
                Target::Field(d) => {
                    assert(self@[f as int][e as int] == Target::Field(d));
                    if !placed[d] {
                        return Some(d);
                    }
                },
                Target::Parameter(_) => {},
            }
            e += 1;
        }
        None
    }

    /// Follows unplaced dependencies from `start` until a field comes up a
    /// second time, and returns the circle that this closes.
    pub(crate) fn walk_to_cycle(&self, placed: &Vec<bool>, start: usize) -> (cycle: Vec<usize>)
        requires
            placed@.len() == self@.len(),
            start < self@.len(),
            !placed@[start as int],
            stuck(self@, placed@),
        ensures
            is_cycle(self@, cycle@),
    {
        let n = self.len();
        let mut seen_at: Vec<usize> = Vec::new();
        let mut i: usize = 0;
        while i < n
            invariant
                i <= n,
                seen_at@.len() == i,
                forall|j: int| 0 <= j < i ==> seen_at@[j] == n,
            decreases n - i,
        {
            seen_at.push(n);
            i += 1;
        }
        let ghost mut marks: Seq<bool> = Seq::new(n as nat, |j: int| false);
        proof {
            count_marked_none(marks);
        }
        let mut path: Vec<usize> = Vec::new();
        let mut at: usize = start;
        loop
            invariant
                n == self@.len(),
                placed@.len() == n,
                stuck(self@, placed@),
                seen_at@.len() == n,
                marks.len() == n,
                at < n,
                !placed@[at as int],
                path@.len() <= n,
                count_marked(marks) == path@.len(),
                forall|f: int| 0 <= f < n ==> marks[f] == (#[trigger] seen_at@[f] < n),
                forall|f: int|
                    0 <= f < n && #[trigger] seen_at@[f] < n ==> seen_at@[f] < path@.len() && path@[seen_at@[f] as int]
                        == f,
                forall|k: int| 0 <= k < path@.len() ==> #[trigger] path@[k] < n,
                is_walk(self@, path@),
                path@.len() > 0 ==> depends_on(self@, path@.last(), at),
            decreases n - path@.len(),
        {
            let first = seen_at[at];
            if first < n {
                let mut cycle: Vec<usize> = Vec::new();
                let mut k: usize = first;
                while k < path.len()
                    invariant
                        first <= k <= path@.len(),
                        cycle@ == path@.subrange(first as int, k as int),
                    decreases path@.len() - k,
                {
                    cycle.push(path[k]);
                    assert(cycle@ =~= path@.subrange(first as int, k + 1));
                    k += 1;
                }
                proof {
                    walk_closes_to_cycle(self@, path@, first as int);
                }
                return cycle;
            }
            proof {
                if path@.len() == n {
                    count_marked_full(marks);
                    assert(marks[at as int]);
                }
                count_marked_grows(marks, at as int);
                marks = marks.update(at as int, true);
            }
            let ghost before = path@;
            seen_at.set(at, path.len());
            path.push(at);
            proof {
                assert forall|k: int| 0 <= k < path@.len() - 1 implies #[trigger] walk_link(self@, path@, k) by {
                    if k + 1 < before.len() {
                        assert(walk_link(self@, before, k));
                    }
                }
                assert(waiting(self@, placed@, at));
            }
            match self.first_unplaced_dependency(at, placed) {
                Some(d) => {
                    at = d;
                },
                None => {
                    proof {
                        assert(false);
                    }
                },
            }
        }
    }
}

} // verus!
