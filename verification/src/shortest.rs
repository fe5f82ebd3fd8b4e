//! The minimal cycle: among all dependency cycles of a graph, one with the
//! fewest fields and, among those, from the earliest declared field.

use vstd::prelude::*;
use crate::cycle::{cycle_link, is_cycle, is_simple, is_walk, next_on, walk_link};
use crate::graph::{depends_on, well_formed, DependencyGraph};
use crate::schema::Target;

verus! {

/// `path` is a cycle, and no cycle of the graph has fewer fields.
pub open spec fn is_shortest_cycle(edges: Seq<Seq<Target>>, path: Seq<usize>) -> bool {
    &&& is_cycle(edges, path)
    &&& forall|other: Seq<usize>| #[trigger] is_cycle(edges, other) ==> path.len() <= other.len()
}

/// `path` is a minimal cycle of the graph: no cycle has fewer fields, and
/// no cycle with as few fields starts at a field declared earlier.
pub open spec fn is_minimal_cycle(edges: Seq<Seq<Target>>, path: Seq<usize>) -> bool {
    &&& is_cycle(edges, path)
    &&& forall|other: Seq<usize>| #[trigger]
        is_cycle(edges, other) ==> path.len() < other.len() || (path.len() == other.len() && path[0] <= other[0])
}

/// `walk` leads from `s` to `v` along dependencies.
pub open spec fn leads(edges: Seq<Seq<Target>>, walk: Seq<usize>, s: usize, v: usize) -> bool {
    &&& walk.len() > 0
    &&& walk[0] == s
    &&& walk.last() == v
    &&& is_walk(edges, walk)
}

/// Some walk of exactly `steps` dependencies leads from `s` to `v`.
pub open spec fn reaches(edges: Seq<Seq<Target>>, s: usize, v: usize, steps: int) -> bool {
    exists|walk: Seq<usize>| #[trigger] leads(edges, walk, s, v) && walk.len() == steps + 1
}

/// Without a step, a walk stays where it starts.
proof fn reaches_at_once(edges: Seq<Seq<Target>>, s: usize, v: usize)
    requires
        reaches(edges, s, v, 0),
    ensures
        v == s,
{
}

/// A walk of one more step passes, one step earlier, through a field that
/// reads its end.
proof fn reaches_by_step(edges: Seq<Seq<Target>>, s: usize, v: usize, steps: int) -> (u: usize)
    requires
        steps >= 0,
        reaches(edges, s, v, steps + 1),
    ensures
        reaches(edges, s, u, steps),
        depends_on(edges, u, v),
{
    let walk = choose|walk: Seq<usize>| #[trigger] leads(edges, walk, s, v) && walk.len() == steps + 2;
    let front = walk.drop_last();
    assert forall|k: int| 0 <= k < front.len() - 1 implies #[trigger] walk_link(edges, front, k) by {
        assert(walk_link(edges, walk, k));
    }
    assert(walk_link(edges, walk, steps));
    assert(leads(edges, front, s, walk[steps]));
    walk[steps]
}

/// A cycle is a walk from its first field to its last, which reads the
/// first.
proof fn cycle_is_closed_walk(edges: Seq<Seq<Target>>, path: Seq<usize>)
    requires
        is_cycle(edges, path),
    ensures
        reaches(edges, path[0], path.last(), path.len() - 1),
        depends_on(edges, path.last(), path[0]),
{
    assert forall|k: int| 0 <= k < path.len() - 1 implies #[trigger] walk_link(edges, path, k) by {
        assert(cycle_link(edges, path, k));
    }
    assert(cycle_link(edges, path, path.len() - 1));
    assert(leads(edges, path, path[0], path.last()));
}

/// A cycle that passes twice through a field holds a cycle with fewer
/// fields.
proof fn repeated_field_gives_shorter_cycle(edges: Seq<Seq<Target>>, path: Seq<usize>, j: int, k: int)
    requires
        is_cycle(edges, path),
        0 <= j < k < path.len(),
        path[j] == path[k],
    ensures
        is_cycle(edges, path.subrange(j, k)),
{
    let part = path.subrange(j, k);
    assert forall|i: int| 0 <= i < part.len() implies #[trigger] cycle_link(edges, part, i) by {
        assert(cycle_link(edges, path, j + i));
    }
}

/// A cycle can be written from any of its fields.
pub proof fn rotation_is_cycle(edges: Seq<Seq<Target>>, path: Seq<usize>, k: int)
    requires
        is_cycle(edges, path),
        0 <= k < path.len(),
    ensures
        is_cycle(edges, path.subrange(k, path.len() as int) + path.subrange(0, k)),
        (path.subrange(k, path.len() as int) + path.subrange(0, k))[0] == path[k],
        (path.subrange(k, path.len() as int) + path.subrange(0, k)).len() == path.len(),
{
    let turned = path.subrange(k, path.len() as int) + path.subrange(0, k);
    assert forall|i: int| 0 <= i < turned.len() implies #[trigger] cycle_link(edges, turned, i) by {
        if k + i < path.len() {
            assert(cycle_link(edges, path, k + i));
        } else {
            assert(cycle_link(edges, path, k + i - path.len()));
        }
    }
}

/// A minimal cycle is written from its earliest declared field.
pub proof fn minimal_cycle_starts_at_earliest_field(edges: Seq<Seq<Target>>, path: Seq<usize>)
    requires
        is_minimal_cycle(edges, path),
    ensures
        is_shortest_cycle(edges, path),
        forall|k: int| 0 <= k < path.len() ==> path[0] <= #[trigger] path[k],
{
    assert forall|k: int| 0 <= k < path.len() implies path[0] <= #[trigger] path[k] by {
        rotation_is_cycle(edges, path, k);
    }
}

/// A cycle with the fewest fields passes through no field twice.
pub proof fn shortest_cycle_is_simple(edges: Seq<Seq<Target>>, path: Seq<usize>)
    requires
        is_shortest_cycle(edges, path),
    ensures
        is_simple(path),
{
    assert forall|j: int, k: int| 0 <= j < k < path.len() implies path[j] != path[k] by {
        if path[j] == path[k] {
            repeated_field_gives_shorter_cycle(edges, path, j, k);
            assert(is_cycle(edges, path.subrange(j, k)));
        }
    }
}

/// Whether `v` is reached at level `j` of a search from `s`: the start at
/// level 0, after that what the level before it found.
pub open spec fn in_level(found: Seq<Vec<usize>>, s: usize, j: int, v: usize) -> bool {
    if j == 0 {
        v == s
    } else {
        found[j - 1]@[v as int] < found[j - 1]@.len()
    }
}

/// Every field that a level found was found from a field of the level
/// before it that reads it.
pub open spec fn found_from_before(edges: Seq<Seq<Target>>, found: Seq<Vec<usize>>, s: usize) -> bool {
    forall|j: int, v: usize|
        0 <= j < found.len() && v < edges.len() && #[trigger] in_level(found, s, j + 1, v) ==> {
            &&& in_level(found, s, j, found[j]@[v as int])
            &&& depends_on(edges, found[j]@[v as int], v)
        }
}

impl DependencyGraph {
    /// One level of the search: for every field read by a field of
    /// `level`, one such reader; for every other field, the number of
    /// fields.
    fn readers_in(&self, level: &Vec<bool>) -> (readers: Vec<usize>)
        requires
            level@.len() == self@.len(),
        ensures
            readers@.len() == self@.len(),
            forall|v: int|
                0 <= v < readers@.len() && #[trigger] readers@[v] < readers@.len() ==> level@[readers@[v] as int]
                    && depends_on(self@, readers@[v], v as usize),
            forall|u: usize, v: usize|
                u < level@.len() && level@[u as int] && #[trigger] depends_on(self@, u, v) ==> v < readers@.len()
                    && readers@[v as int] < readers@.len(),
    {
        let n = self.len();
        let mut readers: Vec<usize> = Vec::new();
        let mut i: usize = 0;
        while i < n
            invariant
                i <= n,
                readers@.len() == i,
                forall|j: int| 0 <= j < i ==> readers@[j] == n,
            decreases n - i,
        {
            readers.push(n);
            i += 1;
        }
        let mut u: usize = 0;
        while u < n
            invariant
                u <= n,
                n == self@.len(),
                level@.len() == n,
                readers@.len() == n,
                well_formed(self@, self.params()),
                forall|v: int| 0 <= v < n ==> #[trigger] readers@[v] <= n,
                forall|v: int|
                    0 <= v < n && #[trigger] readers@[v] < n ==> level@[readers@[v] as int] && depends_on(
                        self@,
                        readers@[v],
                        v as usize,
                    ),
                forall|u2: usize, v: usize|
                    u2 < u && level@[u2 as int] && #[trigger] depends_on(self@, u2, v) ==> v < n && readers@[v as int]
                        < n,
            decreases n - u,
        {
            if level[u] {
                let row = self.targets(u);
                let mut e: usize = 0;
                while e < row.len()
                    invariant
                        e <= row@.len(),
                        u < n,
                        n == self@.len(),
                        level@.len() == n,
                        level@[u as int],
                        readers@.len() == n,
                        row@ == self@[u as int],
                        well_formed(self@, self.params()),
                        forall|v: int| 0 <= v < n ==> #[trigger] readers@[v] <= n,
                        forall|v: int|
                            0 <= v < n && #[trigger] readers@[v] < n ==> level@[readers@[v] as int] && depends_on(
                                self@,
                                readers@[v],
                                v as usize,
                            ),
                        forall|u2: usize, v: usize|
                            u2 < u && level@[u2 as int] && #[trigger] depends_on(self@, u2, v) ==> v < n
                                && readers@[v as int] < n,
                        forall|e2: int|
                            0 <= e2 < e ==> (#[trigger] row@[e2] matches Target::Field(d) ==> d < n
                                && readers@[d as int] < n),
                    decreases row@.len() - e,
                {
                    match row[e] {
                        Target::Field(d) => {
                            assert(self@[u as int][e as int] == Target::Field(d));
                            if readers[d] == n {
                                readers.set(d, u);
                            }
                        },
                        Target::Parameter(_) => {},
                    }
                    e += 1;
                }
            }
            u += 1;
        }
        readers
    }

    /// A cycle through `s` with the fewest fields, if one has at most
    /// `limit` of them.
    fn shortest_cycle_through(&self, s: usize, limit: usize) -> (result: Option<Vec<usize>>)
        requires
            s < self@.len(),
        ensures
            match result {
                Some(path) => {
                    &&& is_cycle(self@, path@)
                    &&& path@[0] == s
                    &&& path@.len() <= limit
                    &&& forall|other: Seq<usize>|
                        #[trigger] is_cycle(self@, other) && other[0] == s ==> path@.len() <= other.len()
                },
                None => forall|other: Seq<usize>|
                    #[trigger] is_cycle(self@, other) && other[0] == s ==> limit < other.len(),
            },
    {
        let n = self.len();
        let mut level: Vec<bool> = Vec::new();
        let mut i: usize = 0;
        while i < n
            invariant
                i <= n,
                s < n,
                level@.len() == i,
                forall|j: int| 0 <= j < i ==> level@[j] == (j == s),
            decreases n - i,
        {
            level.push(i == s);
            i += 1;
        }
        let mut found: Vec<Vec<usize>> = Vec::new();
        assert forall|v: usize| reaches(self@, s, v, 0) implies v < n && level@[v as int] by {
            reaches_at_once(self@, s, v);
        }
        while found.len() < limit
            invariant
                n == self@.len(),
                s < n,
                level@.len() == n,
                well_formed(self@, self.params()),
                found@.len() <= limit,
                forall|j: int| 0 <= j < found@.len() ==> (#[trigger] found@[j])@.len() == n,
                found_from_before(self@, found@, s),
                forall|v: usize| v < n ==> (#[trigger] level@[v as int] <==> in_level(found@, s, found@.len() as int, v)),
                forall|v: usize| #[trigger] reaches(self@, s, v, found@.len() as int) ==> v < n && level@[v as int],
                forall|j: int, u: usize|
                    0 <= j < found@.len() && #[trigger] reaches(self@, s, u, j) ==> !depends_on(self@, u, s),
            decreases limit - found@.len(),
        {
            let ghost steps = found@.len() as int;
            let ghost before = found@;
            let readers = self.readers_in(&level);
            if readers[s] < n {
                let path = self.trace_back(s, &found, readers[s]);
                proof {
                    assert forall|other: Seq<usize>| #[trigger] is_cycle(self@, other) && other[0] == s implies path@.len()
                        <= other.len() by {
                        cycle_is_closed_walk(self@, other);
                        if other.len() - 1 < steps {
                            assert(reaches(self@, s, other.last(), other.len() - 1));
                        }
                    }
                }
                return Some(path);
            }
            let mut next: Vec<bool> = Vec::new();
            let mut v: usize = 0;
            while v < n
                invariant
                    v <= n,
                    readers@.len() == n,
                    next@.len() == v,
                    forall|j: int| 0 <= j < v ==> next@[j] == (readers@[j] < n),
                decreases n - v,
            {
                next.push(readers[v] < n);
                v += 1;
            }
            proof {
                assert forall|u: usize| #[trigger] reaches(self@, s, u, steps) implies !depends_on(self@, u, s) by {
                    if depends_on(self@, u, s) {
                        assert(level@[u as int]);
                    }
                }
                assert forall|v: usize| #[trigger] reaches(self@, s, v, steps + 1) implies v < n && next@[v as int] by {
                    let u = reaches_by_step(self@, s, v, steps);
                    assert(level@[u as int]);
                }
            }
            found.push(readers);
            level = next;
            proof {
                assert forall|j: int, v: usize|
                    0 <= j <= found@.len() && v < n implies in_level(found@, s, j, v) == if j <= steps {
                    in_level(before, s, j, v)
                } else {
                    readers@[v as int] < n
                } by {
                    if 0 < j <= steps {
                        assert(found@[j - 1] == before[j - 1]);
                    }
                }
                assert forall|j: int, v: usize|
                    0 <= j < found@.len() && v < n && #[trigger] in_level(found@, s, j + 1, v) implies in_level(
                    found@,
                    s,
                    j,
                    found@[j]@[v as int],
                ) && depends_on(self@, found@[j]@[v as int], v) by {
                    if j < steps {
                        assert(found@[j] == before[j]);
                        assert(in_level(before, s, j + 1, v));
                    }
                }
            }
        }
        proof {
            assert forall|other: Seq<usize>| #[trigger] is_cycle(self@, other) && other[0] == s implies limit
                < other.len() by {
                cycle_is_closed_walk(self@, other);
                if other.len() - 1 < found@.len() {
                    assert(reaches(self@, s, other.last(), other.len() - 1));
                }
            }
        }
        None
    }

    /// Follows the readers back from `last`, a field of the newest level
    /// that reads `s`, to `s`, and returns the cycle that this spells out.
    fn trace_back(&self, s: usize, found: &Vec<Vec<usize>>, last: usize) -> (path: Vec<usize>)
        requires
            s < self@.len(),
            last < self@.len(),
            forall|j: int| 0 <= j < found@.len() ==> (#[trigger] found@[j])@.len() == self@.len(),
            found_from_before(self@, found@, s),
            in_level(found@, s, found@.len() as int, last),
            depends_on(self@, last, s),
        ensures
            is_cycle(self@, path@),
            path@[0] == s,
            path@.len() == found@.len() + 1,
    {
        let n = self.len();
        let steps = found.len();
        let mut path: Vec<usize> = Vec::new();
        path.push(s);
        let mut i: usize = 0;
        while i < steps
            invariant
                i <= steps,
                path@.len() == i + 1,
                path@[0] == s,
            decreases steps - i,
        {
            path.push(s);
            i += 1;
        }
        let mut at: usize = last;
        let mut j: usize = steps;
        while j > 0
            invariant
                j <= steps,
                steps == found@.len(),
                n == self@.len(),
                s < n,
                at < n,
                path@.len() == steps + 1,
                path@[0] == s,
                forall|k: int| 0 <= k < found@.len() ==> (#[trigger] found@[k])@.len() == n,
                found_from_before(self@, found@, s),
                in_level(found@, s, j as int, at),
                j < steps ==> depends_on(self@, at, path@[j + 1]),
                j == steps ==> at == last,
                forall|k: int| j < k < steps ==> #[trigger] walk_link(self@, path@, k),
                steps > 0 && j < steps ==> path@[steps as int] == last,
            decreases j,
        {
            let ghost before = path@;
            path.set(j, at);
            proof {
                assert forall|k: int| j <= k < steps implies #[trigger] walk_link(self@, path@, k) by {
                    if k > j {
                        assert(walk_link(self@, before, k));
                    }
                }
                assert(in_level(found@, s, (j - 1) + 1, at));
            }
            at = found[j - 1][at];
            j -= 1;
        }
        proof {
            assert(at == s);
            assert forall|k: int| 0 <= k < path@.len() implies #[trigger] cycle_link(self@, path@, k) by {
                if k < steps {
                    if k == 0 {
                        assert(depends_on(self@, s, path@[1]));
                    } else {
                        assert(walk_link(self@, path@, k));
                    }
                } else {
                    assert(next_on(path@, k) == s);
                    if steps == 0 {
                        assert(last == s);
                    } else {
                        assert(path@[k] == last);
                    }
                }
            }
        }
        path
    }

    /// The minimal cycle of a graph that has a cycle. Of `known`, any cycle
    /// of the graph, only the length matters: no search goes beyond it.
    pub(crate) fn minimal_cycle(&self, known: &Vec<usize>) -> (path: Vec<usize>)
        requires
            is_cycle(self@, known@),
        ensures
            is_minimal_cycle(self@, path@),
    {
        let n = self.len();
        let mut best: Option<Vec<usize>> = None;
        let mut limit: usize = known.len();
        let mut s: usize = 0;
        while s < n
            invariant
                s <= n,
                n == self@.len(),
                is_cycle(self@, known@),
                match best {
                    None => {
                        &&& limit == known@.len()
                        &&& forall|other: Seq<usize>|
                            #[trigger] is_cycle(self@, other) && other[0] < s ==> limit < other.len()
                    },
                    Some(path) => {
                        &&& is_cycle(self@, path@)
                        &&& limit == path@.len() - 1
                        &&& forall|other: Seq<usize>|
                            #[trigger] is_cycle(self@, other) && other[0] < s ==> path@.len() <= other.len()
                        &&& forall|other: Seq<usize>|
                            #[trigger] is_cycle(self@, other) && other[0] < path@[0] ==> path@.len() < other.len()
                    },
                },
            decreases n - s,
        {
            if limit > 0 {
                match self.shortest_cycle_through(s, limit) {
                    Some(path) => {
                        limit = path.len() - 1;
                        best = Some(path);
                    },
                    None => {},
                }
            }
            s += 1;
        }
        match best {
            Some(path) => {
                proof {
                    assert forall|other: Seq<usize>| #[trigger] is_cycle(self@, other) implies path@.len()
                        < other.len() || (path@.len() == other.len() && path@[0] <= other[0]) by {
                        assert(cycle_link(self@, other, 0));
                    }
                }
                path
            },
            None => {
                proof {
                    assert(cycle_link(self@, known@, 0));
                    assert(false);
                }
                Vec::new()
            },
        }
    }
}

} // verus!
