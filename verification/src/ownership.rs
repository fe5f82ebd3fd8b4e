//! How the dependents of a field obtain its value during validation.

use vstd::prelude::*;
use crate::graph::{depends_on, DependencyGraph};
use crate::schema::Target;

verus! {

/// Access policy of a stored field.
#[derive(Clone, Copy, Debug, PartialEq, Eq, Structural)]
pub enum AccessPolicy {
    /// At most one dependent reads the field: it is handed over or borrowed once.
    Exclusive,
    /// Several dependents read the field: each gets a read-only alias.
    Shared,
}

/// The policy that a given fan-in calls for.
pub open spec fn policy_for(fan_in: nat) -> AccessPolicy {
    if fan_in > 1 {
        AccessPolicy::Shared
    } else {
        AccessPolicy::Exclusive
    }
}

/// Chooses the policy for a field with `fan_in` distinct dependents.
pub fn choose_policy(fan_in: usize) -> (policy: AccessPolicy)
    ensures
        policy == policy_for(fan_in as nat),
{
    if fan_in > 1 {
        AccessPolicy::Shared
    } else {
        AccessPolicy::Exclusive
    }
}

/// The fields, other than `f` itself, whose checks read `f`.
pub open spec fn dependents(edges: Seq<Seq<Target>>, f: usize) -> Set<usize> {
    Set::new(|a: usize| a != f && depends_on(edges, a, f))
}

/// Number of distinct other fields whose checks read `f`.
pub open spec fn fan_in(edges: Seq<Seq<Target>>, f: usize) -> nat {
    dependents(edges, f).len()
}

/// The dependents of `f` among the fields declared before `bound`.
pub open spec fn dependents_below(edges: Seq<Seq<Target>>, f: usize, bound: usize) -> Set<usize> {
    Set::new(|a: usize| a < bound && a != f && depends_on(edges, a, f))
}

/// One more field either joins the dependents counted so far or leaves them
/// as they are.
proof fn dependents_step(edges: Seq<Seq<Target>>, f: usize, a: usize)
    requires
        a < usize::MAX,
        dependents_below(edges, f, a).finite(),
    ensures
        dependents_below(edges, f, (a + 1) as usize).finite(),
        dependents_below(edges, f, (a + 1) as usize).len() == dependents_below(edges, f, a).len() + if a != f
            && depends_on(edges, a, f) {
            1nat
        } else {
            0nat
        },
{
    let before = dependents_below(edges, f, a);
    let after = dependents_below(edges, f, (a + 1) as usize);
    if a != f && depends_on(edges, a, f) {
        assert(after =~= before.insert(a));
    } else {
        assert(after =~= before);
    }
}

/// The dependents of a field among those declared before a bound are
/// finitely many.
proof fn dependents_below_finite(edges: Seq<Seq<Target>>, f: usize, bound: usize)
    ensures
        dependents_below(edges, f, bound).finite(),
    decreases bound,
{
    if bound == 0 {
        assert(dependents_below(edges, f, 0) =~= Set::<usize>::empty());
    } else {
        dependents_below_finite(edges, f, (bound - 1) as usize);
        dependents_step(edges, f, (bound - 1) as usize);
    }
}

/// A field that two different other fields read is shared: each of them
/// can read it without taking it from the other.
pub proof fn field_with_two_readers_is_shared(edges: Seq<Seq<Target>>, f: usize, a: usize, b: usize)
    requires
        edges.len() <= usize::MAX,
        a != b,
        a != f,
        b != f,
        depends_on(edges, a, f),
        depends_on(edges, b, f),
    ensures
        fan_in(edges, f) >= 2,
        policy_for(fan_in(edges, f)) == AccessPolicy::Shared,
{
    let n = edges.len() as usize;
    dependents_below_finite(edges, f, n);
    assert(dependents_below(edges, f, n) =~= dependents(edges, f));
    let readers = dependents(edges, f);
    assert(readers.contains(a) && readers.contains(b));
    assert(readers.remove(a).contains(b));
    assert(readers.remove(a).remove(b).len() >= 0);
}

/// A field that at most one other field reads stays exclusive: nothing
/// shares what has a single owner.
pub proof fn field_with_one_reader_is_exclusive(edges: Seq<Seq<Target>>, f: usize, a: usize)
    requires
        edges.len() <= usize::MAX,
        forall|b: usize| b != f && #[trigger] depends_on(edges, b, f) ==> b == a,
    ensures
        fan_in(edges, f) <= 1,
        policy_for(fan_in(edges, f)) == AccessPolicy::Exclusive,
{
    let n = edges.len() as usize;
    dependents_below_finite(edges, f, n);
    assert(dependents_below(edges, f, n) =~= dependents(edges, f));
    let readers = dependents(edges, f);
    if readers.contains(a) {
        assert(readers.remove(a) =~= Set::<usize>::empty());
    } else {
        assert(readers =~= Set::<usize>::empty());
    }
}

impl DependencyGraph {
    /// Whether the check of field `a` reads field `f`.
    pub fn reads(&self, a: usize, f: usize) -> (yes: bool)
        ensures
            yes == depends_on(self@, a, f),
    {
        if a >= self.len() {
            return false;
        }
        let row = self.targets(a);
        let mut e: usize = 0;
        while e < row.len()
            invariant
                e <= row@.len(),
                a < self@.len(),
                row@ == self@[a as int],
                forall|e2: int| 0 <= e2 < e ==> #[trigger] row@[e2] != Target::Field(f),
            decreases row@.len() - e,
        {
            match row[e] {
                Target::Field(d) => {
                    if d == f {
                        return true;
                    }
                },
                Target::Parameter(_) => {},
            }
            e += 1;
        }
        false
    }

    /// Number of distinct other fields whose checks read `f`.
    pub fn fan_in(&self, f: usize) -> (count: usize)
        ensures
            count == fan_in(self@, f),
            count <= self@.len(),
    {
        let n = self.len();
        let mut count: usize = 0;
        let mut a: usize = 0;
        proof {
            assert(dependents_below(self@, f, 0) =~= Set::<usize>::empty());
        }
        while a < n
            invariant
                a <= n,
                n == self@.len(),
                count <= a,
                dependents_below(self@, f, a).finite(),
                count == dependents_below(self@, f, a).len(),
            decreases n - a,
        {
            proof {
                dependents_step(self@, f, a);
            }
            if a != f && self.reads(a, f) {
                count += 1;
            }
            a += 1;
        }
        proof {
            assert(dependents_below(self@, f, n) =~= dependents(self@, f));
        }
        count
    }

    /// Tags every field with the access policy that its fan-in calls for:
    /// `Shared` where more than one other field reads it, else `Exclusive`.
    pub fn access_policies(&self) -> (policies: Vec<AccessPolicy>)
        ensures
            policies@.len() == self@.len(),
            forall|f: usize| f < self@.len() ==> #[trigger] policies@[f as int] == policy_for(fan_in(self@, f)),
    {
        let n = self.len();
        let mut policies: Vec<AccessPolicy> = Vec::new();
        let mut f: usize = 0;
        while f < n
            invariant
                f <= n,
                n == self@.len(),
                policies@.len() == f,
                forall|g: usize| g < f ==> #[trigger] policies@[g as int] == policy_for(fan_in(self@, g)),
            decreases n - f,
        {
            let count = self.fan_in(f);
            policies.push(choose_policy(count));
            f += 1;
        }
        policies
    }
}

} // verus!
