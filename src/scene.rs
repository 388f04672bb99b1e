//! Nearest-hit query over an ordered collection of spheres.
use vstd::prelude::*;
use crate::sphere::{Roots, Root, in_window, sphere_hit, select_root};

verus! {

/// The member of the scene that a ray meets first, the root it meets it at,
/// and that root's key.
#[derive(Clone, Copy, Debug, PartialEq, Eq, Structural)]
pub struct Nearest {
    pub member: usize,
    pub root: Root,
    pub distance: i64,
}

/// Whether the members can stand in a vector and every member whose roots
/// are given is well formed.
pub open spec fn members_wf(members: Seq<Option<Roots>>) -> bool {
    &&& members.len() <= usize::MAX
    &&& forall|i: int| 0 <= i < members.len() ==> (#[trigger] members[i] matches Some(r) ==> r.wf())
}

/// The scan of the first `members.len()` members: each member is queried
/// with the window narrowed to the nearest distance found so far, and a
/// member that answers replaces the result.
pub open spec fn scan(members: Seq<Option<Roots>>, t_min: i64, t_max: i64) -> Option<Nearest>
    decreases members.len(),
{
    if members.len() == 0 {
        None
    } else {
        let prev = scan(members.drop_last(), t_min, t_max);
        let bound = match prev {
            Some(n) => n.distance,
            None => t_max,
        };
        let last = members.last();
        match sphere_hit(last, t_min, bound) {
            Some(root) => Some(
                Nearest {
                    member: (members.len() - 1) as usize,
                    root,
                    distance: last.unwrap().key_of(root),
                },
            ),
            None => prev,
        }
    }
}

/// The nearest hit of a ray among `members` inside `(t_min, t_max)`. Each
/// entry holds the roots of one sphere for the ray, `None` where it has none.
pub fn nearest_hit(members: &Vec<Option<Roots>>, t_min: i64, t_max: i64) -> (r: Option<Nearest>)
    ensures
        r == scan(members@, t_min, t_max),
        r matches Some(n) ==> n.member < members@.len(),
{
    let mut closest: i64 = t_max;
    let mut result: Option<Nearest> = None;
    let n = members.len();
    for i in 0..n
        invariant
            n == members@.len(),
            result == scan(members@.take(i as int), t_min, t_max),
            result matches Some(h) ==> h.member < i,
            closest == match result {
                Some(h) => h.distance,
                None => t_max,
            },
    {
        let ghost prefix = members@.take(i + 1);
        assert(prefix.drop_last() == members@.take(i as int));
        let m = members[i];
        match select_root(m, t_min, closest) {
            Some(root) => {
                let d = m.unwrap().key(root);
                closest = d;
                result = Some(Nearest { member: i, root, distance: d });
            },
            None => {},
        }
    }
    assert(members@.take(n as int) == members@);
    result
}

/// A well formed member answers a narrowed window exactly when its answer to
/// the wider window lies inside the narrower one, and then answers alike.
proof fn lemma_narrowed(m: Option<Roots>, t_min: i64, t_max: i64, bound: i64)
    requires
        m matches Some(r) ==> r.wf(),
        bound <= t_max,
    ensures
        match sphere_hit(m, t_min, t_max) {
            Some(root) => if m.unwrap().key_of(root) < bound {
                sphere_hit(m, t_min, bound) == Some(root)
            } else {
                sphere_hit(m, t_min, bound) is None
            },
            None => sphere_hit(m, t_min, bound) is None,
        },
{
}

/// The nearest-hit query returns the nearest of the answers that the members
/// give when each is queried alone over the same window: it returns none
/// exactly when no member answers; otherwise its hit is its member's own
/// answer, no member's answer lies before it, and every earlier member's
/// answer lies strictly after it, so the first of equally near members wins.
pub proof fn lemma_nearest_hit_is_minimum(members: Seq<Option<Roots>>, t_min: i64, t_max: i64)
    requires
        members_wf(members),
    ensures
        scan(members, t_min, t_max) is None <==> forall|i: int|
            0 <= i < members.len() ==> #[trigger] sphere_hit(members[i], t_min, t_max) is None,
        scan(members, t_min, t_max) matches Some(n) ==> {
            &&& n.member < members.len()
            &&& sphere_hit(members[n.member as int], t_min, t_max) == Some(n.root)
            &&& n.distance == members[n.member as int].unwrap().key_of(n.root)
            &&& in_window(n.distance, t_min, t_max)
            &&& forall|i: int|
                0 <= i < members.len() ==> (#[trigger] sphere_hit(members[i], t_min, t_max) matches Some(
                    root,
                ) ==> {
                    &&& n.distance <= members[i].unwrap().key_of(root)
                    &&& i < n.member ==> n.distance < members[i].unwrap().key_of(root)
                })
        },
    decreases members.len(),
{
    if members.len() > 0 {
        let init = members.drop_last();
        assert forall|i: int| 0 <= i < init.len() implies (#[trigger] init[i] matches Some(r)
            ==> r.wf()) by {
            assert(init[i] == members[i]);
        }
        lemma_nearest_hit_is_minimum(init, t_min, t_max);
        let prev = scan(init, t_min, t_max);
        let bound = match prev {
            Some(n) => n.distance,
            None => t_max,
        };
        let last = members.last();
        assert(members_wf(members) ==> (last matches Some(r) ==> r.wf())) by {
            assert(last == members[members.len() - 1]);
        }
        lemma_narrowed(last, t_min, t_max, bound);
        let k = members.len() - 1;
        assert(last == members[k]);
        assert forall|i: int| 0 <= i < init.len() implies members[i] == #[trigger] init[i] by {}
        assert(forall|i: int|
            0 <= i < k ==> #[trigger] sphere_hit(members[i], t_min, t_max) == sphere_hit(
                init[i],
                t_min,
                t_max,
            ));
        if let Some(n) = scan(members, t_min, t_max) {
            if n.member < k {
                assert(members[n.member as int] == init[n.member as int]);
            }
            assert forall|i: int|
                0 <= i < members.len() implies (#[trigger] sphere_hit(
                members[i],
                t_min,
                t_max,
            ) matches Some(root) ==> {
                &&& n.distance <= members[i].unwrap().key_of(root)
                &&& i < n.member ==> n.distance < members[i].unwrap().key_of(root)
            }) by {
                if i < k {
                    assert(sphere_hit(members[i], t_min, t_max) == sphere_hit(init[i], t_min, t_max));
                }
            }
        }
    }
}

} // verus!
