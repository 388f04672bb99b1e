//! Choice of the root at which a ray meets a sphere.
use vstd::prelude::*;

verus! {

/// The two roots of a ray–sphere quadratic, as ordering keys:
/// `near` stands for `(-b - sqrt(d)) / a` and `far` for `(-b + sqrt(d)) / a`.
#[derive(Clone, Copy, Debug, PartialEq, Eq, Structural)]
pub struct Roots {
    pub near: i64,
    pub far: i64,
}

/// Which of the two roots a hit lies at.
#[derive(Clone, Copy, Debug, PartialEq, Eq, Structural)]
pub enum Root {
    Near,
    Far,
}

impl Roots {
    /// With a positive leading coefficient the near root never exceeds the far one.
    pub open spec fn wf(self) -> bool {
        self.near <= self.far
    }

    pub open spec fn key_of(self, root: Root) -> i64 {
        match root {
            Root::Near => self.near,
            Root::Far => self.far,
        }
    }

    /// The key of the given root.
    pub fn key(&self, root: Root) -> (k: i64)
        ensures
            k == self.key_of(root),
    {
        match root {
            Root::Near => self.near,
            Root::Far => self.far,
        }
    }
}

/// Strictly inside the open window `(t_min, t_max)`.
pub open spec fn in_window(t: i64, t_min: i64, t_max: i64) -> bool {
    t_min < t && t < t_max
}

/// The sphere's answer to a query: none without real roots, else the near
/// root if it lies in the window, else the far root if it does, else none.
pub open spec fn sphere_hit(roots: Option<Roots>, t_min: i64, t_max: i64) -> Option<Root> {
    match roots {
        None => None,
        Some(r) => if in_window(r.near, t_min, t_max) {
            Some(Root::Near)
        } else if in_window(r.far, t_min, t_max) {
            Some(Root::Far)
        } else {
            None
        },
    }
}

/// Picks the root at which a ray meets a sphere inside `(t_min, t_max)`.
/// `roots` is `None` when the discriminant is not positive.
pub fn select_root(roots: Option<Roots>, t_min: i64, t_max: i64) -> (r: Option<Root>)
    ensures
        r == sphere_hit(roots, t_min, t_max),
        roots is None ==> r is None,
        r matches Some(root) ==> in_window(roots.unwrap().key_of(root), t_min, t_max),
        roots matches Some(rs) && in_window(rs.near, t_min, t_max) ==> r == Some(Root::Near),
{
    match roots {
        None => None,
        Some(rs) => {
            if t_min < rs.near && rs.near < t_max {
                Some(Root::Near)
            } else if t_min < rs.far && rs.far < t_max {
                Some(Root::Far)
            } else {
                None
            }
        },
    }
}

/// Of the roots inside the window, the one chosen is the nearest: no root
/// inside the window lies before it.
pub proof fn lemma_chosen_root_is_nearest(roots: Roots, t_min: i64, t_max: i64)
    requires
        roots.wf(),
    ensures
        sphere_hit(Some(roots), t_min, t_max) matches Some(root) ==> {
            &&& in_window(roots.key_of(root), t_min, t_max)
            &&& in_window(roots.near, t_min, t_max) ==> roots.key_of(root) <= roots.near
            &&& in_window(roots.far, t_min, t_max) ==> roots.key_of(root) <= roots.far
        },
        sphere_hit(Some(roots), t_min, t_max) is None <==> !in_window(roots.near, t_min, t_max)
            && !in_window(roots.far, t_min, t_max),
{
}

} // verus!
