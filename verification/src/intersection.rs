//! Intersection records and visible-hit selection.

use vstd::prelude::*;
use crate::scalar::{Scalar, rat_le, rat_lt, rat_zero, sc_ok, lemma_lt_le_le};
use crate::sphere::{Sphere, sphere_ok};

verus! {

/// One intersection: the ray parameter and the shape it was found on.
#[derive(Clone, Copy, PartialEq, Debug)]
pub struct Intersection {
    pub t: Scalar,
    pub object: Sphere,
}

impl Intersection {
    /// An intersection record from its parameter and shape.
    pub fn new(t: Scalar, object: Sphere) -> (r: Intersection)
        requires
            sc_ok(t),
            sphere_ok(object),
        ensures
            r.t == t,
            r.object == object,
    {
        Intersection { t, object }
    }
}

/// The records of one shape query, in the order the query produced them.
#[derive(Clone, Debug)]
pub struct Intersections {
    pub xs: Vec<Intersection>,
}

/// Well-formedness of a record sequence.
pub open spec fn xs_ok(s: Seq<Intersection>) -> bool {
    forall|i: int| 0 <= i < s.len() ==> sc_ok((#[trigger] s[i]).t)
}

impl Intersections {
    /// Wraps a list of records.
    pub fn new(xs: Vec<Intersection>) -> (r: Intersections)
        ensures
            r.xs@ == xs@,
    {
        Intersections { xs }
    }

    /// The visible hit: among records with a strictly positive parameter,
    /// one with the least parameter. Absent exactly when no parameter is
    /// strictly positive.
    pub fn hit(&self) -> (r: Option<Intersection>)
        requires
            xs_ok(self.xs@),
        ensures
            r matches Some(b) ==> exists|k: int|
                0 <= k < self.xs@.len() && self.xs@[k] == b && rat_lt(rat_zero(), #[trigger] (
                self.xs@[k]).t@),
            r matches Some(b) ==> rat_lt(rat_zero(), b.t@) && forall|j: int|
                0 <= j < self.xs@.len() && rat_lt(rat_zero(), (#[trigger] self.xs@[j]).t@)
                    ==> rat_le(b.t@, self.xs@[j].t@),
            r is None ==> forall|j: int|
                0 <= j < self.xs@.len() ==> !rat_lt(rat_zero(), (#[trigger] self.xs@[j]).t@),
    {
        let mut best: Option<Intersection> = None;
        let ghost mut bk: int = 0;
        let mut i: usize = 0;
        while i < self.xs.len()
            invariant
                xs_ok(self.xs@),
                i <= self.xs@.len(),
                best matches Some(b) ==> 0 <= bk < i && self.xs@[bk] == b && rat_lt(
                    rat_zero(),
                    b.t@,
                ) && sc_ok(b.t),
                best matches Some(b) ==> forall|j: int|
                    0 <= j < i && rat_lt(rat_zero(), (#[trigger] self.xs@[j]).t@) ==> rat_le(
                        b.t@,
                        self.xs@[j].t@,
                    ),
                best is None ==> forall|j: int|
                    0 <= j < i ==> !rat_lt(rat_zero(), (#[trigger] self.xs@[j]).t@),
            decreases self.xs@.len() - i,
        {
            let c = self.xs[i];
            if c.t.is_pos() {
                match best {
                    None => {
                        best = Some(c);
                        proof {
                            bk = i as int;
                        }
                    },
                    Some(b) => {
                        if c.t.lt(&b.t) {
                            proof {
                                assert forall|j: int|
                                    0 <= j < i && rat_lt(rat_zero(), (
                                    #[trigger] self.xs@[j]).t@) implies rat_le(
                                    c.t@,
                                    self.xs@[j].t@,
                                ) by {
                                    lemma_lt_le_le(c.t@, b.t@, self.xs@[j].t@);
                                }
                            }
                            best = Some(c);
                            proof {
                                bk = i as int;
                            }
                        }
                    },
                }
            }
            i += 1;
        }
        proof {
            if let Some(b) = best {
                assert(self.xs@[bk] == b && rat_lt(rat_zero(), (self.xs@[bk]).t@));
            }
        }
        best
    }
}

} // verus!
