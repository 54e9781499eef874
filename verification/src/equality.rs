//! Equality of structured reference strings.

use vstd::prelude::*;
use vstd::std_specs::cmp::PartialEqSpecImpl;
use crate::curve::{bytes_equal, g1_points_equal};
use crate::Srs;

verus! {

impl PartialEq for Srs {
    /// Two SRS are equal where all five fields are, point for point.
    fn eq(&self, other: &Self) -> (r: bool) {
        self.k == other.k && g1_points_equal(&self.g, &other.g) && g1_points_equal(
            &self.g_lagrange,
            &other.g_lagrange,
        ) && bytes_equal(self.g2.repr.as_slice(), other.g2.repr.as_slice()) && bytes_equal(
            self.s_g2.repr.as_slice(),
            other.s_g2.repr.as_slice(),
        )
    }
}

impl Eq for Srs {

}

impl PartialEqSpecImpl for Srs {
    open spec fn obeys_eq_spec() -> bool {
        true
    }

    open spec fn eq_spec(&self, other: &Self) -> bool {
        self@ == other@
    }
}

} // verus!
