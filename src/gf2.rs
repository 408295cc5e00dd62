use vstd::prelude::*;

verus! {

/// An element of GF(2): a switch that is on or off.
#[derive(Clone, Copy, PartialEq, Eq, Structural, Debug, Default)]
pub struct Switch(pub bool);

impl Switch {
    /// Addition in GF(2): exclusive or.
    pub fn add(self, rhs: Switch) -> (r: Switch)
        ensures
            r.0 == (self.0 != rhs.0),
    {
        Switch(self.0 != rhs.0)
    }

    /// Subtraction in GF(2), which is the same as addition: exclusive or.
    pub fn sub(self, rhs: Switch) -> (r: Switch)
        ensures
            r.0 == (self.0 != rhs.0),
    {
        Switch(self.0 != rhs.0)
    }

    /// Multiplication in GF(2): logical and.
    pub fn mul(self, rhs: Switch) -> (r: Switch)
        ensures
            r.0 == (self.0 && rhs.0),
    {
        Switch(self.0 && rhs.0)
    }
}

impl From<Switch> for bool {
    fn from(value: Switch) -> (r: bool) {
        value.0
    }
}

impl vstd::std_specs::convert::FromSpecImpl<Switch> for bool {
    open spec fn obeys_from_spec() -> bool {
        true
    }

    open spec fn from_spec(v: Switch) -> bool {
        v.0
    }
}

} // verus!
