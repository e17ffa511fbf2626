use vstd::prelude::*;

verus! {

/// Resources that building a circuit consumes: the variables it allocates, by
/// mode, and the constraints it records.
#[derive(Clone, Copy, Debug, PartialEq, Eq, Structural)]
pub struct Count {
    pub constants: u64,
    pub public: u64,
    pub private: u64,
    pub constraints: u64,
}

/// Whether the component-wise sum of two counts fits in a count.
pub open spec fn sum_fits(a: Count, b: Count) -> bool {
    &&& a.constants + b.constants <= u64::MAX
    &&& a.public + b.public <= u64::MAX
    &&& a.private + b.private <= u64::MAX
    &&& a.constraints + b.constraints <= u64::MAX
}

/// Whether `c` is the component-wise sum of `a` and `b`.
pub open spec fn is_sum(a: Count, b: Count, c: Count) -> bool {
    &&& c.constants == a.constants + b.constants
    &&& c.public == a.public + b.public
    &&& c.private == a.private + b.private
    &&& c.constraints == a.constraints + b.constraints
}

/// Whether every component of `a` is at most that of `b`.
pub open spec fn le(a: Count, b: Count) -> bool {
    &&& a.constants <= b.constants
    &&& a.public <= b.public
    &&& a.private <= b.private
    &&& a.constraints <= b.constraints
}

/// The component-wise difference `b - a`, where `le(a, b)`.
pub open spec fn difference(b: Count, a: Count) -> Count {
    Count {
        constants: (b.constants - a.constants) as u64,
        public: (b.public - a.public) as u64,
        private: (b.private - a.private) as u64,
        constraints: (b.constraints - a.constraints) as u64,
    }
}

impl Count {
    /// An exact count of constants, public and private variables, and constraints.
    pub fn is(constants: u64, public: u64, private: u64, constraints: u64) -> (r: Count)
        ensures
            r == (Count { constants, public, private, constraints }),
    {
        Count { constants, public, private, constraints }
    }

    /// The count of nothing at all.
    pub fn zero() -> (r: Count)
        ensures
            r == (Count { constants: 0, public: 0, private: 0, constraints: 0 }),
    {
        Count { constants: 0, public: 0, private: 0, constraints: 0 }
    }

    /// The component-wise sum of `self` and `other`.
    pub fn plus(&self, other: &Count) -> (r: Count)
        requires
            sum_fits(*self, *other),
        ensures
            is_sum(*self, *other, r),
    {
        Count {
            constants: self.constants + other.constants,
            public: self.public + other.public,
            private: self.private + other.private,
            constraints: self.constraints + other.constraints,
        }
    }
}

} // verus!
