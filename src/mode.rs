use vstd::prelude::*;

verus! {

/// The visibility of a circuit value.
#[derive(Clone, Copy, Debug, PartialEq, Eq, Structural)]
pub enum Mode {
    /// Known when the circuit is built.
    Constant,
    /// Known to the verifier.
    Public,
    /// Known to the prover alone.
    Private,
}

/// The mode of a value made of parts of modes `a` and `b`: a constant part
/// adds nothing, and a private part makes the whole private.
pub open spec fn combine_spec(a: Mode, b: Mode) -> Mode {
    match (a, b) {
        (Mode::Constant, m) => m,
        (m, Mode::Constant) => m,
        (Mode::Public, Mode::Public) => Mode::Public,
        _ => Mode::Private,
    }
}

impl Mode {
    /// Returns `true` for `Mode::Constant`.
    pub fn is_constant(&self) -> (r: bool)
        ensures
            r == (*self == Mode::Constant),
    {
        match self {
            Mode::Constant => true,
            _ => false,
        }
    }

    /// Returns the mode of a value made of parts of modes `self` and `other`.
    pub fn combine(self, other: Mode) -> (r: Mode)
        ensures
            r == combine_spec(self, other),
    {
        match (self, other) {
            (Mode::Constant, m) => m,
            (m, Mode::Constant) => m,
            (Mode::Public, Mode::Public) => Mode::Public,
            _ => Mode::Private,
        }
    }
}

} // verus!
