use vstd::prelude::*;
use crate::context::Halt;
use crate::count::Count;
use crate::integer::{Integer, IntegerType};
use crate::mode::Mode;

verus! {

/// The supported integer widths, in the order that indexes per-width cost
/// formulas.
pub open spec fn supported_widths() -> Seq<u32> {
    seq![8u32, 16u32, 32u32, 64u32, 128u32]
}

/// Returns the position of `bits` among the supported widths, or halts where
/// `bits` is not one of them.
pub fn width_index(bits: u32) -> (r: Result<u64, Halt>)
    ensures
        match r {
            Ok(i) => i < 5 && supported_widths()[i as int] == bits,
            Err(h) => !supported_widths().contains(bits) && h == (Halt::UnsupportedWidth { bits }),
        },
{
    let widths: [u32; 5] = [8, 16, 32, 64, 128];
    let mut i: usize = 0;
    while i < 5
        invariant
            widths@ == supported_widths(),
            i <= 5,
            forall|j: int| 0 <= j < i ==> supported_widths()[j] != bits,
        decreases 5 - i,
    {
        if widths[i] == bits {
            return Ok(i as u64);
        }
        i += 1;
    }
    proof {
        assert forall|j: int| 0 <= j < supported_widths().len() implies supported_widths()[j] != bits by {}
    }
    Err(Halt::UnsupportedWidth { bits })
}

/// The position of the width of `ty` among the supported widths.
pub open spec fn width_position(ty: IntegerType) -> nat {
    (ty.log_width() - 3) as nat
}

/// The component-wise sum of two counts, for counts small enough to add.
pub open spec fn combined(a: Count, b: Count) -> Count {
    Count {
        constants: (a.constants + b.constants) as u64,
        public: (a.public + b.public) as u64,
        private: (a.private + b.private) as u64,
        constraints: (a.constraints + b.constraints) as u64,
    }
}

/// The predicted cost of a wrapping right shift of a value of type `ty`, by
/// the operand modes.
pub open spec fn shr_wrapped_cost(ty: IntegerType, a: Mode, b: Mode) -> Count {
    match (a, b) {
        (Mode::Constant, Mode::Constant) => Count {
            constants: ty.width() as u64,
            public: 0,
            private: 0,
            constraints: 0,
        },
        (_, Mode::Constant) => Count { constants: 0, public: 0, private: 0, constraints: 0 },
        _ => Count {
            constants: 0,
            public: 0,
            private: (ty.log_width() * ty.width()) as u64,
            constraints: (ty.log_width() * ty.width()) as u64,
        },
    }
}

/// The predicted mode of the result of a right shift, by the operand modes:
/// a constant amount keeps the mode of the shifted value, a variable one makes
/// the result private.
pub open spec fn shr_output_mode(a: Mode, b: Mode) -> Mode {
    match (a, b) {
        (Mode::Constant, Mode::Constant) => Mode::Constant,
        (m, Mode::Constant) => m,
        _ => Mode::Private,
    }
}

/// The cost of checking that an amount of type `magnitude` stays below the
/// width of `ty`: an OR over its upper bits and one equality constraint.
pub open spec fn shr_check_overhead(ty: IntegerType, magnitude: IntegerType) -> Count {
    Count {
        constants: 0,
        public: 0,
        private: (magnitude.width() - 4 - width_position(ty)) as u64,
        constraints: (magnitude.width() - 3 - width_position(ty)) as u64,
    }
}

/// The predicted cost of a checked right shift of a value of type `ty` by an
/// amount of type `magnitude`, by the operand modes: the wrapping shift's
/// cost and, for a variable amount, the overhead of the check.
pub open spec fn shr_checked_cost(ty: IntegerType, magnitude: IntegerType, a: Mode, b: Mode) -> Count {
    match (a, b) {
        (Mode::Constant, Mode::Constant) => Count {
            constants: ty.width() as u64,
            public: 0,
            private: 0,
            constraints: 0,
        },
        (_, Mode::Constant) => Count { constants: 0, public: 0, private: 0, constraints: 0 },
        _ => combined(shr_wrapped_cost(ty, a, b), shr_check_overhead(ty, magnitude)),
    }
}

impl Integer {
    /// Returns the predicted cost of `shr_wrapped` on a value of type `ty`
    /// under the operand modes `case`.
    pub fn shr_wrapped_count(ty: IntegerType, case: &(Mode, Mode)) -> (r: Count)
        ensures
            r == shr_wrapped_cost(ty, case.0, case.1),
    {
        match (case.0, case.1) {
            (Mode::Constant, Mode::Constant) => Count::is(ty.bits() as u64, 0, 0, 0),
            (_, Mode::Constant) => Count::zero(),
            _ => {
                let n = ty.log_bits() as u64 * ty.bits() as u64;
                Count::is(0, 0, n, n)
            },
        }
    }

    /// Returns the predicted mode of the result of `shr_wrapped` under the
    /// operand modes `case`.
    pub fn shr_wrapped_output_mode(case: &(Mode, Mode)) -> (r: Mode)
        ensures
            r == shr_output_mode(case.0, case.1),
    {
        match (case.0, case.1) {
            (Mode::Constant, Mode::Constant) => Mode::Constant,
            (mode_a, Mode::Constant) => mode_a,
            _ => Mode::Private,
        }
    }

    /// Returns the predicted cost of `shr_checked` on a value of type `ty` by
    /// an amount of type `magnitude` under the operand modes `case`.
    pub fn shr_checked_count(ty: IntegerType, magnitude: IntegerType, case: &(Mode, Mode)) -> (r: Count)
        requires
            magnitude.is_magnitude(),
        ensures
            r == shr_checked_cost(ty, magnitude, case.0, case.1),
    {
        match (case.0, case.1) {
            (Mode::Constant, Mode::Constant) => Count::is(ty.bits() as u64, 0, 0, 0),
            (_, Mode::Constant) => Count::zero(),
            _ => {
                let wrapped = Integer::shr_wrapped_count(ty, case);
                let index = match width_index(ty.bits()) {
                    Ok(i) => i,
                    Err(_) => {
                        proof {
                            assert(supported_widths()[width_position(ty) as int] == ty.width());
                        }
                        0
                    },
                };
                proof {
                    assert(index == width_position(ty));
                    assert(ty.log_width() * ty.width() <= 896) by (nonlinear_arith)
                        requires
                            ty.log_width() <= 7,
                            ty.width() <= 128,
                    ;
                }
                let bits = magnitude.bits() as u64;
                let overhead = Count::is(0, 0, bits - 4 - index, bits - 3 - index);
                wrapped.plus(&overhead)
            },
        }
    }

    /// Returns the predicted mode of the result of `shr_checked` under the
    /// operand modes `case`.
    pub fn shr_checked_output_mode(case: &(Mode, Mode)) -> (r: Mode)
        ensures
            r == shr_output_mode(case.0, case.1),
    {
        Integer::shr_wrapped_output_mode(case)
    }
}

} // verus!
