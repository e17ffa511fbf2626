use vstd::prelude::*;
use crate::context::{Context, advanced, unit, one_constraint, one_gate, no_cost};
use crate::mode::Mode;

verus! {

/// A single constrained bit with its mode and its witness value.
#[derive(Clone, Copy, Debug)]
pub struct Boolean {
    mode: Mode,
    value: bool,
}

/// A relation that a witness must satisfy, over the bits it names.
#[derive(Clone, Copy, Debug)]
pub enum Constraint {
    /// `out` is the conjunction of `a` and `b`.
    And { a: Boolean, b: Boolean, out: Boolean },
    /// `out` is the disjunction of `a` and `b`.
    Or { a: Boolean, b: Boolean, out: Boolean },
    /// `out` is the exclusive disjunction of `a` and `b`.
    Xor { a: Boolean, b: Boolean, out: Boolean },
    /// `out` is `first` where `condition` holds and `second` elsewhere.
    Select { condition: Boolean, first: Boolean, second: Boolean, out: Boolean },
    /// `a` and `b` are equal.
    Equal { a: Boolean, b: Boolean },
}

impl Constraint {
    /// Whether the witness values satisfy the constraint.
    pub open spec fn holds(&self) -> bool {
        match *self {
            Constraint::And { a, b, out } => out.spec_value() == (a.spec_value() && b.spec_value()),
            Constraint::Or { a, b, out } => out.spec_value() == (a.spec_value() || b.spec_value()),
            Constraint::Xor { a, b, out } => out.spec_value() == (a.spec_value() != b.spec_value()),
            Constraint::Select { condition, first, second, out } => out.spec_value() == (if condition.spec_value() {
                first.spec_value()
            } else {
                second.spec_value()
            }),
            Constraint::Equal { a, b } => a.spec_value() == b.spec_value(),
        }
    }

    /// Returns whether the witness values satisfy the constraint.
    pub fn check(&self) -> (r: bool)
        ensures
            r == self.holds(),
    {
        match self {
            Constraint::And { a, b, out } => out.value == (a.value && b.value),
            Constraint::Or { a, b, out } => out.value == (a.value || b.value),
            Constraint::Xor { a, b, out } => out.value == (a.value != b.value),
            Constraint::Select { condition, first, second, out } => out.value == (if condition.value {
                first.value
            } else {
                second.value
            }),
            Constraint::Equal { a, b } => a.value == b.value,
        }
    }
}

/// The cost of a gate on two bits: nothing where either is constant, one
/// private variable and one constraint otherwise.
pub open spec fn gate_cost(a: Mode, b: Mode) -> crate::count::Count {
    if a == Mode::Constant || b == Mode::Constant {
        no_cost()
    } else {
        one_gate()
    }
}

impl Boolean {
    /// The mode of the bit.
    pub closed spec fn spec_mode(&self) -> Mode {
        self.mode
    }

    /// The witness value of the bit.
    pub closed spec fn spec_value(&self) -> bool {
        self.value
    }

    /// Whether the bit is constant.
    pub open spec fn spec_is_constant(&self) -> bool {
        self.spec_mode() == Mode::Constant
    }

    /// Allocates a bit of mode `mode` with witness `value`.
    pub fn new(ctx: &mut Context, mode: Mode, value: bool) -> (r: Boolean)
        ensures
            r.spec_mode() == mode,
            r.spec_value() == value,
            advanced(*old(ctx), *final(ctx), unit(mode), true),
    {
        ctx.allocate(mode, value);
        Boolean { mode, value }
    }

    /// A constant bit, known without any allocation.
    pub fn constant(value: bool) -> (r: Boolean)
        ensures
            r.spec_mode() == Mode::Constant,
            r.spec_value() == value,
    {
        Boolean { mode: Mode::Constant, value }
    }

    /// Returns the mode of the bit.
    pub fn mode(&self) -> (r: Mode)
        ensures
            r == self.spec_mode(),
    {
        self.mode
    }

    /// Returns whether the bit is constant.
    pub fn is_constant(&self) -> (r: bool)
        ensures
            r == self.spec_is_constant(),
    {
        self.mode.is_constant()
    }

    /// Returns the witness value of the bit.
    pub fn eject_value(&self) -> (r: bool)
        ensures
            r == self.spec_value(),
    {
        self.value
    }

    /// The negation of the bit, at no cost.
    pub fn not(&self) -> (r: Boolean)
        ensures
            r.spec_mode() == self.spec_mode(),
            r.spec_value() == !self.spec_value(),
    {
        Boolean { mode: self.mode, value: !self.value }
    }

    /// The disjunction of two bits. A constant operand decides the result or
    /// hands back the other one; two variable operands cost one gate.
    pub fn or(&self, other: &Boolean, ctx: &mut Context) -> (r: Boolean)
        ensures
            r.spec_value() == (self.spec_value() || other.spec_value()),
            advanced(*old(ctx), *final(ctx), gate_cost(self.spec_mode(), other.spec_mode()), true),
            self.spec_is_constant() && other.spec_is_constant() ==> r.spec_is_constant(),
            self.spec_is_constant() && !other.spec_is_constant() ==> r.spec_mode() == (if self.spec_value() {
                Mode::Constant
            } else {
                other.spec_mode()
            }),
            !self.spec_is_constant() && other.spec_is_constant() ==> r.spec_mode() == (if other.spec_value() {
                Mode::Constant
            } else {
                self.spec_mode()
            }),
            !self.spec_is_constant() && !other.spec_is_constant() ==> r.spec_mode() == Mode::Private,
    {
        if self.is_constant() {
            if self.value {
                Boolean::constant(true)
            } else {
                *other
            }
        } else if other.is_constant() {
            if other.value {
                Boolean::constant(true)
            } else {
                *self
            }
        } else {
            let out = Boolean::new(ctx, Mode::Private, self.value || other.value);
            ctx.enforce(Constraint::Or { a: *self, b: *other, out });
            out
        }
    }

    /// The exclusive disjunction of two bits. A constant operand hands back
    /// the other one or its negation; two variable operands cost one gate.
    pub fn xor(&self, other: &Boolean, ctx: &mut Context) -> (r: Boolean)
        ensures
            r.spec_value() == (self.spec_value() != other.spec_value()),
            advanced(*old(ctx), *final(ctx), gate_cost(self.spec_mode(), other.spec_mode()), true),
            self.spec_is_constant() ==> r.spec_mode() == other.spec_mode(),
            !self.spec_is_constant() && other.spec_is_constant() ==> r.spec_mode() == self.spec_mode(),
            !self.spec_is_constant() && !other.spec_is_constant() ==> r.spec_mode() == Mode::Private,
    {
        if self.is_constant() {
            if self.value {
                other.not()
            } else {
                *other
            }
        } else if other.is_constant() {
            if other.value {
                self.not()
            } else {
                *self
            }
        } else {
            let out = Boolean::new(ctx, Mode::Private, self.value != other.value);
            ctx.enforce(Constraint::Xor { a: *self, b: *other, out });
            out
        }
    }

    /// `first` where `self` holds and `second` elsewhere. A constant condition
    /// picks one at no cost; a variable one costs one gate, whatever the modes
    /// of `first` and `second`.
    pub fn ternary(&self, first: &Boolean, second: &Boolean, ctx: &mut Context) -> (r: Boolean)
        ensures
            r.spec_value() == (if self.spec_value() {
                first.spec_value()
            } else {
                second.spec_value()
            }),
            self.spec_is_constant() ==> r == (if self.spec_value() {
                *first
            } else {
                *second
            }),
            self.spec_is_constant() ==> advanced(*old(ctx), *final(ctx), no_cost(), true),
            !self.spec_is_constant() ==> r.spec_mode() == Mode::Private,
            !self.spec_is_constant() ==> advanced(*old(ctx), *final(ctx), one_gate(), true),
    {
        if self.is_constant() {
            if self.value {
                *first
            } else {
                *second
            }
        } else {
            let value = if self.value {
                first.value
            } else {
                second.value
            };
            let out = Boolean::new(ctx, Mode::Private, value);
            ctx.enforce(Constraint::Select { condition: *self, first: *first, second: *second, out });
            out
        }
    }

    /// The conjunction of two bits. A constant operand decides the result or
    /// hands back the other one; two variable operands cost one gate.
    pub fn and(&self, other: &Boolean, ctx: &mut Context) -> (r: Boolean)
        ensures
            r.spec_value() == (self.spec_value() && other.spec_value()),
            advanced(*old(ctx), *final(ctx), gate_cost(self.spec_mode(), other.spec_mode()), true),
            self.spec_is_constant() && other.spec_is_constant() ==> r.spec_is_constant(),
            self.spec_is_constant() && !other.spec_is_constant() ==> r.spec_mode() == (if self.spec_value() {
                other.spec_mode()
            } else {
                Mode::Constant
            }),
            !self.spec_is_constant() && other.spec_is_constant() ==> r.spec_mode() == (if other.spec_value() {
                self.spec_mode()
            } else {
                Mode::Constant
            }),
            !self.spec_is_constant() && !other.spec_is_constant() ==> r.spec_mode() == Mode::Private,
    {
        if self.is_constant() {
            if self.value {
                *other
            } else {
                Boolean::constant(false)
            }
        } else if other.is_constant() {
            if other.value {
                *self
            } else {
                Boolean::constant(false)
            }
        } else {
            let out = Boolean::new(ctx, Mode::Private, self.value && other.value);
            ctx.enforce(Constraint::And { a: *self, b: *other, out });
            out
        }
    }

    /// Constrains `a` to equal `b`. Two equal constants need no constraint;
    /// otherwise one constraint is recorded, which the witness satisfies
    /// exactly when the values agree. Building never fails here.
    pub fn assert_equal(a: &Boolean, b: &Boolean, ctx: &mut Context)
        ensures
            a.spec_is_constant() && b.spec_is_constant() && a.spec_value() == b.spec_value() ==> advanced(
                *old(ctx),
                *final(ctx),
                no_cost(),
                true,
            ),
            !(a.spec_is_constant() && b.spec_is_constant() && a.spec_value() == b.spec_value()) ==> advanced(
                *old(ctx),
                *final(ctx),
                one_constraint(),
                a.spec_value() == b.spec_value(),
            ),
    {
        if a.is_constant() && b.is_constant() && a.value == b.value {
        } else {
            ctx.enforce(Constraint::Equal { a: *a, b: *b });
        }
    }
}

} // verus!

verus! {

/// The witness values of a sequence of bits.
pub open spec fn values(bits: Seq<Boolean>) -> Seq<bool> {
    bits.map_values(|b: Boolean| b.spec_value())
}

/// The mode of a value made of `bits`: constant where every bit is, private
/// where some bit is, public otherwise.
pub open spec fn mode_of(bits: Seq<Boolean>) -> Mode {
    if forall|i: int| 0 <= i < bits.len() ==> (#[trigger] bits[i]).spec_is_constant() {
        Mode::Constant
    } else if exists|i: int| 0 <= i < bits.len() && (#[trigger] bits[i]).spec_mode() == Mode::Private {
        Mode::Private
    } else {
        Mode::Public
    }
}

/// Returns the mode of a value made of `bits`.
pub fn bits_mode(bits: &Vec<Boolean>) -> (r: Mode)
    ensures
        r == mode_of(bits@),
{
    let mut all_constant = true;
    let mut any_private = false;
    let mut i: usize = 0;
    while i < bits.len()
        invariant
            i <= bits@.len(),
            all_constant == (forall|j: int| 0 <= j < i ==> (#[trigger] bits@[j]).spec_is_constant()),
            any_private == (exists|j: int| 0 <= j < i && (#[trigger] bits@[j]).spec_mode() == Mode::Private),
        decreases bits@.len() - i,
    {
        let m = bits[i].mode();
        if !m.is_constant() {
            all_constant = false;
        }
        if m == Mode::Private {
            any_private = true;
        }
        i += 1;
    }
    if all_constant {
        Mode::Constant
    } else if any_private {
        Mode::Private
    } else {
        Mode::Public
    }
}

} // verus!
