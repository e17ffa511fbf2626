use vstd::prelude::*;
use vstd::arithmetic::power2::{pow2, lemma2_to64, lemma2_to64_rest};
use crate::bits::{bits_to_nat, lemma_bits_concat, lemma_bits_bound, lemma_bits_prefix_step};
use crate::boolean::{Boolean, values, mode_of, bits_mode, gate_cost};
use crate::context::{Context, advanced, extended, units, gates, no_cost, lemma_advanced_trans};
use crate::count::Count;
use crate::integer::{decompose, bits_value};
use crate::mode::Mode;

verus! {

/// The number of bits of a scalar.
pub const SCALAR_BITS: usize = 256;

/// The value of little-endian 64-bit limbs.
pub open spec fn limbs_value(limbs: Seq<u64>) -> nat
    decreases limbs.len(),
{
    if limbs.len() == 0 {
        0
    } else {
        (limbs_value(limbs.drop_last()) + pow2((64 * (limbs.len() - 1)) as nat) * limbs.last()) as nat
    }
}

/// The predicted cost of `is_less_than`, by the operand modes: nothing for two
/// constants; for each bit one selection, and one exclusive disjunction where
/// both operands are variable.
pub open spec fn is_less_than_cost(a: Mode, b: Mode) -> Count {
    match (a, b) {
        (Mode::Constant, Mode::Constant) => no_cost(),
        (Mode::Constant, _) | (_, Mode::Constant) => gates(256),
        _ => gates(512),
    }
}

/// The predicted mode of the result of `is_less_than`, by the operand modes.
pub open spec fn is_less_than_mode(a: Mode, b: Mode) -> Mode {
    match (a, b) {
        (Mode::Constant, Mode::Constant) => Mode::Constant,
        _ => Mode::Private,
    }
}

/// The predicted cost of `is_greater_than`: that of `is_less_than` with the
/// operands swapped.
pub open spec fn is_greater_than_cost(a: Mode, b: Mode) -> Count {
    is_less_than_cost(b, a)
}

/// The predicted mode of the result of `is_greater_than`: that of
/// `is_less_than` with the operands swapped.
pub open spec fn is_greater_than_mode(a: Mode, b: Mode) -> Mode {
    is_less_than_mode(b, a)
}

/// A field scalar in a circuit, as its 256 bits, least significant first.
/// Reduction modulo the field's order is the field's own business: a scalar
/// here is the canonical representative that the field hands over.
pub struct Scalar {
    bits_le: Vec<Boolean>,
}

impl Scalar {
    #[verifier::type_invariant]
    spec fn inv(self) -> bool {
        self.bits_le@.len() == SCALAR_BITS
    }

    /// The bits of the scalar, least significant first.
    pub closed spec fn spec_bits(&self) -> Seq<Boolean> {
        self.bits_le@
    }

    /// The witness value of the scalar.
    pub open spec fn spec_value(&self) -> nat {
        bits_to_nat(values(self.spec_bits()))
    }

    /// The mode of the scalar, from the modes of its bits.
    pub open spec fn spec_mode(&self) -> Mode {
        mode_of(self.spec_bits())
    }

    /// Whether every bit has the mode of the scalar, as for one just allocated.
    pub open spec fn is_uniform(&self) -> bool {
        forall|i: int| 0 <= i < self.spec_bits().len() ==> (#[trigger] self.spec_bits()[i]).spec_mode() == self.spec_mode()
    }

    /// Allocates a scalar of mode `mode` holding the value of the little-endian
    /// limbs `value`: one variable of that mode for each bit.
    pub fn new(ctx: &mut Context, mode: Mode, value: [u64; 4]) -> (r: Scalar)
        ensures
            r.spec_value() == limbs_value(value@),
            r.spec_mode() == mode,
            r.is_uniform(),
            advanced(*old(ctx), *final(ctx), units(mode, SCALAR_BITS as nat), true),
    {
        let mut bits_le: Vec<Boolean> = Vec::new();
        let mut k: usize = 0;
        proof {
            assert(values(bits_le@) =~= Seq::<bool>::empty());
            assert(value@.subrange(0, 0) =~= Seq::<u64>::empty());
            lemma2_to64();
        }
        while k < 4
            invariant
                k <= 4,
                value@.len() == 4,
                bits_le@.len() == 64 * k,
                bits_to_nat(values(bits_le@)) == limbs_value(value@.subrange(0, k as int)),
                forall|i: int| 0 <= i < bits_le@.len() ==> (#[trigger] bits_le@[i]).spec_mode() == mode,
                advanced(*old(ctx), *ctx, units(mode, (64 * k) as nat), true),
            decreases 4 - k,
        {
            let ghost before = *ctx;
            let ghost prefix = bits_le@;
            proof {
                lemma2_to64_rest();
            }
            let mut part = decompose(value[k] as u128, 64, mode, ctx);
            proof {
                lemma_advanced_trans(
                    *old(ctx),
                    before,
                    *ctx,
                    units(mode, (64 * k) as nat),
                    units(mode, 64),
                    units(mode, (64 * (k + 1)) as nat),
                    true,
                    true,
                );
                let limbs = value@.subrange(0, (k + 1) as int);
                assert(limbs.drop_last() =~= value@.subrange(0, k as int));
                assert(values(prefix + part@) =~= values(prefix) + values(part@));
                lemma_bits_concat(values(prefix), values(part@));
            }
            bits_le.append(&mut part);
            k += 1;
        }
        proof {
            assert(value@.subrange(0, 4) =~= value@);
        }
        let r = Scalar { bits_le };
        proof {
            assert(r.spec_bits()[0].spec_mode() == mode);
        }
        r
    }

    /// Returns the mode of the scalar.
    pub fn mode(&self) -> (r: Mode)
        ensures
            r == self.spec_mode(),
    {
        bits_mode(&self.bits_le)
    }

    /// Returns whether every bit is constant.
    pub fn is_constant(&self) -> (r: bool)
        ensures
            r == (self.spec_mode() == Mode::Constant),
    {
        self.mode().is_constant()
    }

    /// Returns the value that the witness holds, as little-endian limbs.
    pub fn eject_value(&self) -> (r: [u64; 4])
        ensures
            limbs_value(r@) == self.spec_value(),
    {
        proof {
            use_type_invariant(self);
        }
        let ghost vals = values(self.bits_le@);
        let mut r: [u64; 4] = [0, 0, 0, 0];
        let mut k: usize = 0;
        proof {
            assert(vals.subrange(0, 0) =~= Seq::<bool>::empty());
            assert(r@.subrange(0, 0) =~= Seq::<u64>::empty());
            lemma2_to64();
        }
        while k < 4
            invariant
                k <= 4,
                r@.len() == 4,
                vals == values(self.bits_le@),
                vals.len() == 256,
                bits_to_nat(vals.subrange(0, 64 * k)) == limbs_value(r@.subrange(0, k as int)),
            decreases 4 - k,
        {
            let limb = bits_value(&self.bits_le, 64 * k, 64 * k + 64);
            let ghost part = vals.subrange(64 * k, 64 * k + 64);
            proof {
                lemma_bits_bound(part);
                lemma2_to64_rest();
            }
            let ghost old_r = r@;
            r[k] = limb as u64;
            proof {
                assert(r@.subrange(0, k as int) =~= old_r.subrange(0, k as int));
                let limbs = r@.subrange(0, (k + 1) as int);
                assert(limbs.drop_last() =~= r@.subrange(0, k as int));
                assert(vals.subrange(0, 64 * k + 64) =~= vals.subrange(0, 64 * k) + part);
                lemma_bits_concat(vals.subrange(0, 64 * k), part);
            }
            k += 1;
        }
        proof {
            assert(r@.subrange(0, 4) =~= r@);
            assert(vals.subrange(0, 256) =~= vals);
        }
        r
    }

    /// Returns whether `self` is less than `other`. From the least significant
    /// bit up, the result so far is replaced by the bit of `other` wherever the
    /// two bits differ.
    pub fn is_less_than(&self, other: &Scalar, ctx: &mut Context) -> (r: Boolean)
        ensures
            r.spec_value() == (self.spec_value() < other.spec_value()),
            extended(*old(ctx), *final(ctx), true),
            self.is_uniform() && other.is_uniform() ==> advanced(
                *old(ctx),
                *final(ctx),
                is_less_than_cost(self.spec_mode(), other.spec_mode()),
                true,
            ),
            self.is_uniform() && other.is_uniform() ==> r.spec_mode() == is_less_than_mode(
                self.spec_mode(),
                other.spec_mode(),
            ),
    {
        proof {
            use_type_invariant(self);
            use_type_invariant(other);
        }
        let ghost a = values(self.bits_le@);
        let ghost b = values(other.bits_le@);
        let ghost ma = self.spec_mode();
        let ghost mb = other.spec_mode();
        let ghost uniform = self.is_uniform() && other.is_uniform();
        let mut lt = Boolean::constant(false);
        let ghost mut g: nat = 0;
        let mut i: usize = 0;
        proof {
            lemma2_to64();
        }
        while i < SCALAR_BITS
            invariant
                i <= SCALAR_BITS,
                a == values(self.bits_le@),
                b == values(other.bits_le@),
                a.len() == SCALAR_BITS,
                b.len() == SCALAR_BITS,
                lt.spec_value() == (bits_to_nat(a.subrange(0, i as int)) < bits_to_nat(b.subrange(0, i as int))),
                g <= 2 * i,
                advanced(*old(ctx), *ctx, gates(g), true),
                uniform ==> forall|j: int| 0 <= j < SCALAR_BITS ==> (#[trigger] self.bits_le@[j]).spec_mode() == ma,
                uniform ==> forall|j: int| 0 <= j < SCALAR_BITS ==> (#[trigger] other.bits_le@[j]).spec_mode() == mb,
                uniform && ma == Mode::Constant && mb == Mode::Constant ==> g == 0 && lt.spec_is_constant(),
                uniform && (ma == Mode::Constant) != (mb == Mode::Constant) ==> g == i,
                uniform && ma != Mode::Constant && mb != Mode::Constant ==> g == 2 * i,
                uniform && !(ma == Mode::Constant && mb == Mode::Constant) && i > 0 ==> lt.spec_mode() == Mode::Private,
            decreases SCALAR_BITS - i,
        {
            let x = self.bits_le[i];
            let y = other.bits_le[i];
            let ghost start = *ctx;
            let differ = x.xor(&y, ctx);
            let ghost mid = *ctx;
            let next = differ.ternary(&y, &lt, ctx);
            proof {
                let c1 = gate_cost(x.spec_mode(), y.spec_mode());
                let n1: nat = if x.spec_is_constant() || y.spec_is_constant() { 0 } else { 1 };
                let n2: nat = if differ.spec_is_constant() { 0 } else { 1 };
                assert(c1 == gates(n1));
                lemma_advanced_trans(start, mid, *ctx, gates(n1), gates(n2), gates(n1 + n2), true, true);
                lemma_advanced_trans(*old(ctx), start, *ctx, gates(g), gates(n1 + n2), gates(g + n1 + n2), true, true);
                g = g + n1 + n2;
                // The comparison of the low i + 1 bits.
                let va = bits_to_nat(a.subrange(0, i as int));
                let vb = bits_to_nat(b.subrange(0, i as int));
                lemma_bits_prefix_step(a, i as nat);
                lemma_bits_prefix_step(b, i as nat);
                lemma_bits_bound(a.subrange(0, i as int));
                lemma_bits_bound(b.subrange(0, i as int));
                assert(a[i as int] == x.spec_value());
                assert(b[i as int] == y.spec_value());
            }
            lt = next;
            i += 1;
        }
        proof {
            assert(a.subrange(0, SCALAR_BITS as int) =~= a);
            assert(b.subrange(0, SCALAR_BITS as int) =~= b);
            if uniform {
                assert(self.bits_le@[0].spec_mode() == ma);
                assert(other.bits_le@[0].spec_mode() == mb);
            }
        }
        lt
    }

    /// Returns whether `self` is greater than `other`: `other.is_less_than(self)`.
    pub fn is_greater_than(&self, other: &Scalar, ctx: &mut Context) -> (r: Boolean)
        ensures
            r.spec_value() == (other.spec_value() < self.spec_value()),
            extended(*old(ctx), *final(ctx), true),
            self.is_uniform() && other.is_uniform() ==> advanced(
                *old(ctx),
                *final(ctx),
                is_greater_than_cost(self.spec_mode(), other.spec_mode()),
                true,
            ),
            self.is_uniform() && other.is_uniform() ==> advanced(
                *old(ctx),
                *final(ctx),
                is_less_than_cost(other.spec_mode(), self.spec_mode()),
                true,
            ),
            self.is_uniform() && other.is_uniform() ==> r.spec_mode() == is_greater_than_mode(
                self.spec_mode(),
                other.spec_mode(),
            ),
            self.is_uniform() && other.is_uniform() ==> r.spec_mode() == is_less_than_mode(
                other.spec_mode(),
                self.spec_mode(),
            ),
    {
        other.is_less_than(self, ctx)
    }

    /// Returns the predicted cost of `is_less_than` under the operand modes `case`.
    pub fn is_less_than_count(case: &(Mode, Mode)) -> (r: Count)
        ensures
            r == is_less_than_cost(case.0, case.1),
    {
        match (case.0, case.1) {
            (Mode::Constant, Mode::Constant) => Count::zero(),
            (Mode::Constant, _) | (_, Mode::Constant) => Count::is(0, 0, 256, 256),
            _ => Count::is(0, 0, 512, 512),
        }
    }

    /// Returns the predicted mode of the result of `is_less_than` under the
    /// operand modes `case`.
    pub fn is_less_than_output_mode(case: &(Mode, Mode)) -> (r: Mode)
        ensures
            r == is_less_than_mode(case.0, case.1),
    {
        match (case.0, case.1) {
            (Mode::Constant, Mode::Constant) => Mode::Constant,
            _ => Mode::Private,
        }
    }

    /// Returns the predicted cost of `is_greater_than` under the operand modes
    /// `case`: that of `is_less_than` with the operands swapped.
    pub fn is_greater_than_count(case: &(Mode, Mode)) -> (r: Count)
        ensures
            r == is_greater_than_cost(case.0, case.1),
            r == is_less_than_cost(case.1, case.0),
    {
        let (left, right) = *case;
        Scalar::is_less_than_count(&(right, left))
    }

    /// Returns the predicted mode of the result of `is_greater_than` under the
    /// operand modes `case`: that of `is_less_than` with the operands swapped.
    pub fn is_greater_than_output_mode(case: &(Mode, Mode)) -> (r: Mode)
        ensures
            r == is_greater_than_mode(case.0, case.1),
            r == is_less_than_mode(case.1, case.0),
    {
        let (left, right) = *case;
        Scalar::is_less_than_output_mode(&(right, left))
    }
}

/// Delegation of the derived comparator: for every pair of operand modes,
/// `is_greater_than` is predicted to cost exactly what `is_less_than` costs
/// with the operands swapped, and to give a result of the same mode.
pub proof fn lemma_greater_than_delegates(a: Mode, b: Mode)
    ensures
        is_greater_than_cost(a, b) == is_less_than_cost(b, a),
        is_greater_than_mode(a, b) == is_less_than_mode(b, a),
{
}

} // verus!
