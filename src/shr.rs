use vstd::prelude::*;
use vstd::arithmetic::power2::{pow2, lemma_pow2_unfold, lemma_pow2_pos};
use crate::bits::{
    bits_to_nat, shr_bits, lemma_bits_div_mod, lemma_bits_prefix_step, lemma_bits_zero,
    lemma_shr_bits_compose, lemma_shr_bits_zero, lemma_shr_bits_value,
};
use crate::boolean::{Boolean, values, mode_of};
use crate::context::{Context, Halt, advanced, extended, units, unit, gates, no_cost, one_constraint, lemma_advanced_trans};
use crate::count::Count;
use crate::integer::{Integer, IntegerType, lemma_width_powers, bits_value};
use crate::metrics::{shr_wrapped_cost, shr_checked_cost, shr_output_mode};
use crate::mode::Mode;

verus! {

/// Returns `bits` shifted right by `n`: the bits from index `n` up, then
/// copies of the top bit where `signed`, constant zeros otherwise.
fn shift_bits(bits: &Vec<Boolean>, n: usize, signed: bool) -> (r: Vec<Boolean>)
    requires
        bits@.len() > 0,
    ensures
        r@.len() == bits@.len(),
        values(r@) == shr_bits(values(bits@), n as nat, signed),
        forall|i: int| 0 <= i < r@.len() && i + n < bits@.len() ==> #[trigger] r@[i] == bits@[i + n],
        forall|i: int| 0 <= i < r@.len() && i + n >= bits@.len() && signed ==> #[trigger] r@[i] == bits@.last(),
        forall|i: int|
            0 <= i < r@.len() && i + n >= bits@.len() && !signed ==> (#[trigger] r@[i]).spec_is_constant()
                && !r@[i].spec_value(),
{
    let len = bits.len();
    let fill = if signed {
        bits[len - 1]
    } else {
        Boolean::constant(false)
    };
    let mut r: Vec<Boolean> = Vec::new();
    let mut i: usize = 0;
    while i < len
        invariant
            len == bits@.len(),
            i <= len,
            r@.len() == i,
            signed ==> fill == bits@.last(),
            !signed ==> fill.spec_is_constant() && !fill.spec_value(),
            forall|j: int| 0 <= j < i && j + n < len ==> #[trigger] r@[j] == bits@[j + n],
            forall|j: int| 0 <= j < i && j + n >= len ==> #[trigger] r@[j] == fill,
        decreases len - i,
    {
        if n < len - i {
            r.push(bits[i + n]);
        } else {
            r.push(fill);
        }
        i += 1;
    }
    assert(values(r@) =~= shr_bits(values(bits@), n as nat, signed));
    r
}

/// Allocates a constant for each bit of `bits`, with the same value.
fn constants_of(bits: &Vec<Boolean>, ctx: &mut Context) -> (r: Vec<Boolean>)
    ensures
        r@.len() == bits@.len(),
        values(r@) == values(bits@),
        forall|i: int| 0 <= i < r@.len() ==> (#[trigger] r@[i]).spec_is_constant(),
        advanced(*old(ctx), *final(ctx), units(Mode::Constant, bits@.len()), true),
{
    let mut r: Vec<Boolean> = Vec::new();
    let mut i: usize = 0;
    while i < bits.len()
        invariant
            i <= bits@.len(),
            r@.len() == i,
            forall|j: int| 0 <= j < i ==> (#[trigger] r@[j]).spec_value() == bits@[j].spec_value(),
            forall|j: int| 0 <= j < i ==> (#[trigger] r@[j]).spec_is_constant(),
            advanced(*old(ctx), *ctx, units(Mode::Constant, i as nat), true),
        decreases bits@.len() - i,
    {
        let ghost before = *ctx;
        let b = Boolean::new(ctx, Mode::Constant, bits[i].eject_value());
        proof {
            lemma_advanced_trans(
                *old(ctx),
                before,
                *ctx,
                units(Mode::Constant, i as nat),
                unit(Mode::Constant),
                units(Mode::Constant, (i + 1) as nat),
                true,
                true,
            );
        }
        r.push(b);
        i += 1;
    }
    assert(values(r@) =~= values(bits@));
    r
}

/// Whether some bit of `bits` from index `lo` up is a constant one.
pub open spec fn has_constant_one(bits: Seq<Boolean>, lo: int) -> bool {
    exists|j: int| lo <= j < bits.len() && (#[trigger] bits[j]).spec_is_constant() && bits[j].spec_value()
}

/// Whether no bit of `bits` is constant.
pub open spec fn all_variable(bits: Seq<Boolean>) -> bool {
    forall|i: int| 0 <= i < bits.len() ==> !(#[trigger] bits[i]).spec_is_constant()
}

/// The value of a right shift of `v` by `n`, rounding towards negative
/// infinity: what the native `>>` computes for an amount below the width.
pub open spec fn shr_value(v: int, n: nat) -> int {
    v / (pow2(n) as int)
}

/// The native checked right shift of a value of type `ty`: `None` where the
/// amount reaches the width.
pub open spec fn checked_shr_value(ty: IntegerType, v: int, n: nat) -> Option<int> {
    if n < ty.width() {
        Some(shr_value(v, n))
    } else {
        None
    }
}

impl Integer {
    /// The shift of `self` by a variable amount: for each low bit `k` of the
    /// amount, a row of selections between the current bits and the current
    /// bits shifted by `2^k`.
    fn shr_by_variable(&self, rhs: &Integer, ctx: &mut Context) -> (r: Vec<Boolean>)
        requires
            rhs.spec_type().is_magnitude(),
        ensures
            r@.len() == self.spec_type().width(),
            values(r@) == shr_bits(
                values(self.spec_bits()),
                bits_to_nat(values(rhs.spec_bits()).subrange(0, self.spec_type().log_width() as int)),
                self.spec_type().signed(),
            ),
            extended(*old(ctx), *final(ctx), true),
            all_variable(rhs.spec_bits()) ==> advanced(
                *old(ctx),
                *final(ctx),
                gates(self.spec_type().log_width() * self.spec_type().width()),
                true,
            ),
            all_variable(rhs.spec_bits()) ==> forall|i: int| 0 <= i < r@.len() ==> (#[trigger] r@[i]).spec_mode() == Mode::Private,
    {
        proof {
            use_type_invariant(self);
            use_type_invariant(rhs);
            lemma_width_powers(self.ty);
            lemma_width_powers(rhs.ty);
        }
        let w = self.bits_le.len();
        let l = self.ty.log_bits() as usize;
        let signed = self.ty.is_signed();
        let ghost x = values(self.bits_le@);
        let ghost a = values(rhs.bits_le@);
        let ghost var = all_variable(rhs.bits_le@);
        let mut cur = shift_bits(&self.bits_le, 0, signed);
        proof {
            lemma_shr_bits_zero(x, signed);
            assert(a.subrange(0, 0) =~= Seq::<bool>::empty());
            vstd::arithmetic::power2::lemma2_to64();
        }
        let ghost mut g: nat = 0;
        let mut k: usize = 0;
        let mut step: usize = 1;
        while k < l
            invariant
                w == self.ty.width(),
                w == self.bits_le@.len(),
                l == self.ty.log_width(),
                l <= rhs.bits_le@.len(),
                x == values(self.bits_le@),
                a == values(rhs.bits_le@),
                var == all_variable(rhs.bits_le@),
                k <= l,
                cur@.len() == w,
                k < l ==> step == pow2(k as nat),
                step <= 64,
                values(cur@) == shr_bits(x, bits_to_nat(a.subrange(0, k as int)), signed),
                g <= w * k,
                advanced(*old(ctx), *ctx, gates(g), true),
                var ==> g == w * k,
                var && k > 0 ==> forall|i: int| 0 <= i < cur@.len() ==> (#[trigger] cur@[i]).spec_mode() == Mode::Private,
            decreases l - k,
        {
            let cond = rhs.bits_le[k];
            let shifted = shift_bits(&cur, step, signed);
            let ghost stage = *ctx;
            let mut next: Vec<Boolean> = Vec::new();
            let mut i: usize = 0;
            while i < w
                invariant
                    w == cur@.len(),
                    w == shifted@.len(),
                    i <= w,
                    next@.len() == i,
                    forall|j: int| 0 <= j < i ==> (#[trigger] next@[j]).spec_value() == (if cond.spec_value() {
                        shifted@[j].spec_value()
                    } else {
                        cur@[j].spec_value()
                    }),
                    !cond.spec_is_constant() ==> forall|j: int| 0 <= j < i ==> (#[trigger] next@[j]).spec_mode() == Mode::Private,
                    !cond.spec_is_constant() ==> advanced(stage, *ctx, gates(i as nat), true),
                    cond.spec_is_constant() ==> advanced(stage, *ctx, no_cost(), true),
                decreases w - i,
            {
                let ghost before = *ctx;
                let out = cond.ternary(&shifted[i], &cur[i], ctx);
                proof {
                    if !cond.spec_is_constant() {
                        lemma_advanced_trans(stage, before, *ctx, gates(i as nat), gates(1), gates((i + 1) as nat), true, true);
                    } else {
                        lemma_advanced_trans(stage, before, *ctx, no_cost(), no_cost(), no_cost(), true, true);
                    }
                }
                next.push(out);
                i += 1;
            }
            proof {
                let t = bits_to_nat(a.subrange(0, k as int));
                let bit = a[k as int];
                let d: nat = if bit { step as nat } else { 0 };
                lemma_bits_prefix_step(a, k as nat);
                assert(cond.spec_value() == bit);
                if bit {
                    assert(values(next@) =~= values(shifted@));
                } else {
                    assert(values(next@) =~= values(cur@));
                    lemma_shr_bits_zero(values(cur@), signed);
                }
                lemma_shr_bits_compose(x, t, d, signed);
                assert(pow2(k as nat) * (if bit { 1nat } else { 0nat }) == d);
                let stage_cost: nat = if cond.spec_is_constant() { 0 } else { w as nat };
                lemma_advanced_trans(*old(ctx), stage, *ctx, gates(g), gates(stage_cost), gates(g + stage_cost), true, true);
                assert(w * k + w == w * (k + 1)) by (nonlinear_arith);
                if var {
                    assert(!rhs.bits_le@[k as int].spec_is_constant());
                }
                g = g + stage_cost;
                lemma_pow2_unfold((k + 1) as nat);
                if k + 1 < l {
                    assert(pow2((k + 1) as nat) <= 64) by {
                        vstd::arithmetic::power2::lemma2_to64();
                    }
                }
            }
            cur = next;
            k += 1;
            if k < l {
                step = step * 2;
            }
        }
        proof {
            assert(w * l == l * w) by (nonlinear_arith);
        }
        cur
    }

    /// The right shift of `self` by `rhs` modulo the width of `self`: total,
    /// and never a constraint that a witness could violate. Constant operands
    /// are evaluated at once; a constant amount only rewires the bits; a
    /// variable amount costs `log2(width)` rows of `width` selections.
    pub fn shr_wrapped(&self, rhs: &Integer, ctx: &mut Context) -> (r: Integer)
        requires
            rhs.spec_type().is_magnitude(),
        ensures
            r.spec_type() == self.spec_type(),
            r.spec_value() == shr_value(
                self.spec_value(),
                (rhs.spec_value() % (self.spec_type().width() as int)) as nat,
            ),
            extended(*old(ctx), *final(ctx), true),
            self.is_uniform() && rhs.is_uniform() ==> advanced(
                *old(ctx),
                *final(ctx),
                shr_wrapped_cost(self.spec_type(), self.spec_mode(), rhs.spec_mode()),
                true,
            ),
            self.is_uniform() && rhs.is_uniform() ==> r.spec_mode() == shr_output_mode(
                self.spec_mode(),
                rhs.spec_mode(),
            ),
    {
        proof {
            use_type_invariant(self);
            use_type_invariant(rhs);
            lemma_width_powers(self.ty);
            lemma_width_powers(rhs.ty);
        }
        let ghost x = values(self.bits_le@);
        let ghost a = values(rhs.bits_le@);
        let ghost w = self.ty.width();
        let ghost l = self.ty.log_width();
        let signed = self.ty.is_signed();
        proof {
            lemma_bits_div_mod(a, l);
            assert(a.subrange(0, a.len() as int) =~= a);
            lemma_pow2_pos(l);
            vstd::arithmetic::div_mod::lemma_mod_bound(rhs.spec_value(), w as int);
            lemma_shr_bits_value(x, (rhs.spec_value() % (w as int)) as nat, signed);
        }
        let bits_le = if self.is_constant() && rhs.is_constant() {
            let n = bits_value(&rhs.bits_le, 0, self.ty.log_bits() as usize) as usize;
            let shifted = shift_bits(&self.bits_le, n, signed);
            constants_of(&shifted, ctx)
        } else if rhs.is_constant() {
            let n = bits_value(&rhs.bits_le, 0, self.ty.log_bits() as usize) as usize;
            let shifted = shift_bits(&self.bits_le, n, signed);
            proof {
                if self.is_uniform() {
                    assert(shifted@[0] == self.bits_le@[n as int]);
                    assert(mode_of(shifted@) == self.spec_mode());
                }
            }
            shifted
        } else {
            let r = self.shr_by_variable(rhs, ctx);
            proof {
                if rhs.is_uniform() {
                    assert(all_variable(rhs.bits_le@));
                    assert(r@[0].spec_mode() == Mode::Private);
                }
            }
            r
        };
        Integer { ty: self.ty, bits_le }
    }

    /// The checked right shift of `self` by `rhs`, with the failure semantics
    /// of the native checked shift: the amount must be below the width of
    /// `self`. Where the constant bits of the amount already prove it too
    /// large, construction halts before anything is recorded. Otherwise the
    /// upper bits of the amount are constrained to zero, so that a witness with
    /// too large an amount violates a constraint, and the wrapping shift gives
    /// the result.
    pub fn shr_checked(&self, rhs: &Integer, ctx: &mut Context) -> (r: Result<Integer, Halt>)
        requires
            rhs.spec_type().is_magnitude(),
        ensures
            r is Err <==> has_constant_one(rhs.spec_bits(), self.spec_type().log_width() as int),
            rhs.spec_value() < self.spec_type().width() ==> r is Ok,
            self.spec_is_constant() && rhs.spec_is_constant() ==> (r is Ok <==> rhs.spec_value() < self.spec_type().width()),
            r is Ok && rhs.spec_value() >= self.spec_type().width() ==> !final(ctx).satisfied(),
            r matches Err(h) ==> {
                &&& *final(ctx) == *old(ctx)
                &&& h == if self.spec_is_constant() && rhs.spec_is_constant() {
                    Halt::ConstantShiftExceedsWidth {
                        bits: self.spec_type().width() as u32,
                        amount_bits: rhs.spec_type().width() as u32,
                    }
                } else {
                    Halt::ShiftExceedsWidth {
                        bits: self.spec_type().width() as u32,
                        amount_bits: rhs.spec_type().width() as u32,
                    }
                }
            },
            r matches Ok(out) ==> {
                &&& out.spec_type() == self.spec_type()
                &&& out.spec_value() == shr_value(
                    self.spec_value(),
                    (rhs.spec_value() % (self.spec_type().width() as int)) as nat,
                )
                &&& rhs.spec_value() < self.spec_type().width() ==> checked_shr_value(
                    self.spec_type(),
                    self.spec_value(),
                    rhs.spec_value() as nat,
                ) == Some(out.spec_value())
                &&& extended(*old(ctx), *final(ctx), rhs.spec_value() < self.spec_type().width())
                &&& self.is_uniform() && rhs.is_uniform() ==> advanced(
                    *old(ctx),
                    *final(ctx),
                    shr_checked_cost(self.spec_type(), rhs.spec_type(), self.spec_mode(), rhs.spec_mode()),
                    rhs.spec_value() < self.spec_type().width(),
                )
                &&& self.is_uniform() && rhs.is_uniform() ==> out.spec_mode() == shr_output_mode(
                    self.spec_mode(),
                    rhs.spec_mode(),
                )
            },
    {
        proof {
            use_type_invariant(self);
            use_type_invariant(rhs);
            lemma_width_powers(self.ty);
            lemma_width_powers(rhs.ty);
        }
        let ghost a = values(rhs.bits_le@);
        let ghost w = self.ty.width();
        let l = self.ty.log_bits() as usize;
        let m = rhs.bits_le.len();
        let both_constant = self.is_constant() && rhs.is_constant();
        // The amount reaches the width exactly when one of its upper bits is set.
        let ghost upper_bits = a.subrange(l as int, m as int);
        proof {
            lemma_bits_div_mod(a, l as nat);
            lemma_bits_zero(upper_bits);
            lemma_pow2_pos(l as nat);
            assert((bits_to_nat(upper_bits) != 0) <==> (exists|i: int| l <= i < m && a[i])) by {
                if bits_to_nat(upper_bits) != 0 {
                    let i = choose|i: int| 0 <= i < upper_bits.len() && upper_bits[i];
                    assert(a[l + i]);
                }
                if exists|i: int| l <= i < m && a[i] {
                    let i = choose|i: int| l <= i < m && a[i];
                    assert(upper_bits[i - l]);
                }
            }
            vstd::arithmetic::div_mod::lemma_div_pos_is_pos(rhs.spec_value(), w as int);
            if rhs.spec_value() >= w {
                vstd::arithmetic::div_mod::lemma_div_basics_5(rhs.spec_value(), w as int);
            } else {
                vstd::arithmetic::div_mod::lemma_basic_div(rhs.spec_value(), w as int);
            }
            assert((rhs.spec_value() >= w) <==> (exists|i: int| l <= i < m && a[i]));
        }
        // Halt where a constant upper bit of the amount is set.
        let mut j: usize = l;
        while j < m
            invariant
                l == self.ty.log_width(),
                m == rhs.bits_le@.len(),
                l <= j <= m,
                a == values(rhs.bits_le@),
                w == self.ty.width(),
                both_constant == (self.spec_is_constant() && rhs.spec_is_constant()),
                (rhs.spec_value() >= w) <==> (exists|i: int| l <= i < m && a[i]),
                forall|i: int| l <= i < j ==> !((#[trigger] rhs.bits_le@[i]).spec_is_constant() && rhs.bits_le@[i].spec_value()),
            decreases m - j,
        {
            if rhs.bits_le[j].is_constant() && rhs.bits_le[j].eject_value() {
                proof {
                    assert(a[j as int]);
                }
                let bits = self.ty.bits();
                let amount_bits = rhs.ty.bits();
                if both_constant {
                    return Err(Halt::ConstantShiftExceedsWidth { bits, amount_bits });
                } else {
                    return Err(Halt::ShiftExceedsWidth { bits, amount_bits });
                }
            }
            j += 1;
        }
        if both_constant {
            proof {
                if rhs.spec_value() >= w {
                    let i = choose|i: int| l <= i < m && a[i];
                    assert(rhs.bits_le@[i].spec_is_constant());
                }
            }
            Ok(self.shr_wrapped(rhs, ctx))
        } else {
            let ghost start = *ctx;
            let ghost uniform_variable = rhs.is_uniform() && !rhs.spec_is_constant();
            let ghost uniform_constant = rhs.spec_is_constant();
            proof {
                if uniform_variable {
                    assert(all_variable(rhs.bits_le@));
                }
            }
            let mut upper = Boolean::constant(false);
            let ghost mut g: nat = 0;
            let mut j: usize = l;
            while j < m
                invariant
                    l == self.ty.log_width(),
                    m == rhs.bits_le@.len(),
                    a == values(rhs.bits_le@),
                    l <= j <= m,
                    forall|i: int| l <= i < m ==> !((#[trigger] rhs.bits_le@[i]).spec_is_constant() && rhs.bits_le@[i].spec_value()),
                    upper.spec_value() == (exists|i: int| l <= i < j && a[i]),
                    upper.spec_is_constant() ==> !upper.spec_value(),
                    j == l ==> upper.spec_is_constant(),
                    g <= j,
                    advanced(start, *ctx, gates(g), true),
                    uniform_variable ==> all_variable(rhs.bits_le@),
                    uniform_variable ==> (j > l ==> !upper.spec_is_constant()) && g == if j > l { (j - l - 1) as nat } else { 0 },
                    uniform_constant ==> upper.spec_is_constant() && g == 0,
                    uniform_constant ==> forall|i: int| 0 <= i < m ==> (#[trigger] rhs.bits_le@[i]).spec_is_constant(),
                decreases m - j,
            {
                let ghost before = *ctx;
                let next = upper.or(&rhs.bits_le[j], ctx);
                proof {
                    let cost: nat = if upper.spec_is_constant() || rhs.bits_le@[j as int].spec_is_constant() { 0 } else { 1 };
                    lemma_advanced_trans(start, before, *ctx, gates(g), gates(cost), gates(g + cost), true, true);
                    g = g + cost;
                    if uniform_variable {
                        assert(!rhs.bits_le@[j as int].spec_is_constant());
                        assert(!next.spec_is_constant());
                        if j > l {
                            assert(cost == 1);
                        } else {
                            assert(cost == 0);
                        }
                    }
                    assert(a[j as int] == rhs.bits_le@[j as int].spec_value());
                    assert(next.spec_value() == (exists|i: int| l <= i < j + 1 && a[i])) by {
                        if a[j as int] {
                            assert(l <= j < j + 1);
                        }
                    }
                }
                upper = next;
                j += 1;
            }
            let ghost folded = *ctx;
            Boolean::assert_equal(&upper, &Boolean::constant(false), ctx);
            let ghost checked = *ctx;
            let out = self.shr_wrapped(rhs, ctx);
            proof {
                let holds = rhs.spec_value() < w;
                if upper.spec_is_constant() {
                    lemma_advanced_trans(start, folded, checked, gates(g), no_cost(), gates(g), true, true);
                } else {
                    lemma_advanced_trans(start, folded, checked, gates(g), one_constraint(), Count { constants: 0, public: 0, private: g as u64, constraints: (g + 1) as u64 }, true, holds);
                }
                if self.is_uniform() && rhs.is_uniform() {
                    if uniform_constant {
                        lemma_advanced_trans(start, checked, *ctx, gates(g), shr_wrapped_cost(self.ty, self.spec_mode(), rhs.spec_mode()), shr_checked_cost(self.ty, rhs.ty, self.spec_mode(), rhs.spec_mode()), true, true);
                    } else {
                        assert(!upper.spec_is_constant());
                        assert(self.ty.log_width() * self.ty.width() <= 896) by (nonlinear_arith)
                            requires
                                self.ty.log_width() <= 7,
                                self.ty.width() <= 128,
                        ;
                        lemma_advanced_trans(
                            start,
                            checked,
                            *ctx,
                            Count { constants: 0, public: 0, private: g as u64, constraints: (g + 1) as u64 },
                            shr_wrapped_cost(self.ty, self.spec_mode(), rhs.spec_mode()),
                            shr_checked_cost(self.ty, rhs.ty, self.spec_mode(), rhs.spec_mode()),
                            holds,
                            true,
                        );
                    }
                }
            }
            Ok(out)
        }
    }

    /// The right shift of `self` by `rhs`: the checked shift, with the same
    /// halting, result, mode and cost.
    pub fn shr(&self, rhs: &Integer, ctx: &mut Context) -> (r: Result<Integer, Halt>)
        requires
            rhs.spec_type().is_magnitude(),
        ensures
            r is Err <==> has_constant_one(rhs.spec_bits(), self.spec_type().log_width() as int),
            rhs.spec_value() < self.spec_type().width() ==> r is Ok,
            self.spec_is_constant() && rhs.spec_is_constant() ==> (r is Ok <==> rhs.spec_value() < self.spec_type().width()),
            r is Ok && rhs.spec_value() >= self.spec_type().width() ==> !final(ctx).satisfied(),
            r matches Err(h) ==> {
                &&& *final(ctx) == *old(ctx)
                &&& h == if self.spec_is_constant() && rhs.spec_is_constant() {
                    Halt::ConstantShiftExceedsWidth {
                        bits: self.spec_type().width() as u32,
                        amount_bits: rhs.spec_type().width() as u32,
                    }
                } else {
                    Halt::ShiftExceedsWidth {
                        bits: self.spec_type().width() as u32,
                        amount_bits: rhs.spec_type().width() as u32,
                    }
                }
            },
            r matches Ok(out) ==> {
                &&& out.spec_type() == self.spec_type()
                &&& out.spec_value() == shr_value(
                    self.spec_value(),
                    (rhs.spec_value() % (self.spec_type().width() as int)) as nat,
                )
                &&& rhs.spec_value() < self.spec_type().width() ==> checked_shr_value(
                    self.spec_type(),
                    self.spec_value(),
                    rhs.spec_value() as nat,
                ) == Some(out.spec_value())
                &&& extended(*old(ctx), *final(ctx), rhs.spec_value() < self.spec_type().width())
                &&& self.is_uniform() && rhs.is_uniform() ==> advanced(
                    *old(ctx),
                    *final(ctx),
                    shr_checked_cost(self.spec_type(), rhs.spec_type(), self.spec_mode(), rhs.spec_mode()),
                    rhs.spec_value() < self.spec_type().width(),
                )
                &&& self.is_uniform() && rhs.is_uniform() ==> out.spec_mode() == shr_output_mode(
                    self.spec_mode(),
                    rhs.spec_mode(),
                )
            },
    {
        self.shr_checked(rhs, ctx)
    }

    /// Replaces `self` by its checked right shift by `rhs`, with the same
    /// halting, result, mode and cost as `shr_checked`; where construction
    /// halts, `self` is left as it was.
    pub fn shr_assign(&mut self, rhs: &Integer, ctx: &mut Context) -> (r: Result<(), Halt>)
        requires
            rhs.spec_type().is_magnitude(),
        ensures
            r is Err <==> has_constant_one(rhs.spec_bits(), old(self).spec_type().log_width() as int),
            rhs.spec_value() < old(self).spec_type().width() ==> r is Ok,
            old(self).spec_is_constant() && rhs.spec_is_constant() ==> (r is Ok <==> rhs.spec_value() < old(self).spec_type().width()),
            r is Ok && rhs.spec_value() >= old(self).spec_type().width() ==> !final(ctx).satisfied(),
            r matches Err(h) ==> {
                &&& *final(ctx) == *old(ctx)
                &&& *final(self) == *old(self)
                &&& h == if old(self).spec_is_constant() && rhs.spec_is_constant() {
                    Halt::ConstantShiftExceedsWidth {
                        bits: old(self).spec_type().width() as u32,
                        amount_bits: rhs.spec_type().width() as u32,
                    }
                } else {
                    Halt::ShiftExceedsWidth {
                        bits: old(self).spec_type().width() as u32,
                        amount_bits: rhs.spec_type().width() as u32,
                    }
                }
            },
            r matches Ok(_) ==> {
                &&& final(self).spec_type() == old(self).spec_type()
                &&& final(self).spec_value() == shr_value(
                    old(self).spec_value(),
                    (rhs.spec_value() % (old(self).spec_type().width() as int)) as nat,
                )
                &&& rhs.spec_value() < old(self).spec_type().width() ==> checked_shr_value(
                    old(self).spec_type(),
                    old(self).spec_value(),
                    rhs.spec_value() as nat,
                ) == Some(final(self).spec_value())
                &&& extended(*old(ctx), *final(ctx), rhs.spec_value() < old(self).spec_type().width())
                &&& old(self).is_uniform() && rhs.is_uniform() ==> advanced(
                    *old(ctx),
                    *final(ctx),
                    shr_checked_cost(old(self).spec_type(), rhs.spec_type(), old(self).spec_mode(), rhs.spec_mode()),
                    rhs.spec_value() < old(self).spec_type().width(),
                )
                &&& old(self).is_uniform() && rhs.is_uniform() ==> final(self).spec_mode() == shr_output_mode(
                    old(self).spec_mode(),
                    rhs.spec_mode(),
                )
            },
    {
        match self.shr_checked(rhs, ctx) {
            Ok(out) => {
                *self = out;
                Ok(())
            },
            Err(h) => Err(h),
        }
    }
}

/// A shift by one halves, rounding towards negative infinity, for every
/// supported width and every value.
pub proof fn lemma_checked_shr_by_one(ty: IntegerType, v: int)
    ensures
        checked_shr_value(ty, v, 1) == Some(v / 2),
{
    vstd::arithmetic::power2::lemma2_to64();
}

} // verus!
