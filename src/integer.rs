use vstd::prelude::*;
use vstd::arithmetic::power2::{pow2, lemma2_to64, lemma2_to64_rest, lemma_pow2_adds, lemma_pow2_pos, lemma_pow2_strictly_increases};
use crate::bits::{bits_to_nat, bits_to_int, lemma_bits_push, lemma_bits_bound, lemma_bits_first, lemma_bits_top};
use crate::boolean::{Boolean, values, mode_of, bits_mode};
use crate::context::{Context, advanced, unit, units, lemma_advanced_trans};
use crate::mode::Mode;

verus! {

/// The supported fixed-width integer types.
#[derive(Clone, Copy, Debug, PartialEq, Eq, Structural)]
pub enum IntegerType {
    I8,
    I16,
    I32,
    I64,
    I128,
    U8,
    U16,
    U32,
    U64,
    U128,
}

impl IntegerType {
    /// The number of bits.
    pub open spec fn width(self) -> nat {
        match self {
            IntegerType::I8 | IntegerType::U8 => 8,
            IntegerType::I16 | IntegerType::U16 => 16,
            IntegerType::I32 | IntegerType::U32 => 32,
            IntegerType::I64 | IntegerType::U64 => 64,
            IntegerType::I128 | IntegerType::U128 => 128,
        }
    }

    /// The base-2 logarithm of the number of bits.
    pub open spec fn log_width(self) -> nat {
        match self {
            IntegerType::I8 | IntegerType::U8 => 3,
            IntegerType::I16 | IntegerType::U16 => 4,
            IntegerType::I32 | IntegerType::U32 => 5,
            IntegerType::I64 | IntegerType::U64 => 6,
            IntegerType::I128 | IntegerType::U128 => 7,
        }
    }

    /// Whether values are read in two's complement.
    pub open spec fn signed(self) -> bool {
        match self {
            IntegerType::I8 | IntegerType::I16 | IntegerType::I32 | IntegerType::I64 | IntegerType::I128 => true,
            _ => false,
        }
    }

    /// Whether the type may serve as a shift amount: `u8`, `u16` or `u32`.
    pub open spec fn is_magnitude(self) -> bool {
        match self {
            IntegerType::U8 | IntegerType::U16 | IntegerType::U32 => true,
            _ => false,
        }
    }

    /// Returns the number of bits.
    pub fn bits(&self) -> (r: u32)
        ensures
            r == self.width(),
    {
        match self {
            IntegerType::I8 | IntegerType::U8 => 8,
            IntegerType::I16 | IntegerType::U16 => 16,
            IntegerType::I32 | IntegerType::U32 => 32,
            IntegerType::I64 | IntegerType::U64 => 64,
            IntegerType::I128 | IntegerType::U128 => 128,
        }
    }

    /// Returns the base-2 logarithm of the number of bits, which is also the
    /// number of its trailing zeros.
    pub fn log_bits(&self) -> (r: u32)
        ensures
            r == self.log_width(),
    {
        match self {
            IntegerType::I8 | IntegerType::U8 => 3,
            IntegerType::I16 | IntegerType::U16 => 4,
            IntegerType::I32 | IntegerType::U32 => 5,
            IntegerType::I64 | IntegerType::U64 => 6,
            IntegerType::I128 | IntegerType::U128 => 7,
        }
    }

    /// Returns whether values are read in two's complement.
    pub fn is_signed(&self) -> (r: bool)
        ensures
            r == self.signed(),
    {
        match self {
            IntegerType::I8 | IntegerType::I16 | IntegerType::I32 | IntegerType::I64 | IntegerType::I128 => true,
            _ => false,
        }
    }
}

/// The powers of two that the supported widths need.
pub proof fn lemma_width_powers(ty: IntegerType)
    ensures
        pow2(ty.log_width()) == ty.width(),
        pow2(ty.width()) == 2 * pow2((ty.width() - 1) as nat),
        ty.width() == 8 ==> pow2(8) == 256 && pow2(7) == 128,
        ty.width() == 16 ==> pow2(16) == 65536 && pow2(15) == 32768,
        ty.width() == 32 ==> pow2(32) == 4294967296 && pow2(31) == 2147483648,
        ty.width() == 64 ==> pow2(64) == 18446744073709551616 && pow2(63) == 9223372036854775808,
        ty.width() == 128 ==> pow2(128) == 340282366920938463463374607431768211456 && pow2(127)
            == 170141183460469231731687303715884105728,
{
    lemma2_to64();
    lemma2_to64_rest();
    lemma_pow2_adds(64, 64);
    lemma_pow2_adds(63, 64);
}

/// A value of one of the native integer types.
#[derive(Clone, Copy, Debug, PartialEq, Eq, Structural)]
pub enum Native {
    I8(i8),
    I16(i16),
    I32(i32),
    I64(i64),
    I128(i128),
    U8(u8),
    U16(u16),
    U32(u32),
    U64(u64),
    U128(u128),
}

impl Native {
    /// The type of the value.
    pub open spec fn spec_type(self) -> IntegerType {
        match self {
            Native::I8(_) => IntegerType::I8,
            Native::I16(_) => IntegerType::I16,
            Native::I32(_) => IntegerType::I32,
            Native::I64(_) => IntegerType::I64,
            Native::I128(_) => IntegerType::I128,
            Native::U8(_) => IntegerType::U8,
            Native::U16(_) => IntegerType::U16,
            Native::U32(_) => IntegerType::U32,
            Native::U64(_) => IntegerType::U64,
            Native::U128(_) => IntegerType::U128,
        }
    }

    /// The value as a mathematical integer.
    pub open spec fn as_int(self) -> int {
        match self {
            Native::I8(x) => x as int,
            Native::I16(x) => x as int,
            Native::I32(x) => x as int,
            Native::I64(x) => x as int,
            Native::I128(x) => x as int,
            Native::U8(x) => x as int,
            Native::U16(x) => x as int,
            Native::U32(x) => x as int,
            Native::U64(x) => x as int,
            Native::U128(x) => x as int,
        }
    }

    /// Returns the type of the value.
    pub fn integer_type(&self) -> (r: IntegerType)
        ensures
            r == self.spec_type(),
    {
        match self {
            Native::I8(_) => IntegerType::I8,
            Native::I16(_) => IntegerType::I16,
            Native::I32(_) => IntegerType::I32,
            Native::I64(_) => IntegerType::I64,
            Native::I128(_) => IntegerType::I128,
            Native::U8(_) => IntegerType::U8,
            Native::U16(_) => IntegerType::U16,
            Native::U32(_) => IntegerType::U32,
            Native::U64(_) => IntegerType::U64,
            Native::U128(_) => IntegerType::U128,
        }
    }
}

/// The bits of `v` as an unsigned number below `2^width`: `v` itself where it
/// is not negative, `v + 2^width` otherwise.
pub open spec fn pattern_of(v: int, ty: IntegerType) -> int {
    if v < 0 {
        v + pow2(ty.width())
    } else {
        v
    }
}

/// Returns the two's-complement bit pattern of `v`.
fn to_pattern(v: &Native) -> (r: u128)
    ensures
        r == pattern_of(v.as_int(), v.spec_type()),
        r < pow2(v.spec_type().width()),
{
    proof {
        lemma_width_powers(v.spec_type());
    }
    match *v {
        Native::I8(x) => if x < 0 {
            (x as i16 + 256i16) as u128
        } else {
            x as u128
        },
        Native::I16(x) => if x < 0 {
            (x as i32 + 65536i32) as u128
        } else {
            x as u128
        },
        Native::I32(x) => if x < 0 {
            (x as i64 + 4294967296i64) as u128
        } else {
            x as u128
        },
        Native::I64(x) => if x < 0 {
            (x as i128 + 18446744073709551616i128) as u128
        } else {
            x as u128
        },
        Native::I128(x) => if x < 0 {
            (x + i128::MAX + 1) as u128 + 170141183460469231731687303715884105728u128
        } else {
            x as u128
        },
        Native::U8(x) => x as u128,
        Native::U16(x) => x as u128,
        Native::U32(x) => x as u128,
        Native::U64(x) => x as u128,
        Native::U128(x) => x,
    }
}

/// The value whose bit pattern is `p`.
pub open spec fn value_of_pattern(p: int, ty: IntegerType) -> int {
    if ty.signed() && p >= pow2((ty.width() - 1) as nat) {
        p - pow2(ty.width())
    } else {
        p
    }
}

/// Returns the value of type `ty` whose two's-complement bit pattern is `p`.
fn from_pattern(ty: IntegerType, p: u128) -> (r: Native)
    requires
        p < pow2(ty.width()),
    ensures
        r.spec_type() == ty,
        r.as_int() == value_of_pattern(p as int, ty),
{
    proof {
        lemma_width_powers(ty);
    }
    match ty {
        IntegerType::I8 => Native::I8(if p >= 128 {
            (p as i16 - 256i16) as i8
        } else {
            p as i8
        }),
        IntegerType::I16 => Native::I16(if p >= 32768 {
            (p as i32 - 65536i32) as i16
        } else {
            p as i16
        }),
        IntegerType::I32 => Native::I32(if p >= 2147483648 {
            (p as i64 - 4294967296i64) as i32
        } else {
            p as i32
        }),
        IntegerType::I64 => Native::I64(if p >= 9223372036854775808 {
            (p as i128 - 18446744073709551616i128) as i64
        } else {
            p as i64
        }),
        IntegerType::I128 => Native::I128(if p >= 170141183460469231731687303715884105728 {
            let m = (u128::MAX - p) as i128;
            -m - 1
        } else {
            p as i128
        }),
        IntegerType::U8 => Native::U8(p as u8),
        IntegerType::U16 => Native::U16(p as u16),
        IntegerType::U32 => Native::U32(p as u32),
        IntegerType::U64 => Native::U64(p as u64),
        IntegerType::U128 => Native::U128(p),
    }
}

/// Returns the unsigned value of the bits from index `lo` up to `hi`.
pub(crate) fn bits_value(bits: &Vec<Boolean>, lo: usize, hi: usize) -> (r: u128)
    requires
        lo <= hi <= bits@.len(),
        hi - lo <= 128,
    ensures
        r == bits_to_nat(values(bits@).subrange(lo as int, hi as int)),
{
    let ghost vals = values(bits@);
    let mut acc: u128 = 0;
    let mut i: usize = hi;
    while i > lo
        invariant
            lo <= i <= hi <= bits@.len(),
            hi - lo <= 128,
            vals == values(bits@),
            acc == bits_to_nat(vals.subrange(i as int, hi as int)),
        decreases i,
    {
        proof {
            let t = vals.subrange(i as int, hi as int);
            lemma_bits_bound(t);
            if t.len() < 127 {
                lemma_pow2_strictly_increases(t.len(), 127);
            }
            lemma2_to64();
            lemma2_to64_rest();
            lemma_pow2_adds(63, 64);
        }
        i -= 1;
        let b = bits[i].eject_value();
        proof {
            let s = vals.subrange(i as int, hi as int);
            assert(s.drop_first() =~= vals.subrange(i + 1, hi as int));
            assert(s[0] == b);
            lemma_bits_first(s);
        }
        acc = 2 * acc + if b {
            1
        } else {
            0
        };
    }
    proof {
        assert(vals.subrange(lo as int, hi as int) =~= vals.subrange(i as int, hi as int));
    }
    acc
}

/// Allocates the `w` bits of `p`, least significant first, each of mode `mode`.
pub(crate) fn decompose(p: u128, w: usize, mode: Mode, ctx: &mut Context) -> (r: Vec<Boolean>)
    requires
        w <= 128,
        p < pow2(w as nat),
    ensures
        r@.len() == w,
        bits_to_nat(values(r@)) == p,
        forall|i: int| 0 <= i < w ==> (#[trigger] r@[i]).spec_mode() == mode,
        advanced(*old(ctx), *final(ctx), units(mode, w as nat), true),
{
    let mut rest = p;
    let mut bits: Vec<Boolean> = Vec::new();
    let mut i: usize = 0;
    proof {
        lemma2_to64();
        assert(values(bits@) =~= Seq::<bool>::empty());
    }
    while i < w
        invariant
            i <= w <= 128,
            p < pow2(w as nat),
            bits@.len() == i,
            p == bits_to_nat(values(bits@)) + pow2(i as nat) * rest,
            forall|j: int| 0 <= j < i ==> (#[trigger] bits@[j]).spec_mode() == mode,
            advanced(*old(ctx), *ctx, units(mode, i as nat), true),
        decreases w - i,
    {
        let b = rest % 2 == 1;
        let ghost before = *ctx;
        let bit = Boolean::new(ctx, mode, b);
        proof {
            lemma_advanced_trans(*old(ctx), before, *ctx, units(mode, i as nat), unit(mode), units(mode, (i + 1) as nat), true, true);
            assert(values(bits@.push(bit)) =~= values(bits@).push(b));
            lemma_bits_push(values(bits@), b);
            vstd::arithmetic::power2::lemma_pow2_unfold((i + 1) as nat);
            let d: int = if b { 1 } else { 0 };
            let q = pow2(i as nat) as int;
            assert(q * (rest as int) == q * d + (2 * q) * ((rest / 2) as int)) by (nonlinear_arith)
                requires
                    rest as int == 2 * ((rest / 2) as int) + d,
            ;
        }
        bits.push(bit);
        rest = rest / 2;
        i += 1;
    }
    proof {
        lemma_bits_bound(values(bits@));
        lemma_pow2_pos(w as nat);
        if rest > 0 {
            assert(pow2(w as nat) * rest >= pow2(w as nat)) by (nonlinear_arith)
                requires
                    rest > 0,
                    pow2(w as nat) > 0,
            ;
        }
    }
    bits
}

/// A fixed-width integer in a circuit: its type and its bits, least
/// significant first.
pub struct Integer {
    pub(crate) ty: IntegerType,
    pub(crate) bits_le: Vec<Boolean>,
}

impl Integer {
    #[verifier::type_invariant]
    pub(crate) open spec fn inv(self) -> bool {
        self.bits_le@.len() == self.ty.width()
    }

    /// The type of the integer.
    pub open(crate) spec fn spec_type(&self) -> IntegerType {
        self.ty
    }

    /// The bits of the integer, least significant first.
    pub open(crate) spec fn spec_bits(&self) -> Seq<Boolean> {
        self.bits_le@
    }

    /// The witness value of the integer.
    pub open spec fn spec_value(&self) -> int {
        bits_to_int(values(self.spec_bits()), self.spec_type().signed())
    }

    /// The mode of the integer, from the modes of its bits.
    pub open spec fn spec_mode(&self) -> Mode {
        mode_of(self.spec_bits())
    }

    /// Whether every bit is constant.
    pub open spec fn spec_is_constant(&self) -> bool {
        self.spec_mode() == Mode::Constant
    }

    /// Whether every bit has the mode of the integer, as for one just allocated.
    pub open spec fn is_uniform(&self) -> bool {
        forall|i: int| 0 <= i < self.spec_bits().len() ==> (#[trigger] self.spec_bits()[i]).spec_mode() == self.spec_mode()
    }

    /// Allocates an integer of mode `mode` holding `value`: one variable of
    /// that mode for each bit.
    pub fn new(ctx: &mut Context, mode: Mode, value: Native) -> (r: Integer)
        ensures
            r.spec_type() == value.spec_type(),
            r.spec_value() == value.as_int(),
            r.spec_mode() == mode,
            r.is_uniform(),
            advanced(*old(ctx), *final(ctx), units(mode, value.spec_type().width()), true),
    {
        let ty = value.integer_type();
        let p = to_pattern(&value);
        let w = ty.bits() as usize;
        let bits_le = decompose(p, w, mode, ctx);
        proof {
            lemma_width_powers(ty);
            lemma_bits_top(values(bits_le@));
            assert(values(bits_le@).len() == w);
        }
        let r = Integer { ty, bits_le };
        proof {
            assert(r.spec_bits()[0].spec_mode() == mode);
        }
        r
    }

    /// Returns the type of the integer.
    pub fn integer_type(&self) -> (r: IntegerType)
        ensures
            r == self.spec_type(),
    {
        self.ty
    }

    /// Returns the mode of the integer.
    pub fn mode(&self) -> (r: Mode)
        ensures
            r == self.spec_mode(),
    {
        bits_mode(&self.bits_le)
    }

    /// Returns whether every bit is constant.
    pub fn is_constant(&self) -> (r: bool)
        ensures
            r == self.spec_is_constant(),
    {
        self.mode().is_constant()
    }

    /// Returns the native value that the witness holds.
    pub fn eject_value(&self) -> (r: Native)
        ensures
            r.spec_type() == self.spec_type(),
            r.as_int() == self.spec_value(),
    {
        proof {
            use_type_invariant(self);
            lemma_width_powers(self.ty);
        }
        let p = bits_value(&self.bits_le, 0, self.bits_le.len());
        proof {
            let vals = values(self.bits_le@);
            assert(vals.subrange(0, vals.len() as int) =~= vals);
            lemma_bits_bound(vals);
            lemma_bits_top(vals);
        }
        from_pattern(self.ty, p)
    }
}

} // verus!
