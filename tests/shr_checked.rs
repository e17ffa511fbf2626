use circuit_types::{Context, Halt, Integer, IntegerType, Mode, Native};

const ITERATIONS: usize = 32;

const MODES: [Mode; 3] = [Mode::Constant, Mode::Public, Mode::Private];

const BASES: [IntegerType; 10] = [
    IntegerType::I8,
    IntegerType::I16,
    IntegerType::I32,
    IntegerType::I64,
    IntegerType::I128,
    IntegerType::U8,
    IntegerType::U16,
    IntegerType::U32,
    IntegerType::U64,
    IntegerType::U128,
];

const MAGNITUDES: [IntegerType; 3] = [IntegerType::U8, IntegerType::U16, IntegerType::U32];

/// A small deterministic generator of test values.
struct Rng(u64);

impl Rng {
    fn next_u64(&mut self) -> u64 {
        self.0 ^= self.0 << 13;
        self.0 ^= self.0 >> 7;
        self.0 ^= self.0 << 17;
        self.0
    }

    fn next_u128(&mut self) -> u128 {
        ((self.next_u64() as u128) << 64) | self.next_u64() as u128
    }
}

/// The native value of type `ty` with the low bits of `raw`.
fn native(ty: IntegerType, raw: u128) -> Native {
    match ty {
        IntegerType::I8 => Native::I8(raw as i8),
        IntegerType::I16 => Native::I16(raw as i16),
        IntegerType::I32 => Native::I32(raw as i32),
        IntegerType::I64 => Native::I64(raw as i64),
        IntegerType::I128 => Native::I128(raw as i128),
        IntegerType::U8 => Native::U8(raw as u8),
        IntegerType::U16 => Native::U16(raw as u16),
        IntegerType::U32 => Native::U32(raw as u32),
        IntegerType::U64 => Native::U64(raw as u64),
        IntegerType::U128 => Native::U128(raw),
    }
}

/// The amount that a magnitude value stands for.
fn amount(value: Native) -> u32 {
    match value {
        Native::U8(x) => x as u32,
        Native::U16(x) => x as u32,
        Native::U32(x) => x,
        _ => panic!("not a magnitude"),
    }
}

/// The native checked shift.
fn oracle(value: Native, n: u32) -> Option<Native> {
    match value {
        Native::I8(x) => x.checked_shr(n).map(Native::I8),
        Native::I16(x) => x.checked_shr(n).map(Native::I16),
        Native::I32(x) => x.checked_shr(n).map(Native::I32),
        Native::I64(x) => x.checked_shr(n).map(Native::I64),
        Native::I128(x) => x.checked_shr(n).map(Native::I128),
        Native::U8(x) => x.checked_shr(n).map(Native::U8),
        Native::U16(x) => x.checked_shr(n).map(Native::U16),
        Native::U32(x) => x.checked_shr(n).map(Native::U32),
        Native::U64(x) => x.checked_shr(n).map(Native::U64),
        Native::U128(x) => x.checked_shr(n).map(Native::U128),
    }
}

/// The native wrapping shift.
fn wrapping_oracle(value: Native, n: u32) -> Native {
    match value {
        Native::I8(x) => Native::I8(x.wrapping_shr(n)),
        Native::I16(x) => Native::I16(x.wrapping_shr(n)),
        Native::I32(x) => Native::I32(x.wrapping_shr(n)),
        Native::I64(x) => Native::I64(x.wrapping_shr(n)),
        Native::I128(x) => Native::I128(x.wrapping_shr(n)),
        Native::U8(x) => Native::U8(x.wrapping_shr(n)),
        Native::U16(x) => Native::U16(x.wrapping_shr(n)),
        Native::U32(x) => Native::U32(x.wrapping_shr(n)),
        Native::U64(x) => Native::U64(x.wrapping_shr(n)),
        Native::U128(x) => Native::U128(x.wrapping_shr(n)),
    }
}

fn check_shr(first: Native, second: Native, mode_a: Mode, mode_b: Mode) {
    let mut ctx = Context::new();
    let a = Integer::new(&mut ctx, mode_a, first);
    let b = Integer::new(&mut ctx, mode_b, second);
    assert_eq!(a.eject_value(), first);
    assert_eq!(b.eject_value(), second);
    let case = (mode_a, mode_b);
    let predicted = Integer::shr_checked_count(first.integer_type(), second.integer_type(), &case);
    match oracle(first, amount(second)) {
        Some(expected) => {
            ctx.enter_scope(format!("Shr: {:?} >> {:?}", first, second));
            let candidate = a.shr_checked(&b, &mut ctx).unwrap();
            assert_eq!(expected, candidate.eject_value());
            let (_, count) = ctx.exit_scope().unwrap();
            assert_eq!(predicted, count);
            assert_eq!(Integer::shr_checked_output_mode(&case), candidate.mode());
            assert!(ctx.is_satisfied());
        }
        None => match (mode_a, mode_b) {
            (_, Mode::Constant) => {
                let before = ctx.count();
                assert!(a.shr_checked(&b, &mut ctx).is_err());
                assert_eq!(before, ctx.count());
                assert!(ctx.is_satisfied());
            }
            _ => {
                ctx.enter_scope(format!("Shr: {:?} >> {:?}", first, second));
                let candidate = a.shr_checked(&b, &mut ctx).unwrap();
                let (_, count) = ctx.exit_scope().unwrap();
                assert_eq!(predicted, count);
                assert!(!ctx.is_satisfied());
                assert_eq!(wrapping_oracle(first, amount(second)), candidate.eject_value());
            }
        },
    }
}

fn run_test(mode_a: Mode, mode_b: Mode) {
    let mut rng = Rng(0x2545_f491_4f6c_dd1d);
    for &base in BASES.iter() {
        for &magnitude in MAGNITUDES.iter() {
            for i in 0..ITERATIONS {
                let first = native(base, rng.next_u128());
                // Small amounts, so that most shifts succeed.
                let raw = if i % 4 == 0 { rng.next_u128() } else { rng.next_u128() % 160 };
                let second = native(magnitude, raw);
                check_shr(first, second, mode_a, mode_b);

                // Check that shift right by one is computed correctly.
                check_shr(first, native(magnitude, 1), mode_a, mode_b);
            }
        }
    }
}

fn run_exhaustive_test(base: IntegerType, mode_a: Mode, mode_b: Mode) {
    for first in 0..=255u128 {
        for second in 0..=255u128 {
            check_shr(native(base, first), Native::U8(second as u8), mode_a, mode_b);
        }
    }
}

#[test]
fn test_constant_shr_constant() {
    run_test(Mode::Constant, Mode::Constant);
}

#[test]
fn test_constant_shr_public() {
    run_test(Mode::Constant, Mode::Public);
}

#[test]
fn test_constant_shr_private() {
    run_test(Mode::Constant, Mode::Private);
}

#[test]
fn test_public_shr_constant() {
    run_test(Mode::Public, Mode::Constant);
}

#[test]
fn test_public_shr_public() {
    run_test(Mode::Public, Mode::Public);
}

#[test]
fn test_public_shr_private() {
    run_test(Mode::Public, Mode::Private);
}

#[test]
fn test_private_shr_constant() {
    run_test(Mode::Private, Mode::Constant);
}

#[test]
fn test_private_shr_public() {
    run_test(Mode::Private, Mode::Public);
}

#[test]
fn test_private_shr_private() {
    run_test(Mode::Private, Mode::Private);
}

#[test]
fn test_u8_shr_u8_exhaustive_constant_constant() {
    run_exhaustive_test(IntegerType::U8, Mode::Constant, Mode::Constant);
}

#[test]
fn test_u8_shr_u8_exhaustive_constant_public() {
    run_exhaustive_test(IntegerType::U8, Mode::Constant, Mode::Public);
}

#[test]
fn test_u8_shr_u8_exhaustive_constant_private() {
    run_exhaustive_test(IntegerType::U8, Mode::Constant, Mode::Private);
}

#[test]
fn test_u8_shr_u8_exhaustive_public_constant() {
    run_exhaustive_test(IntegerType::U8, Mode::Public, Mode::Constant);
}

#[test]
fn test_u8_shr_u8_exhaustive_public_public() {
    run_exhaustive_test(IntegerType::U8, Mode::Public, Mode::Public);
}

#[test]
fn test_u8_shr_u8_exhaustive_public_private() {
    run_exhaustive_test(IntegerType::U8, Mode::Public, Mode::Private);
}

#[test]
fn test_u8_shr_u8_exhaustive_private_constant() {
    run_exhaustive_test(IntegerType::U8, Mode::Private, Mode::Constant);
}

#[test]
fn test_u8_shr_u8_exhaustive_private_public() {
    run_exhaustive_test(IntegerType::U8, Mode::Private, Mode::Public);
}

#[test]
fn test_u8_shr_u8_exhaustive_private_private() {
    run_exhaustive_test(IntegerType::U8, Mode::Private, Mode::Private);
}

#[test]
fn test_i8_shr_u8_exhaustive_constant_constant() {
    run_exhaustive_test(IntegerType::I8, Mode::Constant, Mode::Constant);
}

#[test]
fn test_i8_shr_u8_exhaustive_constant_public() {
    run_exhaustive_test(IntegerType::I8, Mode::Constant, Mode::Public);
}

#[test]
fn test_i8_shr_u8_exhaustive_constant_private() {
    run_exhaustive_test(IntegerType::I8, Mode::Constant, Mode::Private);
}

#[test]
fn test_i8_shr_u8_exhaustive_public_constant() {
    run_exhaustive_test(IntegerType::I8, Mode::Public, Mode::Constant);
}

#[test]
fn test_i8_shr_u8_exhaustive_public_public() {
    run_exhaustive_test(IntegerType::I8, Mode::Public, Mode::Public);
}

#[test]
fn test_i8_shr_u8_exhaustive_public_private() {
    run_exhaustive_test(IntegerType::I8, Mode::Public, Mode::Private);
}

#[test]
fn test_i8_shr_u8_exhaustive_private_constant() {
    run_exhaustive_test(IntegerType::I8, Mode::Private, Mode::Constant);
}

#[test]
fn test_i8_shr_u8_exhaustive_private_public() {
    run_exhaustive_test(IntegerType::I8, Mode::Private, Mode::Public);
}

#[test]
fn test_i8_shr_u8_exhaustive_private_private() {
    run_exhaustive_test(IntegerType::I8, Mode::Private, Mode::Private);
}

#[test]
fn negative_byte_shifted_by_constant_two() {
    let mut ctx = Context::new();
    let a = Integer::new(&mut ctx, Mode::Constant, Native::I8(-5));
    let b = Integer::new(&mut ctx, Mode::Constant, Native::U8(2));
    let r = a.shr_checked(&b, &mut ctx).unwrap();
    assert_eq!(r.eject_value(), Native::I8((-5i8).checked_shr(2).unwrap()));
    assert_eq!(r.eject_value(), Native::I8(-2));
    assert_eq!(r.mode(), Mode::Constant);
}

#[test]
fn constant_shift_by_nine_halts() {
    for &base in [Native::U8(200), Native::I8(-100)].iter() {
        let mut ctx = Context::new();
        let a = Integer::new(&mut ctx, Mode::Constant, base);
        let b = Integer::new(&mut ctx, Mode::Constant, Native::U16(9));
        let before = ctx.count();
        let r = a.shr_checked(&b, &mut ctx);
        assert_eq!(r.err(), Some(Halt::ConstantShiftExceedsWidth { bits: 8, amount_bits: 16 }));
        assert_eq!(ctx.count(), before);
    }
}

#[test]
fn variable_shifted_by_large_constant_halts() {
    let mut ctx = Context::new();
    let a = Integer::new(&mut ctx, Mode::Private, Native::U32(77));
    let b = Integer::new(&mut ctx, Mode::Constant, Native::U8(32));
    let r = a.shr(&b, &mut ctx);
    assert_eq!(r.err(), Some(Halt::ShiftExceedsWidth { bits: 32, amount_bits: 8 }));
}

#[test]
fn variable_amount_too_large_is_unsatisfiable() {
    let mut ctx = Context::new();
    let a = Integer::new(&mut ctx, Mode::Constant, Native::I16(-1000));
    let b = Integer::new(&mut ctx, Mode::Private, Native::U8(16));
    let r = a.shr_checked(&b, &mut ctx).unwrap();
    assert!(!ctx.is_satisfied());
    assert_eq!(r.eject_value(), Native::I16(-1000));
}

#[test]
fn shr_assign_replaces_the_value() {
    let mut ctx = Context::new();
    let mut a = Integer::new(&mut ctx, Mode::Public, Native::I64(-1_000_001));
    let b = Integer::new(&mut ctx, Mode::Private, Native::U32(3));
    a.shr_assign(&b, &mut ctx).unwrap();
    assert_eq!(a.eject_value(), Native::I64(-125_001));
    assert_eq!(a.mode(), Mode::Private);
    let c = Integer::new(&mut ctx, Mode::Constant, Native::U32(64));
    assert!(a.shr_assign(&c, &mut ctx).is_err());
    assert_eq!(a.eject_value(), Native::I64(-125_001));
}

#[test]
fn wrapped_shift_takes_the_amount_modulo_the_width() {
    let mut ctx = Context::new();
    let a = Integer::new(&mut ctx, Mode::Private, Native::U16(0x8000));
    let b = Integer::new(&mut ctx, Mode::Public, Native::U32(17));
    let r = a.shr_wrapped(&b, &mut ctx);
    assert_eq!(r.eject_value(), Native::U16(0x4000));
    assert!(ctx.is_satisfied());
    let c = Integer::new(&mut ctx, Mode::Constant, Native::U8(200));
    let s = Integer::new(&mut ctx, Mode::Constant, Native::I128(i128::MIN));
    assert_eq!(s.shr_wrapped(&c, &mut ctx).eject_value(), Native::I128(i128::MIN >> (200 % 128)));
}

#[test]
fn shr_costs_by_case() {
    let c = Integer::shr_checked_count(IntegerType::U8, IntegerType::U8, &(Mode::Constant, Mode::Constant));
    assert_eq!((c.constants, c.public, c.private, c.constraints), (8, 0, 0, 0));
    let c = Integer::shr_checked_count(IntegerType::I64, IntegerType::U16, &(Mode::Private, Mode::Constant));
    assert_eq!((c.constants, c.public, c.private, c.constraints), (0, 0, 0, 0));
    // 3 rows of 8 selections, 4 ORs over the upper bits and one equality.
    let c = Integer::shr_checked_count(IntegerType::U8, IntegerType::U8, &(Mode::Public, Mode::Private));
    assert_eq!((c.constants, c.public, c.private, c.constraints), (0, 0, 24 + 4, 24 + 5));
    // 7 rows of 128 selections, 24 ORs over the upper bits and one equality.
    let c = Integer::shr_checked_count(IntegerType::I128, IntegerType::U32, &(Mode::Constant, Mode::Public));
    assert_eq!((c.constants, c.public, c.private, c.constraints), (0, 0, 896 + 24, 896 + 25));
    let w = Integer::shr_wrapped_count(IntegerType::U32, &(Mode::Private, Mode::Private));
    assert_eq!((w.constants, w.public, w.private, w.constraints), (0, 0, 160, 160));
    assert_eq!(Integer::shr_checked_output_mode(&(Mode::Public, Mode::Constant)), Mode::Public);
    assert_eq!(Integer::shr_checked_output_mode(&(Mode::Constant, Mode::Public)), Mode::Private);
    assert_eq!(Integer::shr_wrapped_output_mode(&(Mode::Constant, Mode::Constant)), Mode::Constant);
}

#[test]
fn integer_round_trips_extreme_values() {
    let values = [
        Native::I8(i8::MIN),
        Native::I8(i8::MAX),
        Native::I16(i16::MIN),
        Native::I32(-1),
        Native::I64(i64::MIN),
        Native::I128(i128::MIN),
        Native::I128(i128::MAX),
        Native::U8(u8::MAX),
        Native::U64(u64::MAX),
        Native::U128(u128::MAX),
        Native::U128(0),
    ];
    for &v in values.iter() {
        let mut ctx = Context::new();
        let x = Integer::new(&mut ctx, Mode::Private, v);
        assert_eq!(x.eject_value(), v);
        assert_eq!(x.integer_type(), v.integer_type());
        assert_eq!(ctx.count().private as u32, v.integer_type().bits());
        assert_eq!(x.mode(), Mode::Private);
        assert!(!x.is_constant());
    }
}

#[test]
fn operator_forms_match_the_checked_shift() {
    let mut rng = Rng(0x5851_f42d_4c95_7f2d);
    for &mode_a in MODES.iter() {
        for &mode_b in MODES.iter() {
            for _ in 0..20 {
                let first = native(IntegerType::I32, rng.next_u128());
                let second = Native::U8((rng.next_u64() % 40) as u8);

                let mut checked_ctx = Context::new();
                let a = Integer::new(&mut checked_ctx, mode_a, first);
                let b = Integer::new(&mut checked_ctx, mode_b, second);
                let checked = a.shr_checked(&b, &mut checked_ctx);

                let mut op_ctx = Context::new();
                let a = Integer::new(&mut op_ctx, mode_a, first);
                let b = Integer::new(&mut op_ctx, mode_b, second);
                let op = a.shr(&b, &mut op_ctx);

                let mut assign_ctx = Context::new();
                let mut c = Integer::new(&mut assign_ctx, mode_a, first);
                let b = Integer::new(&mut assign_ctx, mode_b, second);
                let assigned = c.shr_assign(&b, &mut assign_ctx);

                assert_eq!(checked.is_ok(), op.is_ok());
                assert_eq!(checked.is_ok(), assigned.is_ok());
                assert_eq!(checked_ctx.count(), op_ctx.count());
                assert_eq!(checked_ctx.count(), assign_ctx.count());
                assert_eq!(checked_ctx.is_satisfied(), op_ctx.is_satisfied());
                assert_eq!(checked_ctx.is_satisfied(), assign_ctx.is_satisfied());
                match (checked, op) {
                    (Ok(x), Ok(y)) => {
                        assert_eq!(x.eject_value(), y.eject_value());
                        assert_eq!(x.mode(), y.mode());
                        assert_eq!(x.eject_value(), c.eject_value());
                        assert_eq!(x.mode(), c.mode());
                    }
                    (Err(x), Err(y)) => {
                        assert_eq!(x, y);
                        assert_eq!(assigned.err(), Some(x));
                        assert_eq!(c.eject_value(), first);
                    }
                    _ => panic!("the operator forms disagree with the checked shift"),
                }
            }
        }
    }
}
