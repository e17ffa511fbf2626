use circuit_types::metrics::width_index;
use circuit_types::visibility::size_in_fields_of;
use circuit_types::{Boolean, Context, Count, EncodingError, Halt, Integer, Mode, Native, Scalar, Visibility};

#[test]
fn fresh_context_is_empty_and_satisfied() {
    let ctx = Context::new();
    assert_eq!(ctx.count(), Count::zero());
    assert!(ctx.is_satisfied());
}

#[test]
fn allocation_counts_by_mode() {
    let mut ctx = Context::new();
    Boolean::new(&mut ctx, Mode::Constant, true);
    Boolean::new(&mut ctx, Mode::Public, false);
    Boolean::new(&mut ctx, Mode::Private, true);
    Boolean::new(&mut ctx, Mode::Private, true);
    assert_eq!(ctx.count(), Count::is(1, 1, 2, 0));
    let c = Boolean::constant(true);
    assert!(c.is_constant());
    assert_eq!(ctx.count(), Count::is(1, 1, 2, 0));
}

#[test]
fn gates_cost_one_variable_and_one_constraint() {
    let mut ctx = Context::new();
    let a = Boolean::new(&mut ctx, Mode::Private, true);
    let b = Boolean::new(&mut ctx, Mode::Public, false);
    let start = ctx.count();
    let or = a.or(&b, &mut ctx);
    let and = a.and(&b, &mut ctx);
    let xor = a.xor(&b, &mut ctx);
    let sel = b.ternary(&a, &xor, &mut ctx);
    assert!(or.eject_value());
    assert!(!and.eject_value());
    assert!(xor.eject_value());
    assert!(sel.eject_value());
    assert_eq!(or.mode(), Mode::Private);
    let end = ctx.count();
    assert_eq!(end.private - start.private, 4);
    assert_eq!(end.constraints - start.constraints, 4);
    assert!(ctx.is_satisfied());
}

#[test]
fn constant_operands_cost_nothing() {
    let mut ctx = Context::new();
    let a = Boolean::new(&mut ctx, Mode::Private, true);
    let t = Boolean::constant(true);
    let f = Boolean::constant(false);
    let start = ctx.count();
    assert_eq!(f.or(&a, &mut ctx).mode(), Mode::Private);
    assert_eq!(t.or(&a, &mut ctx).mode(), Mode::Constant);
    assert_eq!(f.and(&a, &mut ctx).mode(), Mode::Constant);
    assert!(!t.xor(&a, &mut ctx).eject_value());
    assert!(!t.ternary(&f, &a, &mut ctx).eject_value());
    assert!(!a.not().eject_value());
    assert_eq!(ctx.count(), start);
}

#[test]
fn assert_equal_records_a_constraint_that_the_witness_decides() {
    let mut ctx = Context::new();
    let a = Boolean::new(&mut ctx, Mode::Private, true);
    Boolean::assert_equal(&a, &Boolean::constant(true), &mut ctx);
    assert_eq!(ctx.count().constraints, 1);
    assert!(ctx.is_satisfied());
    Boolean::assert_equal(&Boolean::constant(false), &Boolean::constant(false), &mut ctx);
    assert_eq!(ctx.count().constraints, 1);
    Boolean::assert_equal(&a, &Boolean::constant(false), &mut ctx);
    assert_eq!(ctx.count().constraints, 2);
    assert!(!ctx.is_satisfied());
    ctx.reset();
    assert!(ctx.is_satisfied());
    assert_eq!(ctx.count(), Count::zero());
}

#[test]
fn scopes_nest_and_report_their_own_counts() {
    let mut ctx = Context::new();
    assert!(ctx.exit_scope().is_none());
    ctx.enter_scope("outer".to_string());
    Boolean::new(&mut ctx, Mode::Public, true);
    ctx.enter_scope("inner".to_string());
    Boolean::new(&mut ctx, Mode::Private, true);
    let (name, inner) = ctx.exit_scope().unwrap();
    assert_eq!(name, "inner");
    assert_eq!(inner, Count::is(0, 0, 1, 0));
    let (name, outer) = ctx.exit_scope().unwrap();
    assert_eq!(name, "outer");
    assert_eq!(outer, Count::is(0, 1, 1, 0));
    assert!(ctx.exit_scope().is_none());
}

#[test]
fn scope_closed_after_a_halt_reports_what_came_before() {
    let mut ctx = Context::new();
    ctx.enter_scope("shift".to_string());
    let a = Integer::new(&mut ctx, Mode::Constant, Native::U8(1));
    let b = Integer::new(&mut ctx, Mode::Constant, Native::U8(8));
    assert!(a.shr_checked(&b, &mut ctx).is_err());
    let (_, count) = ctx.exit_scope().unwrap();
    assert_eq!(count, Count::is(16, 0, 0, 0));
}

#[test]
fn counts_add_component_wise() {
    let a = Count::is(1, 2, 3, 4);
    let b = Count::is(10, 20, 30, 40);
    assert_eq!(a.plus(&b), Count::is(11, 22, 33, 44));
}

#[test]
fn mode_combination() {
    assert_eq!(Mode::Constant.combine(Mode::Public), Mode::Public);
    assert_eq!(Mode::Public.combine(Mode::Constant), Mode::Public);
    assert_eq!(Mode::Public.combine(Mode::Private), Mode::Private);
    assert_eq!(Mode::Constant.combine(Mode::Constant), Mode::Constant);
    assert!(Mode::Constant.is_constant());
    assert!(!Mode::Private.is_constant());
}

#[test]
fn width_index_by_position() {
    assert_eq!(width_index(8), Ok(0));
    assert_eq!(width_index(16), Ok(1));
    assert_eq!(width_index(32), Ok(2));
    assert_eq!(width_index(64), Ok(3));
    assert_eq!(width_index(128), Ok(4));
    assert_eq!(width_index(24), Err(Halt::UnsupportedWidth { bits: 24 }));
    assert_eq!(width_index(0), Err(Halt::UnsupportedWidth { bits: 0 }));
}

#[test]
fn sizes_in_fields() {
    let mut ctx = Context::new();
    let b = Boolean::new(&mut ctx, Mode::Private, true);
    let i = Integer::new(&mut ctx, Mode::Public, Native::I128(-3));
    let s = Scalar::new(&mut ctx, Mode::Constant, [1, 2, 3, 4]);
    assert_eq!(b.size_in_fields(), Ok(1));
    assert_eq!(i.size_in_fields(), Ok(1));
    assert_eq!(s.size_in_fields(), Ok(2));
    assert_eq!(size_in_fields_of(0), Ok(0));
    assert_eq!(size_in_fields_of(252), Ok(1));
    assert_eq!(size_in_fields_of(253), Ok(2));
    assert_eq!(size_in_fields_of(252 * 65535), Ok(65535));
    assert_eq!(size_in_fields_of(252 * 65535 + 1), Err(EncodingError::TooManyFields));
}
