use vstd::prelude::*;
use vstd::arithmetic::power2::{pow2, lemma2_to64, lemma_pow2_pos, lemma_pow2_unfold, lemma_pow2_adds};
use vstd::arithmetic::div_mod::lemma_fundamental_div_mod_converse;

verus! {

/// The unsigned value of little-endian bits.
pub open spec fn bits_to_nat(bits: Seq<bool>) -> nat
    decreases bits.len(),
{
    if bits.len() == 0 {
        0
    } else {
        bits_to_nat(bits.drop_last()) + pow2((bits.len() - 1) as nat) * (if bits.last() {
            1nat
        } else {
            0nat
        })
    }
}

/// The two's-complement value of little-endian bits, where `signed`; their
/// unsigned value otherwise.
pub open spec fn bits_to_int(bits: Seq<bool>, signed: bool) -> int {
    if signed && bits.len() > 0 && bits.last() {
        bits_to_nat(bits) - pow2(bits.len())
    } else {
        bits_to_nat(bits) as int
    }
}

/// The bits of a right shift by `n` within `bits.len()` bits: the bits from
/// index `n` up, then copies of the sign bit where `signed`, of `false`
/// otherwise.
pub open spec fn shr_bits(bits: Seq<bool>, n: nat, signed: bool) -> Seq<bool> {
    Seq::new(
        bits.len(),
        |i: int|
            if i + n < bits.len() {
                bits[i + n]
            } else {
                signed && bits.last()
            },
    )
}

/// Appending a bit adds its weight.
pub proof fn lemma_bits_push(s: Seq<bool>, b: bool)
    ensures
        bits_to_nat(s.push(b)) == bits_to_nat(s) + pow2(s.len()) * (if b {
            1nat
        } else {
            0nat
        }),
{
    assert(s.push(b).drop_last() =~= s);
}

/// `n` bits hold less than `2^n`.
pub proof fn lemma_bits_bound(s: Seq<bool>)
    ensures
        bits_to_nat(s) < pow2(s.len()),
    decreases s.len(),
{
    if s.len() > 0 {
        lemma_bits_bound(s.drop_last());
        lemma_pow2_unfold(s.len());
    } else {
        lemma_pow2_pos(0);
    }
}

/// The value of a concatenation: the low part plus the high part scaled.
pub proof fn lemma_bits_concat(a: Seq<bool>, b: Seq<bool>)
    ensures
        bits_to_nat(a + b) == bits_to_nat(a) + pow2(a.len()) * bits_to_nat(b),
    decreases b.len(),
{
    if b.len() == 0 {
        assert(a + b =~= a);
        assert(bits_to_nat(b) == 0);
        assert(pow2(a.len()) * 0 == 0);
    } else {
        let c = b.drop_last();
        lemma_bits_concat(a, c);
        assert(a + b =~= (a + c).push(b.last()));
        lemma_bits_push(a + c, b.last());
        assert(b =~= c.push(b.last()));
        lemma_bits_push(c, b.last());
        lemma_pow2_adds(a.len(), c.len());
        let d: int = if b.last() { 1 } else { 0 };
        let pa = pow2(a.len()) as int;
        let pc = pow2(c.len()) as int;
        assert((a + c).len() == a.len() + c.len());
        assert(bits_to_nat(a + b) == bits_to_nat(a) + pa * bits_to_nat(c) + pow2(a.len() + c.len()) * d);
        assert(bits_to_nat(b) == bits_to_nat(c) + pc * d);
        assert(pa * (bits_to_nat(c) + pc * d) == pa * bits_to_nat(c) + pow2(a.len() + c.len()) * d) by (nonlinear_arith)
            requires
                pow2(a.len() + c.len()) == pa * pc,
        ;
        assert(bits_to_nat(a + b) == bits_to_nat(a) + pa * bits_to_nat(b));
    }
}

/// Copies of one bit: all ones, or zero.
pub proof fn lemma_bits_repeat(s: Seq<bool>, b: bool)
    requires
        forall|i: int| 0 <= i < s.len() ==> s[i] == b,
    ensures
        bits_to_nat(s) == (if b {
            pow2(s.len()) - 1
        } else {
            0
        }),
    decreases s.len(),
{
    if s.len() == 0 {
        lemma2_to64();
    } else {
        let t = s.drop_last();
        lemma_bits_repeat(t, b);
        assert(s =~= t.push(b));
        lemma_bits_push(t, b);
        lemma_pow2_unfold(s.len());
        assert(t.len() == s.len() - 1);
        assert(bits_to_nat(s) == bits_to_nat(t) + pow2(t.len()) * (if b { 1nat } else { 0nat }));
    }
}

/// Bits are zero exactly when none of them is set.
pub proof fn lemma_bits_zero(s: Seq<bool>)
    ensures
        bits_to_nat(s) == 0 <==> (forall|i: int| 0 <= i < s.len() ==> !s[i]),
    decreases s.len(),
{
    if s.len() > 0 {
        let t = s.drop_last();
        lemma_bits_zero(t);
        lemma_pow2_pos((s.len() - 1) as nat);
        if bits_to_nat(s) == 0 {
            assert forall|i: int| 0 <= i < s.len() implies !s[i] by {
                if i < s.len() - 1 {
                    assert(s[i] == t[i]);
                }
            }
        }
        if forall|i: int| 0 <= i < s.len() ==> !s[i] {
            assert forall|i: int| 0 <= i < t.len() implies !t[i] by {
                assert(t[i] == s[i]);
            }
        }
    }
}

/// Splitting bits at `k`: the value is the low `k` bits plus `2^k` times the rest.
pub proof fn lemma_bits_split(s: Seq<bool>, k: nat)
    requires
        k <= s.len(),
    ensures
        bits_to_nat(s) == bits_to_nat(s.subrange(0, k as int)) + pow2(k) * bits_to_nat(s.subrange(k as int, s.len() as int)),
        bits_to_nat(s.subrange(0, k as int)) < pow2(k),
{
    assert(s =~= s.subrange(0, k as int) + s.subrange(k as int, s.len() as int));
    lemma_bits_concat(s.subrange(0, k as int), s.subrange(k as int, s.len() as int));
    lemma_bits_bound(s.subrange(0, k as int));
}

/// The low `k + 1` bits are the low `k` bits and bit `k` at weight `2^k`.
pub proof fn lemma_bits_prefix_step(s: Seq<bool>, k: nat)
    requires
        k < s.len(),
    ensures
        bits_to_nat(s.subrange(0, (k + 1) as int)) == bits_to_nat(s.subrange(0, k as int)) + pow2(k) * (if s[k as int] {
            1nat
        } else {
            0nat
        }),
{
    assert(s.subrange(0, (k + 1) as int) =~= s.subrange(0, k as int).push(s[k as int]));
    lemma_bits_push(s.subrange(0, k as int), s[k as int]);
}

/// A value that the low `k` bits do not reach: its quotient and remainder by `2^k`.
pub proof fn lemma_bits_div_mod(s: Seq<bool>, k: nat)
    requires
        k <= s.len(),
    ensures
        (bits_to_nat(s) as int) / (pow2(k) as int) == bits_to_nat(s.subrange(k as int, s.len() as int)),
        (bits_to_nat(s) as int) % (pow2(k) as int) == bits_to_nat(s.subrange(0, k as int)),
{
    lemma_bits_split(s, k);
    lemma_pow2_pos(k);
    let h = bits_to_nat(s.subrange(k as int, s.len() as int)) as int;
    let p = pow2(k) as int;
    assert(p * h == h * p) by (nonlinear_arith);
    lemma_fundamental_div_mod_converse(
        bits_to_nat(s) as int,
        pow2(k) as int,
        bits_to_nat(s.subrange(k as int, s.len() as int)) as int,
        bits_to_nat(s.subrange(0, k as int)) as int,
    );
}

/// Shifting by `a` and then by `b` is shifting by `a + b`.
pub proof fn lemma_shr_bits_compose(s: Seq<bool>, a: nat, b: nat, signed: bool)
    requires
        s.len() > 0,
    ensures
        shr_bits(shr_bits(s, a, signed), b, signed) == shr_bits(s, a + b, signed),
{
    let m = shr_bits(s, a, signed);
    assert(m.last() == (signed && s.last()) || (a == 0 && m.last() == s.last()));
    assert(shr_bits(m, b, signed) =~= shr_bits(s, a + b, signed));
}

/// Shifting by zero keeps the bits.
pub proof fn lemma_shr_bits_zero(s: Seq<bool>, signed: bool)
    ensures
        shr_bits(s, 0, signed) == s,
{
    assert(shr_bits(s, 0, signed) =~= s);
}

/// A right shift by `n` below the width divides the value by `2^n`, rounding
/// towards negative infinity.
pub proof fn lemma_shr_bits_value(s: Seq<bool>, n: nat, signed: bool)
    requires
        n < s.len(),
    ensures
        bits_to_int(shr_bits(s, n, signed), signed) == bits_to_int(s, signed) / (pow2(n) as int),
{
    let w = s.len();
    let hi = s.subrange(n as int, w as int);
    let fill = signed && s.last();
    let r = shr_bits(s, n, signed);
    let f = Seq::new(n, |i: int| fill);
    assert(r =~= hi + f);
    lemma_bits_concat(hi, f);
    lemma_bits_repeat(f, fill);
    lemma_bits_split(s, n);
    lemma_pow2_pos(n);
    lemma_pow2_adds((w - n) as nat, n);
    let lo = bits_to_nat(s.subrange(0, n as int));
    let h = bits_to_nat(hi);
    let p = pow2(n) as int;
    let q = pow2((w - n) as nat) as int;
    if signed {
        assert(r.last() == fill);
    }
    assert(hi.len() == w - n);
    if fill {
        // r = h + q * (p - 1), and s = lo + p * h - q * p.
        assert(bits_to_nat(r) == h + q * (p - 1));
        assert(bits_to_int(r, signed) == h + q * (p - 1) - q * p) by (nonlinear_arith)
            requires
                bits_to_int(r, signed) == bits_to_nat(r) - pow2(w),
                bits_to_nat(r) == h + q * (p - 1),
                pow2(w) == q * p,
        ;
        assert(bits_to_int(s, signed) == (h - q) * p + lo) by (nonlinear_arith)
            requires
                bits_to_int(s, signed) == bits_to_nat(s) - pow2(w),
                bits_to_nat(s) == lo + p * h,
                pow2(w) == q * p,
        ;
        lemma_fundamental_div_mod_converse(bits_to_int(s, signed), p, h - q, lo as int);
        assert(h + q * (p - 1) - q * p == h - q) by (nonlinear_arith);
    } else {
        assert(q * bits_to_nat(f) == 0);
        assert(bits_to_nat(r) == h);
        if signed {
            assert(s.last() == false);
        }
        assert(bits_to_int(s, signed) == h * p + lo) by (nonlinear_arith)
            requires
                bits_to_int(s, signed) == bits_to_nat(s),
                bits_to_nat(s) == lo + p * h,
        ;
        lemma_fundamental_div_mod_converse(bits_to_int(s, signed), p, h as int, lo as int);
    }
}

/// The value read from the least significant bit up.
pub proof fn lemma_bits_first(s: Seq<bool>)
    requires
        s.len() > 0,
    ensures
        bits_to_nat(s) == (if s[0] {
            1nat
        } else {
            0nat
        }) + 2 * bits_to_nat(s.drop_first()),
{
    let head = s.subrange(0, 1);
    assert(s =~= head + s.drop_first());
    lemma_bits_concat(head, s.drop_first());
    assert(head =~= Seq::<bool>::empty().push(s[0]));
    lemma_bits_push(Seq::<bool>::empty(), s[0]);
    lemma2_to64();
}

/// The top bit is set exactly when the value reaches half the range.
pub proof fn lemma_bits_top(s: Seq<bool>)
    requires
        s.len() > 0,
    ensures
        s.last() <==> bits_to_nat(s) >= pow2((s.len() - 1) as nat),
{
    let t = s.drop_last();
    lemma_bits_bound(t);
    assert(s =~= t.push(s.last()));
    lemma_bits_push(t, s.last());
}

} // verus!
