//! p-adic valuations and base-p digit expansions of unsigned integers.
use vstd::prelude::*;
use vstd::arithmetic::power::pow;
use vstd::arithmetic::power2::{pow2, lemma2_to64, lemma_pow2_strictly_increases};

verus! {

/// The p-adic valuation of a positive integer `d`: the exponent of the
/// largest power of `p` that divides `d`.
pub open spec fn padic_val(d: nat, p: nat) -> nat
    decreases d,
{
    if d == 0 || p < 2 {
        0
    } else if d % p == 0 {
        proof {
            vstd::arithmetic::div_mod::lemma_div_decreases(d as int, p as int);
        }
        1 + padic_val(d / p, p)
    } else {
        0
    }
}

/// Distance between two integers on the number line.
pub open spec fn abs_diff(a: u64, b: u64) -> nat {
    if a >= b { (a - b) as nat } else { (b - a) as nat }
}

/// Exponent `v` of the p-adic distance `p^(-v)` between two distinct p-adic
/// integers `a` and `b`, i.e. the p-adic valuation of `|a - b|`.
pub fn p_adic_valuation(a: u64, b: u64, p: u64) -> (vp: u32)
    requires
        p >= 2,
        a != b,
    ensures
        vp == padic_val(abs_diff(a, b), p as nat),
{
    let diff = if a > b { a - b } else { b - a };
    let mut temp = diff;
    let mut vp: u32 = 0;
    proof {
        lemma2_to64();
    }
    while temp % p == 0
        invariant
            p >= 2,
            temp >= 1,
            vp + padic_val(temp as nat, p as nat) == padic_val(diff as nat, p as nat),
            pow2(vp as nat) * temp <= diff,
            diff <= u64::MAX,
        decreases temp,
    {
        proof {
            lemma2_to64();
            if vp >= 64 {
                if vp > 64 {
                    lemma_pow2_strictly_increases(64, vp as nat);
                }
                assert(pow2(vp as nat) * temp >= pow2(vp as nat)) by (nonlinear_arith)
                    requires temp >= 1;
            }
        }
        assert(temp / p < temp) by {
            vstd::arithmetic::div_mod::lemma_div_decreases(temp as int, p as int);
        }
        assert(temp / p >= 1) by {
            vstd::arithmetic::div_mod::lemma_fundamental_div_mod(temp as int, p as int);
        }
        proof {
            let q = temp / p;
            vstd::arithmetic::div_mod::lemma_fundamental_div_mod(temp as int, p as int);
            assert(temp == p * q);
            assert(pow2((vp + 1) as nat) == 2 * pow2(vp as nat)) by {
                vstd::arithmetic::power2::lemma_pow2_unfold((vp + 1) as nat);
            }
            assert(2 * pow2(vp as nat) * q <= pow2(vp as nat) * temp) by (nonlinear_arith)
                requires temp == p * q, p >= 2, q >= 1;
        }
        vp = vp + 1;
        temp = temp / p;
    }
    vp
}


/// Base-`p` digits of `v`, least significant first (none for zero).
pub open spec fn digits(v: nat, p: nat) -> Seq<u64>
    decreases v,
{
    if v == 0 || p < 2 {
        Seq::empty()
    } else {
        proof {
            vstd::arithmetic::div_mod::lemma_div_decreases(v as int, p as int);
        }
        seq![(v % p) as u64] + digits(v / p, p)
    }
}

/// Value of little-endian base-`p` digits.
pub open spec fn digits_value(d: Seq<u64>, p: nat) -> nat
    decreases d.len(),
{
    if d.len() == 0 {
        0
    } else {
        (d[0] as nat + p * digits_value(d.drop_first(), p)) as nat
    }
}

/// Base-`p` digits of the p-adic integer `val`, least significant first:
/// the coefficients of the Monna map `sum d_i p^(-i-1)`. Bases below two
/// have no digits.
pub fn padic_digits(val: u64, p: u64) -> (ds: Vec<u64>)
    ensures
        ds@ == digits(val as nat, p as nat),
{
    let mut ds: Vec<u64> = Vec::new();
    if p < 2 {
        return ds;
    }
    let mut v = val;
    while v > 0
        invariant
            p >= 2,
            ds@ + digits(v as nat, p as nat) == digits(val as nat, p as nat),
        decreases v,
    {
        let ghost before = ds@;
        proof {
            vstd::arithmetic::div_mod::lemma_div_decreases(v as int, p as int);
            assert(digits(v as nat, p as nat) == seq![(v % p) as u64] + digits((v / p) as nat, p as nat));
        }
        ds.push(v % p);
        proof {
            assert(before + (seq![(v % p) as u64] + digits((v / p) as nat, p as nat)) =~= ds@ + digits((v / p) as nat, p as nat));
        }
        v = v / p;
    }
    proof {
        assert(digits(0, p as nat) == Seq::<u64>::empty());
        assert(ds@ + Seq::<u64>::empty() =~= ds@);
    }
    ds
}

/// Digit law: the digits are below `p` and spell out the value.
pub proof fn lemma_digits_spell_value(v: nat, p: nat)
    requires
        p >= 2,
        p <= u64::MAX,
    ensures
        digits_value(digits(v, p), p) == v,
        forall|i: int| 0 <= i < digits(v, p).len() ==> (#[trigger] digits(v, p)[i]) < p,
    decreases v,
{
    if v > 0 {
        vstd::arithmetic::div_mod::lemma_div_decreases(v as int, p as int);
        lemma_digits_spell_value(v / p, p);
        vstd::arithmetic::div_mod::lemma_fundamental_div_mod(v as int, p as int);
        let d = digits(v, p);
        assert(d.drop_first() =~= digits(v / p, p));
        assert(d[0] == v % p);
        assert(digits_value(d, p) == d[0] as nat + p * digits_value(d.drop_first(), p));
        assert forall|i: int| 0 <= i < d.len() implies (#[trigger] d[i]) < p by {
            if i > 0 {
                assert(d[i] == digits(v / p, p)[i - 1]);
            }
        }
    }
}

/// Valuation law: `p^v` divides `d` and `p^(v+1)` does not, for `d > 0`.
pub proof fn lemma_padic_val_divides(d: nat, p: nat)
    requires
        d > 0,
        p >= 2,
    ensures
        (d as int) % pow(p as int, padic_val(d, p)) == 0,
        (d as int) % pow(p as int, padic_val(d, p) + 1) != 0,
    decreases d,
{
    let v = padic_val(d, p);
    vstd::arithmetic::div_mod::lemma_fundamental_div_mod(d as int, p as int);
    if d % p == 0 {
        vstd::arithmetic::div_mod::lemma_div_decreases(d as int, p as int);
        let q = d / p;
        assert(q > 0) by (nonlinear_arith)
            requires d == p * q, d > 0;
        lemma_padic_val_divides(q, p);
        let w = padic_val(q, p);
        assert(v == w + 1);
        let pw = pow(p as int, w);
        let pw1 = pow(p as int, w + 1);
        vstd::arithmetic::power::lemma_pow_positive(p as int, w);
        vstd::arithmetic::power::lemma_pow_positive(p as int, w + 1);
        assert(pow(p as int, v) == p * pw) by {
            vstd::arithmetic::power::lemma_pow_adds(p as int, 1, w);
            vstd::arithmetic::power::lemma_pow1(p as int);
        }
        assert(pow(p as int, v + 1) == p * pw1) by {
            vstd::arithmetic::power::lemma_pow_adds(p as int, 1, w + 1);
            vstd::arithmetic::power::lemma_pow1(p as int);
        }
        // q = pw * a, so d = (p * pw) * a.
        vstd::arithmetic::div_mod::lemma_fundamental_div_mod(q as int, pw);
        let a = q as int / pw;
        assert(d == (p * pw) * a) by (nonlinear_arith)
            requires d == p * q, q == pw * a + 0;
        vstd::arithmetic::div_mod::lemma_mod_multiples_basic(a, p * pw);
        assert((p * pw) * a == a * (p * pw)) by (nonlinear_arith);
        // If p^(v+1) divided d, then p^(w+1) would divide q.
        assert(p * pw1 > 0) by (nonlinear_arith)
            requires p >= 2, pw1 > 0;
        if d as int % (p * pw1) == 0 {
            vstd::arithmetic::div_mod::lemma_fundamental_div_mod(d as int, p * pw1);
            let b = d as int / (p * pw1);
            assert(q == pw1 * b) by (nonlinear_arith)
                requires d == p * q, d == (p * pw1) * b + 0, p >= 2;
            vstd::arithmetic::div_mod::lemma_mod_multiples_basic(b, pw1);
            assert(pw1 * b == b * pw1) by (nonlinear_arith);
        }
    } else {
        assert(v == 0);
        vstd::arithmetic::power::lemma_pow0(p as int);
        vstd::arithmetic::power::lemma_pow1(p as int);
    }
}

} // verus!
