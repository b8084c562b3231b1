//! Integer arithmetic of the pool: the floor square root.
use vstd::prelude::*;

verus! {

/// `r` is the integer square root of `v`, rounded down.
pub open spec fn is_floor_sqrt(v: int, r: int) -> bool {
    r >= 0 && r * r <= v && v < (r + 1) * (r + 1)
}

/// For any positive guess `x`, one Newton step `x + v / x` is never below
/// twice a number whose square fits under `v`.
proof fn lemma_newton_step_bound(v: int, x: int, t: int)
    requires
        v >= 0,
        x > 0,
        t >= 0,
        t * t <= v,
    ensures
        x + v / x >= 2 * t,
{
    let q = v / x;
    let r = v % x;
    assert(v == x * q + r && 0 <= r < x) by {
        vstd::arithmetic::div_mod::lemma_fundamental_div_mod(v, x);
    }
    assert((x - t) * (x - t) >= 0) by (nonlinear_arith);
    assert(x + q >= 2 * t) by (nonlinear_arith)
        requires
            v == x * q + r,
            0 <= r < x,
            (x - t) * (x - t) >= 0,
            t * t <= v,
            x > 0,
    {
        if x + q < 2 * t {
            assert(x * (x + q) <= x * (2 * t - 1));
        }
    }
}

/// A Newton step from `x` lands on a number whose successor squares above `v`.
proof fn lemma_newton_step_above(v: int, x: int, y: int)
    requires
        v >= 0,
        x > 0,
        y == (x + v / x) / 2,
    ensures
        v < (y + 1) * (y + 1),
{
    if (y + 1) * (y + 1) <= v {
        lemma_newton_step_bound(v, x, y + 1);
    }
}

/// Floor square root by Newton's method: start at `value`, step to
/// `(x + value / x) / 2`, stop as soon as the step no longer decreases.
pub fn sqrt(value: u128) -> (r: u128)
    ensures
        is_floor_sqrt(value as int, r as int),
{
    if value == 0 {
        assert(is_floor_sqrt(0, 0)) by (nonlinear_arith);
        return 0;
    }
    let mut x: u128 = value;
    let mut y: u128 = value / 2 + value % 2;
    proof {
        assert(value as int / value as int == 1) by {
            vstd::arithmetic::div_mod::lemma_div_by_self(value as int);
        }
        assert((value as int + 1) * (value as int + 1) > value as int) by (nonlinear_arith)
            requires value as int >= 1;
    }
    while y < x
        invariant
            value > 0,
            1 <= x <= value,
            y as int == (x as int + value as int / x as int) / 2,
            value < (x as int + 1) * (x as int + 1),
        decreases x,
    {
        proof {
            lemma_newton_step_above(value as int, x as int, y as int);
            lemma_newton_step_bound(value as int, x as int, 1);
        }
        x = y;
        let q: u128 = value / x;
        y = x / 2 + q / 2 + (x % 2 + q % 2) / 2;
    }
    proof {
        let v = value as int;
        let xi = x as int;
        assert(v / xi >= xi);
        assert(xi * xi <= v) by {
            vstd::arithmetic::div_mod::lemma_fundamental_div_mod(v, xi);
            vstd::arithmetic::mul::lemma_mul_inequality(xi, v / xi, xi);
            vstd::arithmetic::mul::lemma_mul_is_commutative(xi, v / xi);
        }
    }
    x
}

} // verus!
