use vstd::prelude::*;
use vstd::arithmetic::div_mod::{
    lemma_fundamental_div_mod,
    lemma_fundamental_div_mod_converse_div,
    lemma_mod_pos_bound,
};

verus! {

/// Floor division on mathematical integers, for a divisor of either sign.
pub open spec fn floor_div(a: int, b: int) -> int
    recommends
        b != 0,
{
    if b > 0 {
        a / b
    } else {
        (-a) / (-b)
    }
}

/// Floor division of `a` by a positive `b`.
pub fn floor_div_i128(a: i128, b: i128) -> (r: i128)
    requires
        b > 0,
        a > i128::MIN,
    ensures
        r == floor_div(a as int, b as int),
{
    if a >= 0 {
        a / b
    } else {
        let na: i128 = -a;
        let q: i128 = na / b;
        proof {
            lemma_fundamental_div_mod(na as int, b as int);
            lemma_mod_pos_bound(na as int, b as int);
            assert(q * b <= na) by (nonlinear_arith)
                requires
                    na == b * q + na % b,
                    na % b >= 0,
                    q == na / b;
        }
        if q * b == na {
            proof {
                assert(a == (-q) * b + 0) by (nonlinear_arith)
                    requires
                        q * b == na,
                        a == -na;
                lemma_fundamental_div_mod_converse_div(a as int, b as int, -q, 0);
            }
            -q
        } else {
            proof {
                let rem = b - na % b;
                assert(na % b != 0) by (nonlinear_arith)
                    requires
                        na == b * q + na % b,
                        q * b != na;
                assert(a == (-q - 1) * b + rem) by (nonlinear_arith)
                    requires
                        na == b * q + na % b,
                        a == -na,
                        rem == b - na % b;
                lemma_fundamental_div_mod_converse_div(a as int, b as int, -q - 1, rem);
            }
            -q - 1
        }
    }
}

} // verus!
