//! Fixed-point scalars.
//!
//! Every scalar quantity in the engine (positions, velocities, matrix
//! entries, seconds) is an `i64` counting millionths of a unit.  Products
//! are computed exactly on unsigned 64-bit magnitudes and scaled back down,
//! truncating toward zero.

use vstd::prelude::*;

verus! {

/// One unit, in millionths.
pub const FX_ONE: i64 = 1_000_000;

/// Bound on the operands of a fixed-point multiplication; keeps the
/// intermediate product below 2^63.
pub const FX_BOUND: i64 = 3_000_000_000;

/// Bound on the magnitude of a fixed-point product: FX_BOUND^2 / FX_ONE.
pub const FX_PROD_BOUND: i64 = 9_000_000_000_000;

/// Bound on additive quantities (positions, translation entries); leaves
/// headroom so that sums with a few products cannot overflow an `i64`.
pub const POS_LIMIT: i64 = 4_000_000_000_000_000_000;

/// The operand is small enough to take part in a fixed-point product.
pub open spec fn fx_ok(x: i64) -> bool {
    -FX_BOUND <= x <= FX_BOUND
}

/// The value is small enough to take part in sums with products.
pub open spec fn pos_ok(x: i64) -> bool {
    -POS_LIMIT <= x <= POS_LIMIT
}

/// The fixed-point product of `a` and `b`: their integer product scaled
/// down by `FX_ONE`, truncating toward zero.
pub open spec fn fx_mul_spec(a: int, b: int) -> int {
    if a * b >= 0 {
        (a * b) / (FX_ONE as int)
    } else {
        -((-(a * b)) / (FX_ONE as int))
    }
}

/// Fixed-point multiplication, exact per `fx_mul_spec`.
pub fn fx_mul(a: i64, b: i64) -> (r: i64)
    requires
        fx_ok(a),
        fx_ok(b),
    ensures
        r as int == fx_mul_spec(a as int, b as int),
        -FX_PROD_BOUND <= r <= FX_PROD_BOUND,
{
    let negative: bool = (a < 0) != (b < 0);
    let ma: u64 = if a < 0 { (-a) as u64 } else { a as u64 };
    let mb: u64 = if b < 0 { (-b) as u64 } else { b as u64 };
    proof {
        assert(ma as int * mb as int <= 3_000_000_000 * 3_000_000_000) by (nonlinear_arith)
            requires
                0 <= ma as int <= 3_000_000_000,
                0 <= mb as int <= 3_000_000_000,
        ;
    }
    let p: u64 = ma * mb;
    let q: u64 = p / 1_000_000;
    proof {
        assert(q as int * 1_000_000 <= p as int) by (nonlinear_arith)
            requires
                q as int == p as int / 1_000_000,
                p >= 0,
        ;
        assert(q <= 9_000_000_000_000);
        lemma_magnitude_product(a as int, b as int, ma as int, mb as int);
        assert(p as int == if a as int * b as int >= 0 { a as int * b as int } else {
            -(a as int * b as int)
        });
    }
    if negative {
        proof {
            if a as int * b as int >= 0 {
                assert(a as int * b as int == 0) by (nonlinear_arith)
                    requires
                        (a < 0) != (b < 0),
                        a as int * b as int >= 0,
                ;
            }
        }
        -(q as i64)
    } else {
        proof {
            assert(a as int * b as int >= 0) by (nonlinear_arith)
                requires
                    (a < 0) == (b < 0),
            ;
        }
        q as i64
    }
}

/// The product of the magnitudes is the magnitude of the product.
proof fn lemma_magnitude_product(a: int, b: int, ma: int, mb: int)
    requires
        ma == if a < 0 { -a } else { a },
        mb == if b < 0 { -b } else { b },
    ensures
        ma * mb == if a * b >= 0 { a * b } else { -(a * b) },
{
    assert(ma * mb == if a * b >= 0 { a * b } else { -(a * b) }) by (nonlinear_arith)
        requires
            ma == if a < 0 { -a } else { a },
            mb == if b < 0 { -b } else { b },
    ;
}

} // verus!
