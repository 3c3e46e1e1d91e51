// Exact rational values for ranking lists, compared without rounding.
use vstd::prelude::*;

verus! {

/// The outcome of a three-way comparison.
#[derive(Clone, Copy, Debug, PartialEq, Eq, Structural)]
pub enum Comparison {
    Less,
    Equal,
    Greater,
}

/// A non-negative rational number `num / den`, with `den > 0`.
#[derive(Clone, Copy, Debug)]
pub struct Fraction {
    pub num: u64,
    pub den: u64,
}

impl Fraction {
    pub open spec fn wf(self) -> bool {
        self.den > 0
    }

    /// Exact three-way comparison of `a / b` with `c / d` (b, d > 0).
    pub open spec fn cmp_spec(self, other: Fraction) -> Comparison {
        let l = self.num as int * other.den as int;
        let r = other.num as int * self.den as int;
        if l < r {
            Comparison::Less
        } else if l == r {
            Comparison::Equal
        } else {
            Comparison::Greater
        }
    }

    pub fn new(num: u64, den: u64) -> (r: Fraction)
        requires
            den > 0,
        ensures
            r.num == num,
            r.den == den,
            r.wf(),
    {
        Fraction { num, den }
    }

    /// Compares two fractions by cross-multiplication, with no rounding.
    pub fn compare(&self, other: &Fraction) -> (r: Comparison)
        ensures
            r == self.cmp_spec(*other),
    {
        let a = self.num;
        let b = other.den;
        let c = other.num;
        let d = self.den;
        proof {
            lemma_product_fits(a, b);
            lemma_product_fits(c, d);
        }
        let l: u128 = (a as u128) * (b as u128);
        let r: u128 = (c as u128) * (d as u128);
        if l < r {
            Comparison::Less
        } else if l == r {
            Comparison::Equal
        } else {
            Comparison::Greater
        }
    }
}

/// The order of fractions is transitive.
pub proof fn lemma_order_transitive(a: Fraction, b: Fraction, c: Fraction)
    requires
        a.wf(),
        b.wf(),
        c.wf(),
        a.cmp_spec(b) != Comparison::Greater,
        b.cmp_spec(c) != Comparison::Greater,
    ensures
        a.cmp_spec(c) != Comparison::Greater,
{
    let (an, ad, bn, bd, cn, cd) = (a.num as int, a.den as int, b.num as int, b.den as int, c.num as int, c.den as int);
    assert(an * cd <= cn * ad) by (nonlinear_arith)
        requires
            an * bd <= bn * ad,
            bn * cd <= cn * bd,
            ad > 0,
            bd > 0,
            cd > 0,
            an >= 0,
            bn >= 0,
            cn >= 0,
    {
        assert(an * bd * cd <= bn * ad * cd);
        assert(bn * cd * ad <= cn * bd * ad);
    }
}

proof fn lemma_product_fits(x: u64, y: u64)
    ensures
        (x as int) * (y as int) <= u128::MAX,
{
    assert((x as int) * (y as int) <= (u64::MAX as int) * (u64::MAX as int)) by (nonlinear_arith)
        requires
            x <= u64::MAX,
            y <= u64::MAX,
    ;
}

} // verus!
