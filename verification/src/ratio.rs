use vstd::prelude::*;

verus! {

/// The number fits in a signed integer of 128 bits, in which the exact
/// arithmetic of this crate is done.
pub open spec fn fits(x: int) -> bool {
    i128::MIN <= x <= i128::MAX
}

/// An exact fraction `num / den`.
#[derive(Clone, Copy, Debug)]
pub struct Ratio {
    pub num: i128,
    pub den: i128,
}

impl Ratio {
    /// A fraction has a positive denominator.
    pub open spec fn wf(self) -> bool {
        self.den > 0
    }

    /// The numerator and the denominator.
    pub open spec fn pair(self) -> (int, int) {
        (self.num as int, self.den as int)
    }

    /// `self < other`, as numbers.
    pub open spec fn less(self, other: Ratio) -> bool {
        self.num * other.den < other.num * self.den
    }

    /// Decides `self < other` without forming the cross products, which
    /// need not fit in 128 bits.
    pub fn is_less(&self, other: &Ratio) -> (r: bool)
        requires
            self.wf(),
            other.wf(),
        ensures
            r == self.less(*other),
    {
        if self.num < 0 {
            if other.num >= 0 {
                proof {
                    lemma_sign_of_product(self.num as int, other.den as int);
                    lemma_sign_of_product(other.num as int, self.den as int);
                }
                true
            } else {
                let a: u128 = magnitude(other.num);
                let c: u128 = magnitude(self.num);
                proof {
                    lemma_negated_products(self.num as int, other.den as int, other.num as int, self.den as int);
                }
                less_unsigned(a, other.den as u128, c, self.den as u128)
            }
        } else if other.num < 0 {
            proof {
                lemma_sign_of_product(self.num as int, other.den as int);
                lemma_sign_of_product(other.num as int, self.den as int);
            }
            false
        } else {
            less_unsigned(self.num as u128, self.den as u128, other.num as u128, other.den as u128)
        }
    }
}

proof fn lemma_sign_of_product(a: int, d: int)
    requires
        d > 0,
    ensures
        a < 0 ==> a * d < 0,
        a >= 0 ==> a * d >= 0,
{
    assert(a < 0 ==> a * d < 0) by (nonlinear_arith)
        requires
            d > 0,
    ;
    assert(a >= 0 ==> a * d >= 0) by (nonlinear_arith)
        requires
            d > 0,
    ;
}

proof fn lemma_negated_products(a: int, d: int, c: int, b: int)
    ensures
        ((-c) * b < (-a) * d) == (a * d < c * b),
{
    assert((-c) * b == -(c * b)) by (nonlinear_arith);
    assert((-a) * d == -(a * d)) by (nonlinear_arith);
}

/// The absolute value of a negative number.
fn magnitude(x: i128) -> (m: u128)
    requires
        x < 0,
    ensures
        m == -x,
{
    let y: i128 = -(x + 1);
    (y as u128) + 1
}

/// One step of the comparison by continued fractions: with whole parts
/// `qa` and `qc` and remainders `ra` and `rc`, either the whole parts decide
/// or the remainders' fractions do.
proof fn lemma_whole_parts(a: int, b: int, c: int, d: int)
    requires
        a >= 0,
        c >= 0,
        b > 0,
        d > 0,
    ensures
        a / b < c / d ==> a * d < c * b,
        a / b > c / d ==> !(a * d < c * b),
        a / b == c / d ==> ((a * d < c * b) == ((a % b) * d < (c % d) * b)),
{
    let qa = a / b;
    let ra = a % b;
    let qc = c / d;
    let rc = c % d;
    assert(a == qa * b + ra && 0 <= ra < b) by {
        vstd::arithmetic::div_mod::lemma_fundamental_div_mod(a, b);
        vstd::arithmetic::div_mod::lemma_mod_bound(a, b);
        assert(b * qa == qa * b) by (nonlinear_arith);
    }
    assert(c == qc * d + rc && 0 <= rc < d) by {
        vstd::arithmetic::div_mod::lemma_fundamental_div_mod(c, d);
        vstd::arithmetic::div_mod::lemma_mod_bound(c, d);
        assert(d * qc == qc * d) by (nonlinear_arith);
    }
    assert(a * d == qa * (b * d) + ra * d) by (nonlinear_arith)
        requires
            a == qa * b + ra,
    ;
    assert(c * b == qc * (b * d) + rc * b) by (nonlinear_arith)
        requires
            c == qc * d + rc,
    ;
    assert(0 <= ra * d < b * d) by (nonlinear_arith)
        requires
            0 <= ra < b,
            d > 0,
    ;
    assert(0 <= rc * b < b * d) by (nonlinear_arith)
        requires
            0 <= rc < d,
            b > 0,
    ;
    if qa < qc {
        assert((qa + 1) * (b * d) <= qc * (b * d)) by (nonlinear_arith)
            requires
                qa + 1 <= qc,
                b * d > 0,
        ;
        assert((qa + 1) * (b * d) == qa * (b * d) + b * d) by (nonlinear_arith);
    }
    if qa > qc {
        assert((qc + 1) * (b * d) <= qa * (b * d)) by (nonlinear_arith)
            requires
                qc + 1 <= qa,
                b * d > 0,
        ;
        assert((qc + 1) * (b * d) == qc * (b * d) + b * d) by (nonlinear_arith);
    }
}

fn less_unsigned(a: u128, b: u128, c: u128, d: u128) -> (r: bool)
    requires
        b > 0,
        d > 0,
    ensures
        r == (a * d < c * b),
    decreases b + d,
{
    let qa: u128 = a / b;
    let ra: u128 = a % b;
    let qc: u128 = c / d;
    let rc: u128 = c % d;
    proof {
        lemma_whole_parts(a as int, b as int, c as int, d as int);
        assert(b * d > 0) by (nonlinear_arith)
            requires
                b > 0,
                d > 0,
        ;
    }
    if qa < qc {
        true
    } else if qa > qc {
        false
    } else if rc == 0 {
        proof {
            lemma_sign_of_product(ra as int, d as int);
            assert(rc * b == 0) by (nonlinear_arith)
                requires
                    rc == 0,
            ;
        }
        false
    } else if ra == 0 {
        proof {
            assert(ra * d == 0) by (nonlinear_arith)
                requires
                    ra == 0,
            ;
            assert(rc * b > 0) by (nonlinear_arith)
                requires
                    rc > 0,
                    b > 0,
            ;
        }
        true
    } else {
        proof {
            assert(d * ra == ra * d) by (nonlinear_arith);
            assert(b * rc == rc * b) by (nonlinear_arith);
        }
        less_unsigned(d, rc, b, ra)
    }
}

} // verus!
