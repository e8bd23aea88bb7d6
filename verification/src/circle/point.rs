//! The group of points of the unit circle over `F_p`, of order `2^31`.

use vstd::prelude::*;
use vstd::arithmetic::power2::{lemma2_to64, lemma_pow2_unfold, pow2};
use crate::fields::cm31::CM31;
use crate::fields::gauss::gi_mul;
use crate::fields::m31::{modulus, M31};

verus! {

/// The order of the circle group is `2^31`.
pub const M31_CIRCLE_LOG_ORDER: u32 = 31;

/// A point `(x, y)` of the plane over `F_p`; the group law is that of the
/// complex numbers `x + iy` of norm one.
#[derive(Copy, Clone, Debug, PartialEq, Eq, Structural, Hash)]
pub struct CirclePoint {
    pub x: M31,
    pub y: M31,
}

/// The point `2^j * G`, for `j` up to the order of the group.
pub open spec fn generator_doubling(j: nat) -> (int, int) {
    if j == 0 {
        (2, 1268011823)
    } else if j == 1 {
        (7, 777079998)
    } else if j == 2 {
        (97, 141701737)
    } else if j == 3 {
        (18817, 1720333214)
    } else if j == 4 {
        (708158977, 683185920)
    } else if j == 5 {
        (334835419, 1444967316)
    } else if j == 6 {
        (2042371533, 1362265296)
    } else if j == 7 {
        (212706801, 1223819887)
    } else if j == 8 {
        (421007138, 256177860)
    } else if j == 9 {
        (6346213, 905523693)
    } else if j == 10 {
        (1022251061, 788094511)
    } else if j == 11 {
        (1633461177, 574296567)
    } else if j == 12 {
        (595037635, 2111542451)
    } else if j == 13 {
        (1799120754, 343598868)
    } else if j == 14 {
        (438833264, 1327019128)
    } else if j == 15 {
        (1389168750, 838891026)
    } else if j == 16 {
        (1543902459, 1632329423)
    } else if j == 17 {
        (1330239767, 1446369578)
    } else if j == 18 {
        (1420207432, 2023238517)
    } else if j == 19 {
        (2015554631, 1088093947)
    } else if j == 20 {
        (996212859, 1140996376)
    } else if j == 21 {
        (1434706457, 1835793811)
    } else if j == 22 {
        (13610297, 1064696601)
    } else if j == 23 {
        (785043271, 1260750973)
    } else if j == 24 {
        (838195206, 1774253895)
    } else if j == 25 {
        (579625837, 1690787918)
    } else if j == 26 {
        (1179735656, 1241207368)
    } else if j == 27 {
        (590768354, 978592373)
    } else if j == 28 {
        (32768, 2147450879)
    } else if j == 29 {
        (0, 2147483646)
    } else if j == 30 {
        (2147483646, 0)
    } else {
        (1, 0)
    }
}

/// Whether `u` is the double of `t` on the circle over `F_p`.
#[verifier::opaque]
pub open spec fn is_doubling(t: (int, int), u: (int, int)) -> bool {
    &&& (t.0 * t.0 - t.1 * t.1) % modulus() == u.0 % modulus()
    &&& (t.0 * t.1 + t.1 * t.0) % modulus() == u.1 % modulus()
}

proof fn lemma_is_doubling(a: int, b: int, c: int, d: int)
    requires
        (a * a - b * b) % 2147483647 == c % 2147483647,
        (a * b + b * a) % 2147483647 == d % 2147483647,
    ensures
        is_doubling((a, b), (c, d)),
{
    reveal(is_doubling);
}

/// The double of a point, as classes of integers.
proof fn lemma_doubling_of(t: (int, int), u: (int, int))
    requires
        is_doubling(t, u),
    ensures
        CM31::of(gi_mul(t, t)) == CM31::of(u),
{
    reveal(gi_mul);
    reveal(is_doubling);
    M31::lemma_from_int_congruent(t.0 * t.0 - t.1 * t.1, u.0);
    M31::lemma_from_int_congruent(t.0 * t.1 + t.1 * t.0, u.1);
}

/// Each entry of the table is the double of the entry before it.
proof fn lemma_generator_doubling_arith(j: nat)
    requires
        1 <= j <= 31,
    ensures
        is_doubling(generator_doubling((j - 1) as nat), generator_doubling(j)),
{
    if j == 1 {
        lemma_is_doubling(2, 1268011823, 7, 777079998);
    } else if j == 2 {
        lemma_is_doubling(7, 777079998, 97, 141701737);
    } else if j == 3 {
        lemma_is_doubling(97, 141701737, 18817, 1720333214);
    } else if j == 4 {
        lemma_is_doubling(18817, 1720333214, 708158977, 683185920);
    } else if j == 5 {
        lemma_is_doubling(708158977, 683185920, 334835419, 1444967316);
    } else if j == 6 {
        lemma_is_doubling(334835419, 1444967316, 2042371533, 1362265296);
    } else if j == 7 {
        lemma_is_doubling(2042371533, 1362265296, 212706801, 1223819887);
    } else if j == 8 {
        lemma_is_doubling(212706801, 1223819887, 421007138, 256177860);
    } else if j == 9 {
        lemma_is_doubling(421007138, 256177860, 6346213, 905523693);
    } else if j == 10 {
        lemma_is_doubling(6346213, 905523693, 1022251061, 788094511);
    } else if j == 11 {
        lemma_is_doubling(1022251061, 788094511, 1633461177, 574296567);
    } else if j == 12 {
        lemma_is_doubling(1633461177, 574296567, 595037635, 2111542451);
    } else if j == 13 {
        lemma_is_doubling(595037635, 2111542451, 1799120754, 343598868);
    } else if j == 14 {
        lemma_is_doubling(1799120754, 343598868, 438833264, 1327019128);
    } else if j == 15 {
        lemma_is_doubling(438833264, 1327019128, 1389168750, 838891026);
    } else if j == 16 {
        lemma_is_doubling(1389168750, 838891026, 1543902459, 1632329423);
    } else if j == 17 {
        lemma_is_doubling(1543902459, 1632329423, 1330239767, 1446369578);
    } else if j == 18 {
        lemma_is_doubling(1330239767, 1446369578, 1420207432, 2023238517);
    } else if j == 19 {
        lemma_is_doubling(1420207432, 2023238517, 2015554631, 1088093947);
    } else if j == 20 {
        lemma_is_doubling(2015554631, 1088093947, 996212859, 1140996376);
    } else if j == 21 {
        lemma_is_doubling(996212859, 1140996376, 1434706457, 1835793811);
    } else if j == 22 {
        lemma_is_doubling(1434706457, 1835793811, 13610297, 1064696601);
    } else if j == 23 {
        lemma_is_doubling(13610297, 1064696601, 785043271, 1260750973);
    } else if j == 24 {
        lemma_is_doubling(785043271, 1260750973, 838195206, 1774253895);
    } else if j == 25 {
        lemma_is_doubling(838195206, 1774253895, 579625837, 1690787918);
    } else if j == 26 {
        lemma_is_doubling(579625837, 1690787918, 1179735656, 1241207368);
    } else if j == 27 {
        lemma_is_doubling(1179735656, 1241207368, 590768354, 978592373);
    } else if j == 28 {
        lemma_is_doubling(590768354, 978592373, 32768, 2147450879);
    } else if j == 29 {
        lemma_is_doubling(32768, 2147450879, 0, 2147483646);
    } else if j == 30 {
        lemma_is_doubling(0, 2147483646, 2147483646, 0);
    } else if j == 31 {
        lemma_is_doubling(2147483646, 0, 1, 0);
    }
}

impl CirclePoint {
    /// The point as the complex number `x + iy`.
    pub open spec fn complex(self) -> CM31 {
        CM31(self.x, self.y)
    }

    /// The point of a complex number.
    pub open spec fn of_complex(z: CM31) -> CirclePoint {
        CirclePoint { x: z.0, y: z.1 }
    }

    /// Both coordinates are least residues.
    pub open spec fn wf(self) -> bool {
        self.x.wf() && self.y.wf()
    }

    /// The neutral element `(1, 0)`.
    pub open spec fn spec_zero() -> CirclePoint {
        CirclePoint::of_complex(CM31::spec_one())
    }

    /// The generator `(2, 1268011823)` of the group.
    pub open spec fn spec_generator() -> CirclePoint {
        CirclePoint::of_complex(CM31::of(generator_doubling(0)))
    }

    /// The group law: `(x1 x2 - y1 y2, x1 y2 + y1 x2)`.
    pub open spec fn spec_add(self, rhs: CirclePoint) -> CirclePoint {
        CirclePoint::of_complex(self.complex().spec_mul(rhs.complex()))
    }

    pub open spec fn spec_double(self) -> CirclePoint {
        self.spec_add(self)
    }

    /// The inverse `(x, -y)` in the group.
    pub open spec fn spec_conjugate(self) -> CirclePoint {
        CirclePoint { x: self.x, y: self.y.spec_neg() }
    }

    pub open spec fn spec_neg(self) -> CirclePoint {
        self.spec_conjugate()
    }

    pub open spec fn spec_sub(self, rhs: CirclePoint) -> CirclePoint {
        self.spec_add(rhs.spec_neg())
    }

    /// The point `(-x, -y)`.
    pub open spec fn spec_antipode(self) -> CirclePoint {
        CirclePoint { x: self.x.spec_neg(), y: self.y.spec_neg() }
    }

    /// `n` times the point.
    pub open spec fn spec_mul(self, n: nat) -> CirclePoint {
        CirclePoint::of_complex(self.complex().spec_pow(n))
    }

    /// The doubling map on the first coordinate: `2x^2 - 1`.
    pub open spec fn spec_double_x(x: M31) -> M31 {
        x.spec_square().spec_add(x.spec_square()).spec_sub(M31::spec_one())
    }

    /// The number of doublings of `x` until it is one, at most `fuel`.
    pub open spec fn spec_log_order_from(x: M31, fuel: nat) -> nat
        decreases fuel,
    {
        if fuel == 0 || x == M31::spec_one() {
            0
        } else {
            1 + CirclePoint::spec_log_order_from(CirclePoint::spec_double_x(x), (fuel - 1) as nat)
        }
    }

    /// The logarithm of the order of a point of the group.
    pub open spec fn spec_log_order(self) -> nat {
        CirclePoint::spec_log_order_from(self.x, 31)
    }

    /// Makes the range of an executable value known to the caller.
    pub fn reduced(&self)
        ensures
            self.wf(),
    {
        self.x.reduced();
        self.y.reduced();
    }

    pub fn zero() -> (r: CirclePoint)
        ensures
            r == CirclePoint::spec_zero(),
    {
        CirclePoint { x: M31::one(), y: M31::zero() }
    }

    pub fn generator() -> (r: CirclePoint)
        ensures
            r == CirclePoint::spec_generator(),
    {
        CirclePoint { x: M31::from_u32_unchecked(2), y: M31::from_u32_unchecked(1268011823) }
    }

    pub fn add(self, rhs: CirclePoint) -> (r: CirclePoint)
        ensures
            r == self.spec_add(rhs),
    {
        let x = self.x.mul(rhs.x).sub(self.y.mul(rhs.y));
        let y = self.x.mul(rhs.y).add(self.y.mul(rhs.x));
        CirclePoint { x, y }
    }

    pub fn double(self) -> (r: CirclePoint)
        ensures
            r == self.spec_double(),
    {
        self.add(self)
    }

    pub fn double_x(x: M31) -> (r: M31)
        ensures
            r == CirclePoint::spec_double_x(x),
    {
        let sx = x.square();
        sx.add(sx).sub(M31::one())
    }

    pub fn conjugate(self) -> (r: CirclePoint)
        ensures
            r == self.spec_conjugate(),
    {
        CirclePoint { x: self.x, y: self.y.neg() }
    }

    pub fn neg(self) -> (r: CirclePoint)
        ensures
            r == self.spec_neg(),
    {
        self.conjugate()
    }

    pub fn sub(self, rhs: CirclePoint) -> (r: CirclePoint)
        ensures
            r == self.spec_sub(rhs),
    {
        self.add(rhs.neg())
    }

    pub fn antipode(self) -> (r: CirclePoint)
        ensures
            r == self.spec_antipode(),
    {
        CirclePoint { x: self.x.neg(), y: self.y.neg() }
    }

    /// `scalar` times the point, by doubling.
    pub fn mul(self, scalar: u128) -> (r: CirclePoint)
        ensures
            r == self.spec_mul(scalar as nat),
    {
        let z = CM31(self.x, self.y).pow(scalar);
        CirclePoint { x: z.0, y: z.1 }
    }

    /// The point doubled `n` times.
    pub fn repeated_double(self, n: u32) -> (r: CirclePoint)
        ensures
            r == self.spec_mul(pow2(n as nat)),
    {
        let mut res = self;
        let mut k: u32 = 0;
        self.reduced();
        proof {
            lemma2_to64();
            CM31::lemma_pow_one(self.complex());
        }
        while k < n
            invariant
                k <= n,
                self.wf(),
                res == self.spec_mul(pow2(k as nat)),
            decreases n - k,
        {
            proof {
                lemma_pow2_unfold((k + 1) as nat);
                CM31::lemma_pow_add(self.complex(), pow2(k as nat), pow2(k as nat));
            }
            res = res.double();
            k = k + 1;
        }
        res
    }

    /// The logarithm of the order of the point: how often its first
    /// coordinate is doubled until it is one.
    pub fn log_order(&self) -> (r: u32)
        ensures
            r == self.spec_log_order(),
            r <= 31,
    {
        let mut res: u32 = 0;
        let mut cur = self.x;
        let one = M31::one();
        while res < 31 && cur != one
            invariant
                res <= 31,
                one == M31::spec_one(),
                res + CirclePoint::spec_log_order_from(cur, (31 - res) as nat)
                    == self.spec_log_order(),
            decreases 31 - res,
        {
            cur = CirclePoint::double_x(cur);
            res = res + 1;
        }
        res
    }

    /// `2^j` times the generator is the `j`-th entry of the table.
    pub proof fn lemma_generator_power_of_two(j: nat)
        requires
            j <= 31,
        ensures
            CirclePoint::spec_generator().spec_mul(pow2(j)) == CirclePoint::of_complex(
                CM31::of(generator_doubling(j)),
            ),
        decreases j,
    {
        let g = CirclePoint::spec_generator().complex();
        CM31::lemma_of_wf(generator_doubling(0));
        if j == 0 {
            lemma2_to64();
            CM31::lemma_pow_one(g);
        } else {
            let k = (j - 1) as nat;
            Self::lemma_generator_power_of_two(k);
            lemma_pow2_unfold(j);
            CM31::lemma_pow_add(g, pow2(k), pow2(k));
            CM31::lemma_of_mul(generator_doubling(k), generator_doubling(k));
            lemma_generator_doubling_arith(j);
            lemma_doubling_of(generator_doubling(k), generator_doubling(j));
        }
    }

    /// The generator has order `2^31`: that many times it is the neutral element.
    pub proof fn lemma_generator_order()
        ensures
            CirclePoint::spec_generator().spec_mul(pow2(31)) == CirclePoint::spec_zero(),
    {
        Self::lemma_generator_power_of_two(31);
    }
}

} // verus!
