//! 256-bit unsigned and signed integers as four little-endian 64-bit limbs,
//! with the arithmetic that the pool math needs.
use vstd::prelude::*;

verus! {

pub open spec fn pow64() -> nat {
    0x1_0000_0000_0000_0000nat
}

pub open spec fn pow128() -> nat {
    0x1_0000_0000_0000_0000_0000_0000_0000_0000nat
}

pub open spec fn pow192() -> nat {
    0x1_0000_0000_0000_0000_0000_0000_0000_0000_0000_0000_0000_0000nat
}

pub open spec fn pow255() -> nat {
    0x8000_0000_0000_0000_0000_0000_0000_0000_0000_0000_0000_0000_0000_0000_0000_0000nat
}

pub open spec fn pow256() -> nat {
    0x1_0000_0000_0000_0000_0000_0000_0000_0000_0000_0000_0000_0000_0000_0000_0000_0000nat
}

/// The number that four little-endian 64-bit limbs stand for.
pub open spec fn limbs_value(l: [u64; 4]) -> nat {
    l[0] as nat + l[1] as nat * pow64() + l[2] as nat * pow128() + l[3] as nat * pow192()
}

/// An unsigned 256-bit integer; the limbs are least significant first.
#[derive(Clone, Copy, Debug, Hash)]
pub struct U256(pub [u64; 4]);

impl View for U256 {
    type V = nat;

    open spec fn view(&self) -> nat {
        limbs_value(self.0)
    }
}

/// A signed 256-bit integer in two's complement over a raw `U256`.
#[derive(Clone, Copy, Debug, Hash, PartialEq, Eq)]
pub struct I256(pub U256);

/// The signed value of a raw two's complement word.
pub open spec fn signed_value(raw: nat) -> int {
    if raw >= pow255() {
        raw - pow256()
    } else {
        raw as int
    }
}

impl View for I256 {
    type V = int;

    open spec fn view(&self) -> int {
        signed_value(self.0@)
    }
}

pub proof fn lemma_split(h: nat, l: nat, b: nat, h2: nat, l2: nat)
    requires
        b > 0,
        l < b,
        l2 < b,
    ensures
        h < h2 ==> h * b + l < h2 * b + l2,
        h == h2 ==> (h * b + l < h2 * b + l2 <==> l < l2),
        h * b + l == h2 * b + l2 ==> h == h2 && l == l2,
{
    if h < h2 {
        assert(h * b + b <= h2 * b) by (nonlinear_arith)
            requires
                h < h2,
                b > 0,
        ;
    }
    if h > h2 {
        assert(h2 * b + b <= h * b) by (nonlinear_arith)
            requires
                h > h2,
                b > 0,
        ;
    }
}

pub proof fn lemma_value_bounds(l: [u64; 4])
    ensures
        limbs_value(l) < pow256(),
        (l[0] as nat + l[1] as nat * pow64()) < pow128(),
        (l[0] as nat + l[1] as nat * pow64() + l[2] as nat * pow128()) < pow192(),
        limbs_value(l) == l[3] as nat * pow192() + (l[0] as nat + l[1] as nat * pow64() + l[2] as nat * pow128()),
{
    let a = l[0] as nat;
    let b = l[1] as nat;
    let c = l[2] as nat;
    let d = l[3] as nat;
    assert(b * pow64() <= (pow64() - 1) * pow64()) by (nonlinear_arith)
        requires
            b < pow64(),
    ;
    assert(c * pow128() <= (pow64() - 1) * pow128()) by (nonlinear_arith)
        requires
            c < pow64(),
    ;
    assert(d * pow192() <= (pow64() - 1) * pow192()) by (nonlinear_arith)
        requires
            d < pow64(),
    ;
}

/// Limb-wise characterisation of the order of two values.
pub proof fn lemma_lt_limbs(x: [u64; 4], y: [u64; 4])
    ensures
        limbs_value(x) < limbs_value(y) <==> (x[3] < y[3] || (x[3] == y[3] && (x[2] < y[2] || (
        x[2] == y[2] && (x[1] < y[1] || (x[1] == y[1] && x[0] < y[0])))))),
        limbs_value(x) == limbs_value(y) <==> (x[3] == y[3] && x[2] == y[2] && x[1] == y[1] && x[0]
            == y[0]),
{
    lemma_value_bounds(x);
    lemma_value_bounds(y);
    let lx1 = x[0] as nat + x[1] as nat * pow64();
    let ly1 = y[0] as nat + y[1] as nat * pow64();
    let lx2 = lx1 + x[2] as nat * pow128();
    let ly2 = ly1 + y[2] as nat * pow128();
    lemma_split(x[3] as nat, lx2, pow192(), y[3] as nat, ly2);
    lemma_split(y[3] as nat, ly2, pow192(), x[3] as nat, lx2);
    lemma_split(x[2] as nat, lx1, pow128(), y[2] as nat, ly1);
    lemma_split(y[2] as nat, ly1, pow128(), x[2] as nat, lx1);
    lemma_split(x[1] as nat, x[0] as nat, pow64(), y[1] as nat, y[0] as nat);
    lemma_split(y[1] as nat, y[0] as nat, pow64(), x[1] as nat, x[0] as nat);
    assert(x[2] as nat * pow128() + lx1 == lx2);
    assert(y[2] as nat * pow128() + ly1 == ly2);
    assert(x[1] as nat * pow64() + x[0] as nat == lx1);
    assert(y[1] as nat * pow64() + y[0] as nat == ly1);
}

proof fn lemma_u128_split(x: u128)
    ensures
        (x as u64) as nat + ((x >> 64u128) as u64) as nat * pow64() == x as nat,
{
    assert((x as u64) as u128 + ((x >> 64u128) as u64) as u128 * 0x1_0000_0000_0000_0000u128 == x)
        by (bit_vector);
}

proof fn lemma_u128_join(a: u64, b: u64)
    ensures
        (a as u128 | ((b as u128) << 64u128)) as nat == a as nat + b as nat * pow64(),
{
    assert((a as u128 | ((b as u128) << 64u128)) == a as u128 + b as u128 * 0x1_0000_0000_0000_0000u128)
        by (bit_vector);
}

impl U256 {
    pub fn zero() -> (r: U256)
        ensures
            r@ == 0,
    {
        U256([0, 0, 0, 0])
    }

    /// The value `2^192`, used as the fixed point scale of squared prices.
    pub fn q192() -> (r: U256)
        ensures
            r@ == pow192(),
    {
        U256([0, 0, 0, 1])
    }

    pub fn from_u128(x: u128) -> (r: U256)
        ensures
            r@ == x as nat,
    {
        proof {
            lemma_u128_split(x);
        }
        U256([x as u64, (x >> 64u128) as u64, 0, 0])
    }

    pub fn from_u64(x: u64) -> (r: U256)
        ensures
            r@ == x as nat,
    {
        U256([x, 0, 0, 0])
    }

    pub fn is_zero(&self) -> (r: bool)
        ensures
            r == (self@ == 0),
    {
        proof {
            lemma_lt_limbs(self.0, [0u64, 0, 0, 0]);
        }
        self.0[0] == 0 && self.0[1] == 0 && self.0[2] == 0 && self.0[3] == 0
    }

    /// Strict order on values.
    pub fn lt(&self, other: &U256) -> (r: bool)
        ensures
            r == (self@ < other@),
    {
        proof {
            lemma_lt_limbs(self.0, other.0);
        }
        let x = self.0;
        let y = other.0;
        x[3] < y[3] || (x[3] == y[3] && (x[2] < y[2] || (x[2] == y[2] && (x[1] < y[1] || (x[1]
            == y[1] && x[0] < y[0])))))
    }

    pub fn eq_value(&self, other: &U256) -> (r: bool)
        ensures
            r == (self@ == other@),
    {
        proof {
            lemma_lt_limbs(self.0, other.0);
        }
        self.0[0] == other.0[0] && self.0[1] == other.0[1] && self.0[2] == other.0[2] && self.0[3]
            == other.0[3]
    }

    /// The value as `u128`; the value must fit.
    pub fn as_u128(&self) -> (r: u128)
        requires
            self@ < pow128(),
        ensures
            r == self@,
    {
        proof {
            lemma_value_bounds(self.0);
            let l = self.0;
            let low = l[0] as nat + l[1] as nat * pow64();
            assert(l[2] == 0 && l[3] == 0) by {
                if l[2] > 0 || l[3] > 0 {
                    assert(l[2] as nat * pow128() + l[3] as nat * pow192() >= pow128())
                        by (nonlinear_arith)
                        requires
                            l[2] > 0 || l[3] > 0,
                    ;
                }
            }
            lemma_u128_join(l[0], l[1]);
        }
        self.0[0] as u128 | ((self.0[1] as u128) << 64u128)
    }

    /// The value as `u64`; the value must fit.
    pub fn as_u64(&self) -> (r: u64)
        requires
            self@ < pow64(),
        ensures
            r == self@,
    {
        proof {
            let l = self.0;
            if l[1] > 0 || l[2] > 0 || l[3] > 0 {
                assert(l[1] as nat * pow64() + l[2] as nat * pow128() + l[3] as nat * pow192()
                    >= pow64()) by (nonlinear_arith)
                    requires
                        l[1] > 0 || l[2] > 0 || l[3] > 0,
                ;
            }
        }
        self.0[0]
    }

    /// The largest value, `2^256 - 1`.
    pub fn max_value() -> (r: U256)
        ensures
            r@ == pow256() - 1,
    {
        let r = U256([u64::MAX, u64::MAX, u64::MAX, u64::MAX]);
        assert(limbs_value(r.0) == pow256() - 1);
        r
    }

    /// Whether `self + other` fits in 256 bits.
    pub fn add_fits(&self, other: &U256) -> (r: bool)
        ensures
            r == (self@ + other@ < pow256()),
    {
        let room = u256_sub(U256::max_value(), *other);
        !room.lt(self)
    }

    /// The smaller of two values.
    pub fn min(&self, other: &U256) -> (r: U256)
        ensures
            r@ == if self@ <= other@ {
                self@
            } else {
                other@
            },
    {
        if other.lt(self) {
            *other
        } else {
            *self
        }
    }

    /// `self - other`, or zero when `other` is the larger.
    pub fn saturating_sub(&self, other: &U256) -> (r: U256)
        ensures
            r@ == if self@ >= other@ {
                (self@ - other@) as nat
            } else {
                0
            },
    {
        if self.lt(other) {
            U256::zero()
        } else {
            u256_sub(*self, *other)
        }
    }
}

impl I256 {
    pub fn is_negative(&self) -> (r: bool)
        ensures
            r == (self@ < 0),
    {
        let l = (self.0).0;
        proof {
            lemma_lt_limbs(l, [0u64, 0, 0, 0x8000_0000_0000_0000u64]);
            assert(limbs_value([0u64, 0, 0, 0x8000_0000_0000_0000u64]) == pow255());
            lemma_value_bounds(l);
        }
        l[3] >= 0x8000_0000_0000_0000
    }

    /// The raw two's complement word.
    pub fn into_raw(&self) -> (r: U256)
        ensures
            r@ == self.0@,
            self@ >= 0 ==> r@ == self@,
    {
        self.0
    }

    /// Whether the value lies in the `i32` range.
    pub fn fits_i32(&self) -> (r: bool)
        ensures
            r == (i32::MIN <= self@ <= i32::MAX),
    {
        let l = (self.0).0;
        proof {
            lemma_lt_limbs(l, [0x8000_0000u64, 0, 0, 0]);
            lemma_lt_limbs(l, [0xFFFF_FFFF_8000_0000u64, 0xFFFF_FFFF_FFFF_FFFFu64, 0xFFFF_FFFF_FFFF_FFFFu64, 0xFFFF_FFFF_FFFF_FFFFu64]);
            lemma_value_bounds(l);
            assert(limbs_value([0x8000_0000u64, 0, 0, 0]) == 0x8000_0000);
            assert(limbs_value([0xFFFF_FFFF_8000_0000u64, 0xFFFF_FFFF_FFFF_FFFFu64, 0xFFFF_FFFF_FFFF_FFFFu64, 0xFFFF_FFFF_FFFF_FFFFu64]) == pow256() - 0x8000_0000);
        }
        (l[1] == 0 && l[2] == 0 && l[3] == 0 && l[0] < 0x8000_0000) || (l[1] == u64::MAX && l[2]
            == u64::MAX && l[3] == u64::MAX && l[0] >= 0xFFFF_FFFF_8000_0000)
    }
}

impl PartialEq for U256 {
    fn eq(&self, other: &U256) -> (r: bool) {
        self.eq_value(other)
    }
}

impl vstd::std_specs::cmp::PartialEqSpecImpl for U256 {
    open spec fn obeys_eq_spec() -> bool {
        true
    }

    open spec fn eq_spec(&self, other: &U256) -> bool {
        self@ == other@
    }
}

impl Eq for U256 {}

/// `ethers` `I256::unsigned_abs`: the magnitude, which always fits.
#[verifier::external_body]
pub(crate) fn i256_unsigned_abs(x: I256) -> (r: U256)
    ensures
        r@ == if x@ < 0 {
            -x@
        } else {
            x@
        },
{
    U256(ethers::types::I256::from_raw(ethers::types::U256((x.0).0)).unsigned_abs().0)
}

/// `ethers` `U256` addition (`+`), which panics on overflow, so the sum must fit.
#[verifier::external_body]
pub(crate) fn u256_add(a: U256, b: U256) -> (r: U256)
    requires
        a@ + b@ < pow256(),
    ensures
        r@ == a@ + b@,
{
    U256((ethers::types::U256(a.0) + ethers::types::U256(b.0)).0)
}

/// `ethers` `U256` subtraction (`-`), which panics on underflow.
#[verifier::external_body]
pub(crate) fn u256_sub(a: U256, b: U256) -> (r: U256)
    requires
        a@ >= b@,
    ensures
        r@ == a@ - b@,
{
    U256((ethers::types::U256(a.0) - ethers::types::U256(b.0)).0)
}

/// `ethers` `U256` multiplication (`*`), which panics on overflow.
#[verifier::external_body]
pub(crate) fn u256_mul(a: U256, b: U256) -> (r: U256)
    requires
        a@ * b@ < pow256(),
    ensures
        r@ == a@ * b@,
{
    U256((ethers::types::U256(a.0) * ethers::types::U256(b.0)).0)
}

/// `ethers` `U256::checked_mul`: `None` exactly when the product does not fit.
#[verifier::external_body]
pub(crate) fn u256_checked_mul(a: U256, b: U256) -> (r: Option<U256>)
    ensures
        r is Some <==> a@ * b@ < pow256(),
        r matches Some(v) ==> v@ == a@ * b@,
{
    match ethers::types::U256(a.0).checked_mul(ethers::types::U256(b.0)) {
        Some(v) => Some(U256(v.0)),
        None => None,
    }
}

/// `ethers` `U256` division (`/`), rounding down; it panics on a zero divisor.
#[verifier::external_body]
pub(crate) fn u256_div(a: U256, b: U256) -> (r: U256)
    requires
        b@ > 0,
    ensures
        r@ == a@ / b@,
{
    U256((ethers::types::U256(a.0) / ethers::types::U256(b.0)).0)
}

/// `ethers` `U256::exp10`: ten to the power `n`; it panics when the power does not fit.
#[verifier::external_body]
pub(crate) fn u256_exp10(n: usize) -> (r: U256)
    requires
        vstd::arithmetic::power::pow(10, n as nat) < pow256(),
    ensures
        r@ == vstd::arithmetic::power::pow(10, n as nat),
{
    U256(ethers::types::U256::exp10(n).0)
}

} // verus!
