//! A field element over Z/MZ: a residue class modulo a fixed modulus `M`,
//! held as a canonical carrier value in `[0, M)`.
//!
//! The modulus is a type-level constant, so elements of two different moduli
//! can never meet in one operation. For a prime modulus the type is a true
//! field: every nonzero element has a multiplicative inverse, computed by the
//! iterative extended Euclidean algorithm.

use vstd::prelude::*;
use vstd::arithmetic::div_mod::{
    lemma_fundamental_div_mod, lemma_fundamental_div_mod_converse_mod, lemma_mod_multiples_vanish,
    lemma_mod_self_0, lemma_mul_mod_noop_left, lemma_mul_mod_noop_right, lemma_small_mod,
};
use vstd::arithmetic::mul::{lemma_mul_is_associative, lemma_mul_is_commutative};

verus! {

/// The moduli the carrier can serve: at least 2, and small enough that a
/// product of two canonical values fits in an `i64`.
pub open spec fn modulus_ok(m: int) -> bool {
    2 <= m <= 0x7fff_ffff
}

/// Modular addition of canonical values.
pub open spec fn add_mod(m: int, a: int, b: int) -> int {
    (a + b) % m
}

/// Modular subtraction of canonical values, kept nonnegative by adding `m`
/// before reducing.
pub open spec fn sub_mod(m: int, a: int, b: int) -> int {
    (a + m - b) % m
}

/// Modular multiplication of canonical values.
pub open spec fn mul_mod(m: int, a: int, b: int) -> int {
    (a * b) % m
}

/// Greatest common divisor, by the Euclidean recursion that the inverse
/// algorithm follows.
pub open spec fn gcd(a: nat, b: nat) -> nat
    decreases b,
{
    if b == 0 {
        a
    } else {
        gcd(b, a % b)
    }
}

/// Magnitude of a signed quantity.
pub open spec fn iabs(x: int) -> int {
    if x >= 0 {
        x
    } else {
        -x
    }
}

/// One round of the extended Euclidean update keeps the books straight:
/// with the running pairs of opposite sign and weighed so that
/// `a*|v| + b*|u| == m`, the updated coefficient `u - t*v` again has the
/// opposite sign to `v`, restores the weighing for the updated pair, and
/// stays within `m` in magnitude.
proof fn lemma_coeff_step(a: int, b: int, u: int, v: int, t: int, m: int, au: int, av: int)
    by (nonlinear_arith)
    requires
        1 <= b,
        0 <= t,
        0 <= a - t * b,
        u * v <= 0,
        au == (if u >= 0 { u } else { -u }),
        av == (if v >= 0 { v } else { -v }),
        a * av + b * au == m,
    ensures
        v * (u - t * v) <= 0,
        b * (if u - t * v >= 0 { u - t * v } else { -(u - t * v) }) + (a - t * b) * av == m,
        (if u - t * v >= 0 { u - t * v } else { -(u - t * v) }) <= m,
{
}

/// Rust's `%` on a signed carrier truncates toward zero; the canonical
/// residue is the Euclidean remainder. For a positive modulus the two agree
/// on nonnegative dividends, and the truncating result, when negative, is one
/// modulus short of the Euclidean one.
proof fn lemma_truncating_rem(v: int, m: int, t: int)
    requires
        2 <= m,
        t == if v >= 0 {
            v % m
        } else {
            -((-v) % m)
        },
    ensures
        v % m == if t < 0 {
            t + m
        } else {
            t
        },
{
    if v < 0 {
        let w = (-v) % m;
        lemma_fundamental_div_mod(-v, m);
        let q = (-v) / m;
        assert((-q) * m == -(q * m) && (-q - 1) * m == -(q * m) - m) by (nonlinear_arith);
        if w == 0 {
            lemma_fundamental_div_mod_converse_mod(v, m, -q, 0);
        } else {
            lemma_fundamental_div_mod_converse_mod(v, m, -q - 1, m - w);
        }
    }
}

/// The character for one decimal digit.
pub open spec fn digit_char(d: int) -> char {
    ((0x30 + d) as u8) as char
}

/// The decimal rendering of a nonnegative number: its digits, most
/// significant first, with no sign and no leading zero.
pub open spec fn decimal(n: nat) -> Seq<char>
    decreases n,
{
    if n < 10 {
        seq![digit_char(n as int)]
    } else {
        decimal(n / 10).push(digit_char((n % 10) as int))
    }
}

/// Relies on String::from_utf8: bytes below 0x80 decode to one character
/// each, with the same code point.
#[verifier::external_body]
fn ascii_to_string(b: Vec<u8>) -> (s: String)
    requires
        forall|i: int| 0 <= i < b@.len() ==> b@[i] < 0x80,
    ensures
        s@ == b@.map_values(|x: u8| x as char),
{
    String::from_utf8(b).unwrap_or_default()
}

/// One residue class modulo `M`, holding its canonical representative.
#[derive(Debug, Clone, Copy, PartialEq, Eq)]
pub struct GFElem<const M: u64> {
    value: i64,
}

/// The field of integers modulo the prime 1_000_000_007, on an `i64` carrier.
pub type GFp = GFElem<1000000007>;

impl<const M: u64> View for GFElem<M> {
    type V = int;

    closed spec fn view(&self) -> int {
        self.value as int
    }
}

impl<const M: u64> GFElem<M> {
    /// The element is canonical: its value lies in `[0, M)`, for a workable
    /// modulus.
    pub open spec fn wf(&self) -> bool {
        modulus_ok(M as int) && 0 <= self@ < M as int
    }

    /// The modulus of this field, as a carrier value.
    pub fn modulo() -> (m: i64)
        requires
            modulus_ok(M as int),
        ensures
            m as int == M as int,
    {
        M as i64
    }

    /// Constructs the element of the residue class of `v`, reduced into
    /// `[0, M)` whatever the sign of `v`.
    pub fn from_value(v: i64) -> (r: Self)
        requires
            modulus_ok(M as int),
        ensures
            r.wf(),
            r@ == v as int % M as int,
    {
        let m = M as i64;
        let t = v % m;
        proof {
            lemma_truncating_rem(v as int, m as int, t as int);
        }
        let value = if t < 0 {
            t + m
        } else {
            t
        };
        GFElem { value }
    }

    /// Hands the canonical carrier value back.
    pub fn into_value(self) -> (r: i64)
        ensures
            r as int == self@,
    {
        self.value
    }

    /// Modular addition.
    pub fn add(self, other: Self) -> (r: Self)
        requires
            self.wf(),
            other.wf(),
        ensures
            r.wf(),
            r@ == add_mod(M as int, self@, other@),
    {
        let m = M as i64;
        GFElem { value: (self.value + other.value) % m }
    }

    /// In-place modular addition.
    pub fn add_assign(&mut self, other: Self)
        requires
            old(self).wf(),
            other.wf(),
        ensures
            final(self).wf(),
            final(self)@ == add_mod(M as int, old(self)@, other@),
    {
        *self = (*self).add(other);
    }

    /// Modular subtraction. The minuend is lifted by `M` before the
    /// difference is taken, so the carrier never sees a negative value.
    pub fn sub(self, other: Self) -> (r: Self)
        requires
            self.wf(),
            other.wf(),
        ensures
            r.wf(),
            r@ == sub_mod(M as int, self@, other@),
    {
        let m = M as i64;
        GFElem { value: (self.value + m - other.value) % m }
    }

    /// In-place modular subtraction.
    pub fn sub_assign(&mut self, other: Self)
        requires
            old(self).wf(),
            other.wf(),
        ensures
            final(self).wf(),
            final(self)@ == sub_mod(M as int, old(self)@, other@),
    {
        *self = (*self).sub(other);
    }

    /// Modular multiplication. Canonical operands keep the product under
    /// `2^62`, so the carrier multiplication cannot overflow.
    pub fn mul(self, other: Self) -> (r: Self)
        requires
            self.wf(),
            other.wf(),
        ensures
            r.wf(),
            r@ == mul_mod(M as int, self@, other@),
    {
        let m = M as i64;
        assert(0 <= (self.value as int) * (other.value as int) < 0x4000_0000_0000_0000)
            by (nonlinear_arith)
            requires
                0 <= self.value < 0x8000_0000,
                0 <= other.value < 0x8000_0000;
        GFElem { value: (self.value * other.value) % m }
    }

    /// Multiplicative inverse modulo `M`, by the iterative extended Euclidean
    /// algorithm: it is defined exactly when the value is coprime with the
    /// modulus, which for a prime `M` is every nonzero element.
    pub fn inv(self) -> (r: Self)
        requires
            self.wf(),
            gcd(self@ as nat, M as nat) == 1,
        ensures
            r.wf(),
            mul_mod(M as int, self@, r@) == 1,
    {
        let m = M as i64;
        let x = self.value;
        proof {
            if x == 0 {
                assert(gcd(0, M as nat) == gcd(M as nat, 0nat % M as nat));
                assert(0nat % (M as nat) == 0);
                assert(gcd(M as nat, 0) == M as nat);
            }
        }
        let mut a = x;
        let mut b = m;
        let mut u: i64 = 1;
        let mut v: i64 = 0;
        let ghost mut su: int = 0int;
        let ghost mut sv: int = 1int;
        while b != 0
            invariant
                2 <= m <= 0x7fff_ffff,
                m as int == M as int,
                1 <= x < m,
                x as int == self@,
                1 <= a <= m,
                0 <= b <= m,
                a == x * u + m * su,
                b == x * v + m * sv,
                u * v <= 0,
                a * iabs(v as int) + b * iabs(u as int) == m,
                iabs(u as int) <= m,
                iabs(v as int) <= m,
                gcd(a as nat, b as nat) == gcd(x as nat, m as nat),
                gcd(x as nat, m as nat) == 1,
            decreases b,
        {
            let t = a / b;
            proof {
                lemma_fundamental_div_mod(a as int, b as int);
                assert(0 <= t && t * b <= a && t <= a) by (nonlinear_arith)
                    requires
                        1 <= b,
                        0 <= a,
                        t == (a as int) / (b as int),
                        a == b * t + ((a as int) % (b as int)),
                        0 <= (a as int) % (b as int) < b;
                assert(-0x4000_0000_0000_0000 <= (t as int) * (v as int) <= 0x4000_0000_0000_0000)
                    by (nonlinear_arith)
                    requires
                        0 <= t <= 0x7fff_ffff,
                        -0x7fff_ffff <= v <= 0x7fff_ffff;
            }
            let new_a = a - t * b;
            let new_u = u - t * v;
            let ghost new_su: int = su - (t as int) * sv;
            proof {
                lemma_coeff_step(
                    a as int,
                    b as int,
                    u as int,
                    v as int,
                    t as int,
                    m as int,
                    iabs(u as int),
                    iabs(v as int),
                );
                assert(a - t * b == x * (u - t * v) + m * (su - (t as int) * sv))
                    by (nonlinear_arith)
                    requires
                        a == x * u + m * su,
                        b == x * v + m * sv;
                assert(gcd(a as nat, b as nat) == gcd(b as nat, (a as nat) % (b as nat)));
                assert((a as nat) % (b as nat) == new_a as nat);
            }
            a = b;
            b = new_a;
            u = v;
            v = new_u;
            proof {
                su = sv;
                sv = new_su;
            }
        }
        proof {
            assert(gcd(a as nat, 0) == a as nat);
            assert(a == 1);
        }
        let t = u % m;
        proof {
            lemma_truncating_rem(u as int, m as int, t as int);
        }
        let value = if t < 0 {
            t + m
        } else {
            t
        };
        proof {
            assert(value == (u as int) % (m as int));
            assert((x as int) * (u as int) == m as int * (-su) + 1) by (nonlinear_arith)
                requires
                    1 == x * u + m * su;
            lemma_mul_mod_noop_right(x as int, u as int, m as int);
            lemma_mod_multiples_vanish(-su, 1, m as int);
            lemma_small_mod(1, M as nat);
        }
        GFElem { value }
    }

    /// In-place modular multiplication.
    pub fn mul_assign(&mut self, other: Self)
        requires
            old(self).wf(),
            other.wf(),
        ensures
            final(self).wf(),
            final(self)@ == mul_mod(M as int, old(self)@, other@),
    {
        *self = (*self).mul(other);
    }

    /// Modular division: multiplication by the divisor's inverse. The result
    /// is the one element that gives back the dividend when multiplied by the
    /// divisor.
    pub fn div(self, other: Self) -> (r: Self)
        requires
            self.wf(),
            other.wf(),
            gcd(other@ as nat, M as nat) == 1,
        ensures
            r.wf(),
            mul_mod(M as int, r@, other@) == self@,
    {
        let i = other.inv();
        let r = self.mul(i);
        proof {
            let m = M as int;
            let a = self@;
            let b = other@;
            let ib = i@;
            lemma_mul_mod_noop_left(a * ib, b, m);
            assert((((a * ib) % m) * b) % m == ((a * ib) * b) % m);
            lemma_mul_is_associative(a, ib, b);
            assert(((a * ib) * b) % m == (a * (ib * b)) % m);
            lemma_mul_is_commutative(ib, b);
            assert((ib * b) % m == 1);
            lemma_mul_mod_noop_right(a, ib * b, m);
            assert((a * ((ib * b) % m)) % m == (a * (ib * b)) % m);
            assert(a * ((ib * b) % m) == a * 1 == a);
            lemma_small_mod(a as nat, M as nat);
            assert(a % m == a);
        }
        r
    }

    /// The canonical value rendered in decimal.
    pub fn to_string(&self) -> (s: String)
        requires
            self.wf(),
        ensures
            s@ == decimal(self@ as nat),
    {
        let ghost total: int = self.value as int;
        let mut digits: Vec<u8> = Vec::new();
        let mut n = self.value;
        if n == 0 {
            digits.push(0x30);
        }
        proof {
            if total == 0 {
                assert(digits@.map_values(|x: u8| x as char) =~= decimal(0));
            }
        }
        while n > 0
            invariant
                0 <= n,
                forall|i: int| 0 <= i < digits@.len() ==> 0x30 <= #[trigger] digits@[i] < 0x3a,
                0 <= total,
                decimal(total as nat) == if n > 0 {
                    decimal(n as nat) + digits@.map_values(|x: u8| x as char)
                } else {
                    digits@.map_values(|x: u8| x as char)
                },
            decreases n,
        {
            let ghost before = digits@.map_values(|x: u8| x as char);
            let d: u8 = (n % 10) as u8 + 0x30;
            digits.insert(0, d);
            proof {
                assert(digits@.map_values(|x: u8| x as char) =~= seq![d as char] + before);
                assert(d as char == digit_char((n as int) % 10));
            }
            n = n / 10;
        }
        ascii_to_string(digits)
    }

    /// In-place modular division.
    pub fn div_assign(&mut self, other: Self)
        requires
            old(self).wf(),
            other.wf(),
            gcd(other@ as nat, M as nat) == 1,
        ensures
            final(self).wf(),
            mul_mod(M as int, final(self)@, other@) == old(self)@,
    {
        *self = (*self).div(other);
    }
}

impl<const M: u64> Default for GFElem<M> {
    /// The zero element.
    fn default() -> (r: Self)
        ensures
            r@ == 0,
    {
        GFElem { value: 0 }
    }
}

/// Every element has an additive inverse, and subtracting an element from
/// itself gives zero: `a + (M - a if a != 0 else 0)` and `a - a` both reduce
/// to the zero residue.
pub proof fn lemma_additive_inverse(m: int, a: int)
    requires
        modulus_ok(m),
        0 <= a < m,
    ensures
        add_mod(m, a, (if a == 0 { 0int } else { m - a })) == 0,
        sub_mod(m, a, a) == 0,
{
    lemma_mod_self_0(m);
    lemma_small_mod(0, m as nat);
}

} // verus!
