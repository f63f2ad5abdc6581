//! The hidden-order backend's parameter set and its element type: two secret
//! safe primes, their public product `M`, the secret totient `Phi`, and a
//! public generator whose order modulo `M` has no small prime divisor.
//!
//! Parameters are an explicit immutable object, constructed once by
//! [`RsaGroupParams::generate`] and passed by shared reference; they are
//! never ambient state.

use vstd::prelude::*;
use vstd::arithmetic::power::{lemma_pow0, lemma_pow1, lemma_pow_adds, lemma_pow_positive, pow};
use vstd::arithmetic::power2::{lemma2_to64, lemma_pow2_strictly_increases, lemma_pow2_unfold, pow2};
use crate::ArithmeticError;
use crate::arith::{
    check_prime, divisor_exp, gcd, gcd_u64, is_prime, mod_add, mod_inverse, mod_mul, mod_pow,
    next_prime, pow_mod, sample_below, sqrt_floor, isqrt,
};

verus! {

/// The product, over the primes up to and including 131, of each prime
/// raised to its multiplicity in `phi`: the exponent that strips every
/// small prime factor from an element's order.  The bound takes in every
/// prime below 128 and the first one past it.
pub open spec fn small_prime_exp_product(phi: nat, c: nat) -> nat
    decreases 132 - c,
        when c <= 132
{
    if c >= 132 {
        1
    } else if is_prime(c) {
        (pow(c as int, divisor_exp(phi, c)) * small_prime_exp_product(phi, c + 1)) as nat
    } else {
        small_prime_exp_product(phi, c + 1)
    }
}

/// The multiplicity of `d` in `phi`, together with `d` raised to it.
fn prime_power_multiplicity(phi: u64, d: u64) -> (r: (u32, u64))
    requires
        phi >= 1,
        d >= 2,
    ensures
        r.0 == divisor_exp(phi as nat, d as nat),
        r.1 as int == pow(d as int, r.0 as nat),
        1 <= r.1 <= phi,
{
    let mut x: u64 = phi;
    let mut e: u32 = 0;
    let mut term: u64 = 1;
    proof {
        lemma_pow0(d as int);
        lemma2_to64();
    }
    while x % d == 0
        invariant
            d >= 2,
            phi >= 1,
            x >= 1,
            term >= 1,
            (term as int) * (x as int) == phi,
            divisor_exp(phi as nat, d as nat) == e + divisor_exp(x as nat, d as nat),
            term as int == pow(d as int, e as nat),
            pow2(e as nat) <= term,
        decreases x,
    {
        proof {
            vstd::arithmetic::div_mod::lemma_fundamental_div_mod(x as int, d as int);
            assert((term as int) * (d as int) * ((x / d) as int) == phi) by (nonlinear_arith)
                requires
                    (term as int) * (x as int) == phi,
                    x as int == (d as int) * ((x / d) as int),
            ;
            assert((term as int) * (d as int) <= phi) by (nonlinear_arith)
                requires
                    (term as int) * (d as int) * ((x / d) as int) == phi,
                    (x / d) as int >= 1,
                    term >= 1,
                    d >= 2,
            ;
            assert(pow(d as int, (e + 1) as nat) == pow(d as int, e as nat) * d) by {
                lemma_pow_adds(d as int, e as nat, 1);
                lemma_pow1(d as int);
            }
            assert(x as nat >= 1 && x as nat % (d as nat) == 0);
            assert(divisor_exp(x as nat, d as nat) == 1 + divisor_exp(
                (x / d) as nat,
                d as nat,
            ));
            // the exponent stays small: 2^e <= term <= phi < 2^64
            lemma2_to64();
            if e as nat >= 64 {
                if e as nat > 64 {
                    lemma_pow2_strictly_increases(64, e as nat);
                }
                assert(pow2(64) <= pow2(e as nat));
                assert(false);
            }
            lemma_pow2_unfold((e + 1) as nat);
            assert(2 * pow2(e as nat) <= (term as int) * (d as int)) by (nonlinear_arith)
                requires
                    pow2(e as nat) <= term,
                    d >= 2,
                    term >= 1,
            ;
            assert(1 <= (term as int) * (d as int)) by (nonlinear_arith)
                requires
                    term >= 1,
                    d >= 2,
            ;
        }
        x = x / d;
        e = e + 1;
        term = term * d;
    }
    proof {
        assert(divisor_exp(x as nat, d as nat) == 0);
        assert(term <= phi) by (nonlinear_arith)
            requires
                (term as int) * (x as int) == phi,
                x >= 1,
                term >= 0,
        ;
    }
    (e, term)
}

/// The exponent product over all primes up to 131; `None` only if the
/// running product left the machine range, which a divisor of `phi` cannot.
fn exp_product(phi: u64) -> (r: Option<u64>)
    requires
        phi >= 1,
    ensures
        r matches Some(x) ==> x as nat == small_prime_exp_product(phi as nat, 2),
{
    let mut acc: u64 = 1;
    let mut c: u64 = 2;
    while c < 132
        invariant
            2 <= c <= 132,
            phi >= 1,
            acc >= 1,
            (acc as nat) * small_prime_exp_product(phi as nat, c as nat)
                == small_prime_exp_product(phi as nat, 2),
        decreases 132 - c,
    {
        if check_prime(c) {
            let (e, term) = prime_power_multiplicity(phi, c);
            proof {
                vstd::arithmetic::mul::lemma_mul_upper_bound(
                    acc as int,
                    u64::MAX as int,
                    term as int,
                    u64::MAX as int,
                );
            }
            let wide: u128 = (acc as u128) * (term as u128);
            if wide > u64::MAX as u128 {
                return None;
            }
            proof {
                lemma_pow_positive(c as int, e as nat);
                let pw = pow(c as int, e as nat) as nat;
                let rest = small_prime_exp_product(phi as nat, (c + 1) as nat);
                assert(small_prime_exp_product(phi as nat, c as nat) == pw * rest);
                assert(wide >= 1) by (nonlinear_arith)
                    requires
                        wide == (acc as int) * (term as int),
                        acc >= 1,
                        term >= 1,
                ;
                assert(((acc as nat) * (term as nat)) * rest == (acc as nat) * (pw * rest))
                    by (nonlinear_arith)
                    requires
                        term as nat == pw,
                ;
            }
            acc = (wide) as u64;
        } else {
            proof {
                assert(small_prime_exp_product(phi as nat, c as nat)
                    == small_prime_exp_product(phi as nat, (c + 1) as nat));
            }
        }
        c = c + 1;
    }
    proof {
        assert(small_prime_exp_product(phi as nat, 132) == 1);
        assert((acc as nat) * 1 == acc as nat) by (nonlinear_arith);
    }
    Some(acc)
}

/// A safe prime in the right residue class, found by repeated `next_prime`
/// with a residue filter, strictly above `start` and below `2^32` so that
/// products of two of them stay exact in a machine word.
fn find_safe_prime(start: u64) -> (r: Option<u64>)
    requires
        start >= 3,
    ensures
        r matches Some(p) ==> start < p < 0x1_0000_0000 && is_prime(p as nat) && p % 4 == 3
            && is_prime(((p - 1) / 2) as nat),
{
    let mut c: u64 = start;
    while c < 0x1_0000_0000
        invariant
            start <= c,
        decreases 0x1_0000_0000 - c,
    {
        let p = match next_prime(c) {
            Some(p) => p,
            None => {
                return None;
            },
        };
        if p >= 0x1_0000_0000 {
            return None;
        }
        if p % 4 == 3 {
            if check_prime((p - 1) / 2) {
                return Some(p);
            }
        }
        c = p;
    }
    None
}

/// The hidden-order group's parameter set.  The two safe primes and the
/// totient are the group's secret; the modulus and the generator are
/// public.
pub struct RsaGroupParams {
    p: u64,
    q: u64,
    m: u64,
    phi: u64,
    g: u64,
}

impl RsaGroupParams {
    /// The public modulus `M = p * q`.
    pub closed spec fn modulus_val(&self) -> nat {
        self.m as nat
    }

    /// The secret totient `Phi = (p - 1) * (q - 1)`.
    pub closed spec fn phi_val(&self) -> nat {
        self.phi as nat
    }

    /// The public generator.
    pub closed spec fn gen_val(&self) -> nat {
        self.g as nat
    }

    /// The parameter invariant: both factors are safe primes of the right
    /// residue class, modulus and totient are their exact products, and the
    /// generator is a unit built by raising a sampled element to the small
    /// prime exponent product.
    pub closed spec fn wf(&self) -> bool {
        &&& is_prime(self.p as nat)
        &&& self.p % 4 == 3
        &&& is_prime(((self.p - 1) / 2) as nat)
        &&& is_prime(self.q as nat)
        &&& self.q % 4 == 3
        &&& is_prime(((self.q - 1) / 2) as nat)
        &&& 3 <= self.p < self.q < 0x1_0000_0000
        &&& self.m as int == (self.p as int) * (self.q as int)
        &&& self.phi as int == (self.p - 1) * (self.q - 1)
        &&& 2 <= self.phi
        &&& self.phi < self.m
        &&& self.g < self.m
        &&& gcd(self.g as nat, self.m as nat) == 1
        &&& exists|f: nat|
            f < self.m && self.g as int == pow_mod(
                f,
                small_prime_exp_product(self.phi as nat, 2),
                self.m as nat,
            )
    }

    /// The public facts a caller may use of a well-formed parameter set.
    pub proof fn lemma_wf(&self)
        requires
            self.wf(),
        ensures
            2 <= self.phi_val() < self.modulus_val() <= u64::MAX,
            self.gen_val() < self.modulus_val(),
            gcd(self.gen_val(), self.modulus_val()) == 1,
    {
    }

    /// Search the parameters: two safe primes, their products, and a
    /// generator.  `None` means the bounded search failed, which a caller
    /// treats as a fatal initialization error.
    pub fn generate() -> (r: Option<RsaGroupParams>)
        ensures
            r matches Some(ps) ==> ps.wf(),
    {
        let start: u64 = 0x7fffffff;
        let p = match find_safe_prime(start) {
            Some(p) => p,
            None => {
                return None;
            },
        };
        let q = match find_safe_prime(p) {
            Some(q) => q,
            None => {
                return None;
            },
        };
        proof {
            assert((p as int) * (q as int) < 0x1_0000_0000 * 0x1_0000_0000) by (nonlinear_arith)
                requires
                    p < 0x1_0000_0000,
                    q < 0x1_0000_0000,
            ;
            assert((p - 1 as int) * (q - 1 as int) < (p as int) * (q as int)) by (nonlinear_arith)
                requires
                    3 <= p,
                    3 <= q,
            ;
            assert(4 <= (p - 1 as int) * (q - 1 as int)) by (nonlinear_arith)
                requires
                    3 <= p,
                    3 <= q,
            ;
        }
        let m = p * q;
        let phi = (p - 1) * (q - 1);
        let g = match Self::find_generator(m, phi) {
            Some(g) => g,
            None => {
                return None;
            },
        };
        Some(RsaGroupParams { p, q, m, phi, g })
    }

    /// Sample an element coprime to the modulus, raise it to the small
    /// prime exponent product, and keep the result if it is a unit.
    fn find_generator(m: u64, phi: u64) -> (r: Option<u64>)
        requires
            2 <= phi < m,
        ensures
            r matches Some(g) ==> g < m && gcd(g as nat, m as nat) == 1 && exists|f: nat|
                f < m && g as int == pow_mod(f, small_prime_exp_product(phi as nat, 2), m as nat),
    {
        let mut tries: u64 = 0;
        while tries < 64
            invariant
                2 <= phi < m,
            decreases 64 - tries,
        {
            let f = sample_below(m - 1);
            if gcd_u64(f, m) == 1 {
                if let Some(exp) = exp_product(phi) {
                    let g = mod_pow(f, exp, m);
                    if gcd_u64(g, m) == 1 {
                        proof {
                            assert(f < m && g as int == pow_mod(
                                f as nat,
                                small_prime_exp_product(phi as nat, 2),
                                m as nat,
                            ));
                        }
                        return Some(g);
                    }
                }
            }
            tries = tries + 1;
        }
        None
    }

    /// The public modulus, as an integer.
    pub fn modulus(&self) -> (r: u64)
        ensures
            r as nat == self.modulus_val(),
    {
        self.m
    }

    /// The secret totient, for the party that owns the group secret.
    pub fn phi(&self) -> (r: u64)
        ensures
            r as nat == self.phi_val(),
    {
        self.phi
    }

    /// The public generator, as an integer.
    pub fn group_generator(&self) -> (r: u64)
        ensures
            r as nat == self.gen_val(),
    {
        self.g
    }
}

/// An element of the hidden-order group: a residue modulo `M`.
#[derive(Clone, Copy, Debug, PartialEq, Eq, Structural)]
pub struct Zqf {
    f: u64,
}

impl Zqf {
    /// The canonical representative.
    pub closed spec fn spec_value(&self) -> nat {
        self.f as nat
    }

    /// Reduced modulo the given group's modulus.
    pub open spec fn wf(&self, ps: &RsaGroupParams) -> bool {
        self.spec_value() < ps.modulus_val()
    }

    /// The element a given integer reduces to.
    pub fn from(n: u64, ps: &RsaGroupParams) -> (r: Zqf)
        requires
            ps.wf(),
        ensures
            r.wf(ps),
            r.spec_value() == (n as nat) % ps.modulus_val(),
    {
        proof {
            ps.lemma_wf();
        }
        Zqf { f: n % ps.modulus() }
    }

    pub fn to_big_int(&self) -> (r: u64)
        ensures
            r as nat == self.spec_value(),
    {
        self.f
    }

    pub fn zero() -> (r: Zqf)
        ensures
            r.spec_value() == 0,
    {
        Zqf { f: 0 }
    }

    /// The public constant of the element domain: the group's public
    /// modulus, never the secret totient.
    pub fn q(ps: &RsaGroupParams) -> (r: u64)
        ensures
            r as nat == ps.modulus_val(),
    {
        ps.modulus()
    }

    /// A fresh uniform draw from the exponent ring, strictly below
    /// `Phi - 1`.
    pub fn get_random_from_z_phi(ps: &RsaGroupParams) -> (r: Zqf)
        requires
            ps.wf(),
        ensures
            r.wf(ps),
            r.spec_value() < ps.phi_val() - 1,
    {
        proof {
            ps.lemma_wf();
        }
        Zqf { f: sample_below(ps.phi() - 1) }
    }

    /// The multiplicity of `divisor` in the secret totient.
    pub fn get_divisor_exp_in_phi(divisor: u64, ps: &RsaGroupParams) -> (r: u32)
        requires
            ps.wf(),
            divisor >= 2,
        ensures
            r == divisor_exp(ps.phi_val(), divisor as nat),
    {
        proof {
            ps.lemma_wf();
        }
        let (e, _term) = prime_power_multiplicity(ps.phi(), divisor);
        e
    }

    /// A generator free of small-order divisors: a sampled unit raised to
    /// the small prime exponent product.  `None` means the bounded sampling
    /// failed.
    pub fn get_element_order_without_small_divisor(ps: &RsaGroupParams) -> (r: Option<Zqf>)
        requires
            ps.wf(),
        ensures
            r matches Some(z) ==> z.wf(ps) && gcd(z.spec_value(), ps.modulus_val()) == 1
                && exists|f: nat|
                f < ps.modulus_val() && z.spec_value() as int == pow_mod(
                    f,
                    small_prime_exp_product(ps.phi_val(), 2),
                    ps.modulus_val(),
                ),
    {
        proof {
            ps.lemma_wf();
        }
        match RsaGroupParams::find_generator(ps.modulus(), ps.phi()) {
            Some(g) => Some(Zqf { f: g }),
            None => None,
        }
    }

    /// The scalar action on a group element: exponentiation modulo `M`.
    pub fn pow_mod_m(&self, e: u64, ps: &RsaGroupParams) -> (r: Zqf)
        requires
            ps.wf(),
        ensures
            r.wf(ps),
            r.spec_value() as int == pow_mod(self.spec_value(), e as nat, ps.modulus_val()),
    {
        proof {
            ps.lemma_wf();
        }
        Zqf { f: mod_pow(self.f, e, ps.modulus()) }
    }

    /// Exponentiation modulo the secret totient: a convenience for the
    /// party that knows the group order, never usable by a verifier.
    pub fn pow_mod_phi(&self, e: u64, ps: &RsaGroupParams) -> (r: Zqf)
        requires
            ps.wf(),
        ensures
            r.spec_value() as int == pow_mod(self.spec_value(), e as nat, ps.phi_val()),
            r.spec_value() < ps.phi_val(),
            r.wf(ps),
    {
        proof {
            ps.lemma_wf();
        }
        Zqf { f: mod_pow(self.f, e, ps.phi()) }
    }

    /// The integer square root of the representative, reduced modulo `M`.
    /// This is a correct modular square root only when the true root is
    /// itself below the modulus: a caller obligation, not hidden here.
    pub fn sqrt(&self, ps: &RsaGroupParams) -> (r: Zqf)
        requires
            ps.wf(),
        ensures
            r.wf(ps),
            r.spec_value() == sqrt_floor(self.spec_value()) % ps.modulus_val(),
    {
        proof {
            ps.lemma_wf();
        }
        Zqf { f: isqrt(self.f) % ps.modulus() }
    }

    /// The element squared.
    pub fn square(&self, ps: &RsaGroupParams) -> (r: Zqf)
        requires
            ps.wf(),
        ensures
            r.wf(ps),
            r.spec_value() as int == pow_mod(self.spec_value(), 2, ps.modulus_val()),
    {
        self.pow_mod_m(2, ps)
    }

    /// Fails with `NotInvertible` exactly when the element shares a factor
    /// with `M`; such a failure is cryptographically significant and is
    /// surfaced, never swallowed.
    pub fn invert(&self, ps: &RsaGroupParams) -> (r: Result<Zqf, ArithmeticError>)
        requires
            ps.wf(),
        ensures
            r is Ok <==> gcd(self.spec_value(), ps.modulus_val()) == 1,
            r matches Ok(x) ==> x.wf(ps) && (self.spec_value() * x.spec_value())
                % ps.modulus_val() == 1,
    {
        proof {
            ps.lemma_wf();
        }
        match mod_inverse(self.f, ps.modulus()) {
            Ok(x) => Ok(Zqf { f: x }),
            Err(e) => Err(e),
        }
    }

    pub fn mul(&self, other: &Zqf, ps: &RsaGroupParams) -> (r: Zqf)
        requires
            ps.wf(),
        ensures
            r.wf(ps),
            r.spec_value() == (self.spec_value() * other.spec_value()) % ps.modulus_val(),
    {
        proof {
            ps.lemma_wf();
        }
        Zqf { f: mod_mul(self.f, other.f, ps.modulus()) }
    }

    pub fn add(&self, other: &Zqf, ps: &RsaGroupParams) -> (r: Zqf)
        requires
            ps.wf(),
        ensures
            r.wf(ps),
            r.spec_value() == (self.spec_value() + other.spec_value()) % ps.modulus_val(),
    {
        proof {
            ps.lemma_wf();
        }
        Zqf { f: mod_add(self.f, other.f, ps.modulus()) }
    }
}

} // verus!
