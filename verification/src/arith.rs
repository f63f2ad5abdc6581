//! Modular big-integer operations required by every group backend: modular
//! add/sub/mul/pow, modular inverse, primality testing, integer square root
//! and uniform sampling below a bound.
//!
//! Residues are held in `u64`; intermediate products are computed in `u128`,
//! so any modulus up to `u64::MAX` is supported exactly.

use vstd::prelude::*;
use vstd::calc;
use vstd::arithmetic::div_mod::{
    lemma_mod_add_multiples_vanish, lemma_mod_multiples_vanish, lemma_mod_self_0,
    lemma_mul_mod_noop_general, lemma_small_mod, lemma_sub_mod_noop, lemma_sub_mod_noop_right,
};
use vstd::arithmetic::mul::{
    lemma_mul_is_associative, lemma_mul_is_commutative, lemma_mul_is_distributive_sub,
    lemma_mul_upper_bound,
};
use vstd::arithmetic::power::{
    lemma_pow0, lemma_pow1, lemma_pow_adds, lemma_pow_mod_noop, lemma_pow_multiplies,
    lemma_pow_positive, lemma_square_is_pow2, pow,
};

verus! {

/// Greatest common divisor, by Euclid's recursion.
pub open spec fn gcd(a: nat, b: nat) -> nat
    decreases b,
{
    if b == 0 {
        a
    } else {
        gcd(b, a % b)
    }
}

/// Euclid's algorithm.
pub fn gcd_u64(a: u64, b: u64) -> (r: u64)
    ensures
        r == gcd(a as nat, b as nat),
{
    let mut x: u64 = a;
    let mut y: u64 = b;
    while y != 0
        invariant
            gcd(x as nat, y as nat) == gcd(a as nat, b as nat),
        decreases y,
    {
        let t: u64 = x % y;
        x = y;
        y = t;
    }
    x
}

/// `(a + b) % m`.
pub fn mod_add(a: u64, b: u64, m: u64) -> (r: u64)
    requires
        m >= 1,
    ensures
        r == (a + b) % (m as int),
        r < m,
{
    let s: u128 = a as u128 + b as u128;
    (s % m as u128) as u64
}

/// `(a - b) % m`, for operands already reduced.
pub fn mod_sub(a: u64, b: u64, m: u64) -> (r: u64)
    requires
        m >= 1,
        a < m,
        b < m,
    ensures
        r == (a - b) % (m as int),
        r < m,
{
    let s: u128 = a as u128 + m as u128 - b as u128;
    let r: u64 = (s % m as u128) as u64;
    proof {
        lemma_mod_add_multiples_vanish(a - b, m as int);
    }
    r
}

/// `(a * b) % m`.
pub fn mod_mul(a: u64, b: u64, m: u64) -> (r: u64)
    requires
        m >= 1,
    ensures
        r == (a * b) % (m as int),
        r < m,
{
    proof {
        lemma_mul_upper_bound(a as int, u64::MAX as int, b as int, u64::MAX as int);
    }
    let p: u128 = a as u128 * b as u128;
    (p % m as u128) as u64
}

/// `pow(b, e) % m`, the mathematical meaning of modular exponentiation.
pub open spec fn pow_mod(b: nat, e: nat, m: nat) -> int {
    pow(b as int, e) % (m as int)
}

/// One step of the square-and-multiply invariant: with the base squared and
/// the exponent halved, the running product still accounts for the whole
/// power.
proof fn lemma_pow_mod_step(acc: int, b: int, k: nat, m: int)
    requires
        m >= 1,
        b >= 0,
        acc >= 0,
    ensures
        k % 2 == 1 ==> (((acc * b) % m) * pow((b * b) % m, (k / 2) as nat)) % m == (acc * pow(
            b,
            k,
        )) % m,
        k % 2 == 0 ==> (acc * pow((b * b) % m, (k / 2) as nat)) % m == (acc * pow(b, k)) % m,
{
    let j = (k / 2) as nat;
    lemma_square_is_pow2(b);
    lemma_pow_multiplies(b, 2, j);
    assert(pow((b * b) % m, j) % m == pow(b * b, j) % m) by {
        lemma_pow_mod_noop(b * b, j, m);
    }
    assert(pow(b * b, j) == pow(b, 2 * j));
    if k % 2 == 1 {
        assert(k == 2 * j + 1);
        assert(pow(b, k) == pow(b, 2 * j) * b) by {
            lemma_pow_adds(b, 2 * j, 1);
            lemma_pow1(b);
        }
        calc! {
            (==)
            (((acc * b) % m) * pow((b * b) % m, j)) % m; {
                lemma_mul_mod_noop_general(acc * b, pow((b * b) % m, j), m);
            }
            ((acc * b) * (pow((b * b) % m, j) % m)) % m; {}
            ((acc * b) * (pow(b * b, j) % m)) % m; {
                lemma_mul_mod_noop_general(acc * b, pow(b, 2 * j), m);
            }
            ((acc * b) * pow(b, 2 * j)) % m; {
                lemma_mul_is_associative(acc, b, pow(b, 2 * j));
                lemma_mul_is_associative(acc, pow(b, 2 * j), b);
                assert(b * pow(b, 2 * j) == pow(b, 2 * j) * b);
            }
            (acc * pow(b, k)) % m;
        }
    } else {
        assert(k == 2 * j);
        calc! {
            (==)
            (acc * pow((b * b) % m, j)) % m; {
                lemma_mul_mod_noop_general(acc, pow((b * b) % m, j), m);
            }
            (acc * (pow(b * b, j) % m)) % m; {
                lemma_mul_mod_noop_general(acc, pow(b, 2 * j), m);
            }
            (acc * pow(b, k)) % m;
        }
    }
}

/// Exponentiation composes at integer exponents: raising a reduced power to
/// a further exponent is raising the base to the product.  No reduction of
/// the exponent by a group order is involved.
pub proof fn lemma_pow_mod_compose(b: nat, a: nat, e: nat, m: nat)
    requires
        m >= 1,
    ensures
        pow_mod((pow_mod(b, a, m) as nat), e, m) == pow_mod(b, a * e, m),
{
    if b == 0 {
        if a > 0 {
            vstd::arithmetic::power::lemma0_pow(a);
        } else {
            lemma_pow0(0int);
        }
    } else {
        lemma_pow_positive(b as int, a);
    }
    vstd::arithmetic::div_mod::lemma_mod_bound(pow(b as int, a), m as int);
    lemma_pow_mod_noop(pow(b as int, a), e, m as int);
    lemma_pow_multiplies(b as int, a, e);
}

/// Powers of one base multiply at integer exponents: the product of two
/// reduced powers is the power at the summed exponent.
pub proof fn lemma_pow_mod_adds(b: nat, a: nat, e: nat, m: nat)
    requires
        m >= 1,
    ensures
        ((pow_mod(b, a, m) * pow_mod(b, e, m)) % (m as int)) == pow_mod(b, a + e, m),
{
    lemma_mul_mod_noop_general(pow(b as int, a), pow(b as int, e), m as int);
    lemma_pow_adds(b as int, a, e);
}

/// Modular exponentiation by square-and-multiply.
pub fn mod_pow(base: u64, e: u64, m: u64) -> (r: u64)
    requires
        m >= 1,
    ensures
        r == pow_mod(base as nat, e as nat, m as nat),
        r < m,
{
    let mut acc: u64 = 1 % m;
    let mut b: u64 = base % m;
    let mut k: u64 = e;
    proof {
        lemma_pow_mod_noop(base as int, e as nat, m as int);
        lemma_mul_mod_noop_general(1, pow(b as int, e as nat), m as int);
        assert((1 * pow(b as int, e as nat)) == pow(b as int, e as nat));
        assert(((1int % m as int) * pow(b as int, k as nat)) % (m as int) == pow_mod(
            base as nat,
            e as nat,
            m as nat,
        ));
    }
    while k > 0
        invariant
            m >= 1,
            acc < m,
            b < m,
            ((acc as int) * pow(b as int, k as nat)) % (m as int) == pow_mod(
                base as nat,
                e as nat,
                m as nat,
            ),
        decreases k,
    {
        proof {
            lemma_pow_mod_step(acc as int, b as int, k as nat, m as int);
        }
        if k % 2 == 1 {
            acc = mod_mul(acc, b, m);
        }
        b = mod_mul(b, b, m);
        k = k / 2;
    }
    proof {
        lemma_pow0(b as int);
        assert((acc as int) * 1 == acc as int);
        lemma_small_mod(acc as nat, m as nat);
    }
    acc
}

/// The congruence `a * t == r (mod m)` survives one step of Euclid's
/// algorithm when the coefficient is updated as `t1 - q * t2 (mod m)`.
proof fn lemma_euclid_coeff_step(a: int, t1: int, t2: int, r1: int, r2: int, q: int, m: int)
    requires
        m >= 1,
        (a * t1) % m == r1 % m,
        (a * t2) % m == r2 % m,
    ensures
        (a * ((t1 - (q * t2) % m) % m)) % m == (r1 - q * r2) % m,
{
    calc! {
        (==)
        (a * ((t1 - (q * t2) % m) % m)) % m; {
            lemma_mul_mod_noop_general(a, (t1 - (q * t2) % m), m);
        }
        (a * ((t1 - (q * t2) % m))) % m; {
            lemma_sub_mod_noop_right(t1, q * t2, m);
            lemma_mul_mod_noop_general(a, t1 - q * t2, m);
            lemma_mul_mod_noop_general(a, (t1 - q * t2) % m, m);
        }
        (a * (t1 - q * t2)) % m; {
            lemma_mul_is_distributive_sub(a, t1, q * t2);
            lemma_mul_is_associative(a, q, t2);
            lemma_mul_is_commutative(a, q);
            lemma_mul_is_associative(q, a, t2);
        }
        (a * t1 - q * (a * t2)) % m; {
            lemma_sub_mod_noop(a * t1, q * (a * t2), m);
            lemma_mul_mod_noop_general(q, a * t2, m);
            lemma_mul_mod_noop_general(q, r2, m);
            lemma_sub_mod_noop(r1, q * r2, m);
        }
        (r1 - q * r2) % m;
    }
}

/// Modular inverse by the extended Euclidean algorithm, with the Bezout
/// coefficient kept reduced modulo `m` throughout.  Succeeds exactly when the
/// operand is coprime to the modulus.
pub fn mod_inverse(a: u64, m: u64) -> (r: Result<u64, crate::ArithmeticError>)
    requires
        m >= 2,
    ensures
        gcd(a as nat, m as nat) == 1 <==> r is Ok,
        r matches Ok(x) ==> x < m && (a * x) % (m as int) == 1,
{
    let mut r1: u64 = a;
    let mut r2: u64 = m;
    let mut t1: u64 = 1;
    let mut t2: u64 = 0;
    proof {
        assert((a * 1) % (m as int) == (r1 as int) % (m as int));
        assert((a as int) * 0 == 0) by (nonlinear_arith);
        assert((a * 0) % (m as int) == (r2 as int) % (m as int)) by {
            lemma_mod_self_0(m as int);
        }
    }
    while r2 != 0
        invariant
            m >= 2,
            t1 < m,
            t2 < m,
            gcd(r1 as nat, r2 as nat) == gcd(a as nat, m as nat),
            (a * t1) % (m as int) == (r1 as int) % (m as int),
            (a * t2) % (m as int) == (r2 as int) % (m as int),
        decreases r2,
    {
        let q: u64 = r1 / r2;
        let r3: u64 = r1 % r2;
        let t3: u64 = mod_sub(t1, mod_mul(q, t2, m), m);
        proof {
            lemma_euclid_coeff_step(a as int, t1 as int, t2 as int, r1 as int, r2 as int,
                q as int, m as int);
            vstd::arithmetic::div_mod::lemma_fundamental_div_mod(r1 as int, r2 as int);
            lemma_mul_is_commutative(q as int, r2 as int);
            assert(r3 == r1 - (q as int) * (r2 as int));
        }
        r1 = r2;
        r2 = r3;
        t1 = t2;
        t2 = t3;
    }
    if r1 == 1 {
        proof {
            lemma_small_mod(1nat, m as nat);
        }
        Ok(t1)
    } else {
        Err(crate::ArithmeticError::NotInvertible)
    }
}

/// Bezout's identity, along Euclid's recursion: the greatest common divisor
/// is an integer combination of its arguments.
pub proof fn lemma_gcd_linear_combination(a: nat, b: nat)
    ensures
        exists|s: int, t: int| gcd(a, b) == #[trigger] (s * a) + #[trigger] (t * b),
    decreases b,
{
    if b == 0 {
        assert(1int * a + 0int * b == a) by (nonlinear_arith);
        assert(gcd(a, b) == (1int * a) + (0int * b));
    } else {
        lemma_gcd_linear_combination(b, a % b);
        let (s1, t1) = choose|s1: int, t1: int|
            gcd(b, a % b) == #[trigger] (s1 * b) + #[trigger] (t1 * (a % b));
        let q = a as int / b as int;
        vstd::arithmetic::div_mod::lemma_fundamental_div_mod(a as int, b as int);
        assert((a % b) as int == a - q * (b as int));
        assert((s1 * b) + (t1 * (a - q * (b as int))) == (t1 * a) + ((s1 - t1 * q) * b))
            by (nonlinear_arith);
        assert(gcd(a, b) == (t1 * a) + ((s1 - t1 * q) * b));
    }
}

/// Multiplication by a unit cancels modulo `m`: equal products with a
/// factor coprime to the modulus force equal residues.
pub proof fn lemma_mod_mul_cancel(g: nat, x: nat, y: nat, m: nat)
    requires
        m >= 1,
        gcd(g, m) == 1,
        ((g * x) as int) % (m as int) == ((g * y) as int) % (m as int),
    ensures
        x % m == y % m,
{
    lemma_gcd_linear_combination(g, m);
    let (s, t) = choose|s: int, t: int| gcd(g, m) == #[trigger] (s * g) + #[trigger] (t * m);
    let mi = m as int;
    assert(x as int == mi * (t * x) + s * ((g * x) as int)) by (nonlinear_arith)
        requires
            1 == (s * g) + (t * (m as int)),
            mi == m as int,
    ;
    assert(y as int == mi * (t * y) + s * ((g * y) as int)) by (nonlinear_arith)
        requires
            1 == (s * g) + (t * (m as int)),
            mi == m as int,
    ;
    lemma_mod_multiples_vanish(t * x, s * ((g * x) as int), mi);
    lemma_mod_multiples_vanish(t * y, s * ((g * y) as int), mi);
    lemma_mul_mod_noop_general(s, (g * x) as int, mi);
    lemma_mul_mod_noop_general(s, (g * y) as int, mi);
    assert(x as int % mi == (s * (((g * x) as int) % mi)) % mi);
    assert(y as int % mi == (s * (((g * y) as int) % mi)) % mi);
}

/// Primality, stated over all candidate divisors.
pub open spec fn is_prime(n: nat) -> bool {
    n >= 2 && forall|d: nat| 2 <= d < n ==> #[trigger] (n % d) != 0
}

/// If `n` has a divisor at all, it has one no larger than `n`'s square root.
proof fn lemma_divisor_pair(n: nat, k: nat, d: nat)
    requires
        n >= 2,
        2 <= k < n,
        n % k == 0,
        d >= 2,
        d * d > n,
        k >= d,
    ensures
        exists|e: nat| 2 <= e < d && #[trigger] (n % e) == 0,
{
    let e = n / k;
    vstd::arithmetic::div_mod::lemma_fundamental_div_mod(n as int, k as int);
    assert(n == k * e);
    assert(n % e == 0) by {
        vstd::arithmetic::div_mod::lemma_mod_multiples_basic(k as int, e as int);
    }
    assert(e >= 2) by (nonlinear_arith)
        requires
            n == k * e,
            2 <= k < n,
            n >= 2,
    ;
    assert(e < d) by (nonlinear_arith)
        requires
            n == k * e,
            k >= d,
            d * d > n,
            e >= 1,
            d >= 2,
    ;
    assert(2 <= e < d && n % e == 0);
}

/// Deterministic primality check by trial division up to the square root.
pub fn check_prime(n: u64) -> (r: bool)
    ensures
        r == is_prime(n as nat),
{
    if n < 2 {
        return false;
    }
    let mut d: u64 = 2;
    while d <= n / d
        invariant
            2 <= d,
            n >= 2,
            forall|k: nat| 2 <= k < d ==> #[trigger] ((n as nat) % k) != 0,
        decreases n - d,
    {
        proof {
            vstd::arithmetic::div_mod::lemma_div_is_ordered_by_denominator(n as int, 2, d as int);
            vstd::arithmetic::div_mod::lemma_fundamental_div_mod(n as int, 2);
            assert(d as int <= n as int / 2 <= n - 1);
        }
        if n % d == 0 {
            proof {
                let qq = n as int / d as int;
                vstd::arithmetic::div_mod::lemma_fundamental_div_mod(n as int, d as int);
                assert(n as int == d as int * qq);
                assert(d < n) by (nonlinear_arith)
                    requires
                        n as int == d as int * qq,
                        qq >= d as int,
                        d >= 2,
                ;
            }
            return false;
        }
        d = d + 1;
    }
    proof {
        let qq = n as int / d as int;
        vstd::arithmetic::div_mod::lemma_fundamental_div_mod(n as int, d as int);
        vstd::arithmetic::div_mod::lemma_div_pos_is_pos(n as int, d as int);
        assert((d as int) * (d as int) > n) by (nonlinear_arith)
            requires
                n as int == d as int * qq + (n as int) % (d as int),
                (n as int) % (d as int) < d,
                0 <= qq < d as int,
                d >= 2,
        ;
        assert forall|k: nat| 2 <= k < n as nat implies #[trigger] ((n as nat) % k) != 0 by {
            if k >= d as nat && (n as nat) % k == 0 {
                lemma_divisor_pair(n as nat, k, d as nat);
                let e = choose|e: nat| 2 <= e < d as nat && #[trigger] ((n as nat) % e) == 0;
                assert((n as nat) % e != 0);
            }
        }
    }
    true
}

/// The floor of the square root, defined by counting up.
pub open spec fn sqrt_floor(n: nat) -> nat
    decreases n,
{
    if n == 0 {
        0
    } else {
        let s = sqrt_floor((n - 1) as nat);
        if (s + 1) * (s + 1) <= n {
            s + 1
        } else {
            s
        }
    }
}

/// `sqrt_floor` really is the integer square root.
pub proof fn lemma_sqrt_floor_bounds(n: nat)
    ensures
        sqrt_floor(n) * sqrt_floor(n) <= n,
        n < (sqrt_floor(n) + 1) * (sqrt_floor(n) + 1),
    decreases n,
{
    if n == 0 {
        assert(sqrt_floor(0nat) == 0);
        assert((sqrt_floor(0nat) + 1) * (sqrt_floor(0nat) + 1) == 1) by (nonlinear_arith)
            requires
                sqrt_floor(0nat) == 0,
        ;
    } else {
        lemma_sqrt_floor_bounds((n - 1) as nat);
        let s = sqrt_floor((n - 1) as nat);
        assert(s * s <= n - 1);
        assert(n - 1 < (s + 1) * (s + 1));
        if (s + 1) * (s + 1) <= n {
            assert(sqrt_floor(n) == s + 1);
            assert(sqrt_floor(n) * sqrt_floor(n) <= n);
            assert(n < (s + 2) * (s + 2)) by (nonlinear_arith)
                requires
                    n <= (s + 1) * (s + 1),
            ;
            assert((sqrt_floor(n) + 1) * (sqrt_floor(n) + 1) == (s + 2) * (s + 2));
        } else {
            assert(sqrt_floor(n) == s);
            assert(sqrt_floor(n) * sqrt_floor(n) <= n);
            assert(n < (sqrt_floor(n) + 1) * (sqrt_floor(n) + 1));
        }
    }
}

/// Integer square root by binary search.
pub fn isqrt(n: u64) -> (r: u64)
    ensures
        r == sqrt_floor(n as nat),
{
    let mut lo: u64 = 0;
    let mut hi: u64 = 0x1_0000_0000;
    while lo + 1 < hi
        invariant
            lo < hi,
            hi <= 0x1_0000_0000,
            (lo as int) * (lo as int) <= n,
            n < (hi as int) * (hi as int),
        decreases hi - lo,
    {
        let mid: u64 = lo + (hi - lo) / 2;
        proof {
            assert((mid as int) * (mid as int) <= 0x1_0000_0000 * 0x1_0000_0000)
                by (nonlinear_arith)
                requires
                    mid <= 0x1_0000_0000,
            ;
        }
        let sq: u128 = (mid as u128) * (mid as u128);
        if sq <= n as u128 {
            lo = mid;
        } else {
            hi = mid;
        }
    }
    proof {
        lemma_sqrt_floor_bounds(n as nat);
        let s = sqrt_floor(n as nat);
        assert(lo == s) by (nonlinear_arith)
            requires
                (lo as int) * (lo as int) <= n,
                n < (lo + 1) * (lo + 1),
                s * s <= n,
                n < (s + 1) * (s + 1),
                lo >= 0,
                s >= 0,
        ;
    }
    lo
}

/// How often `d` divides `n`.
pub open spec fn divisor_exp(n: nat, d: nat) -> nat
    decreases n,
        via divisor_exp_decreases
{
    if n == 0 || d <= 1 || n % d != 0 {
        0
    } else {
        1 + divisor_exp(n / d, d)
    }
}

#[via_fn]
proof fn divisor_exp_decreases(n: nat, d: nat) {
    if !(n == 0 || d <= 1 || n % d != 0) {
        vstd::arithmetic::div_mod::lemma_div_decreases(n as int, d as int);
    }
}

/// Relies on rand::random with the thread-local cryptographically secure
/// generator: one machine word; nothing further is promised of its value.
#[verifier::external_body]
fn random_u64() -> u64 {
    rand::random::<u64>()
}

/// A uniform draw below `bound`, by rejection sampling over whole machine
/// words.  After 128 rejected draws (probability at most `2^-128`) the last
/// draw is folded down; the result is statistically close to uniform.
pub fn sample_below(bound: u64) -> (r: u64)
    requires
        bound >= 1,
    ensures
        r < bound,
{
    let zone: u64 = u64::MAX - (u64::MAX % bound);
    let mut tries: u64 = 0;
    while tries < 128
        invariant
            bound >= 1,
        decreases 128 - tries,
    {
        let draw: u64 = random_u64();
        if draw < zone {
            return draw % bound;
        }
        tries = tries + 1;
    }
    random_u64() % bound
}

/// Relies on zeroize::Zeroize for u64: the word is overwritten with zero
/// through a volatile write the optimizer cannot elide.
#[verifier::external_body]
pub fn wipe_u64(x: &mut u64)
    ensures
        *final(x) == 0,
{
    zeroize::Zeroize::zeroize(x);
}

/// The next prime after `n`, scanning a bounded window; `None` only if the
/// window holds no prime, or lies beyond the machine range (a caller
/// treats either as a parameter-search failure).
pub fn next_prime(n: u64) -> (r: Option<u64>)
    ensures
        r matches Some(p) ==> p > n && is_prime(p as nat) && forall|k: nat|
            n < k < p ==> !is_prime(k),
        r is None ==> n >= u64::MAX - 100000 || forall|k: nat|
            n < k <= n + 100000 ==> !is_prime(k),
{
    if n >= u64::MAX - 100000 {
        return None;
    }
    let mut c: u64 = n + 1;
    let limit: u64 = n + 100000;
    while c <= limit
        invariant
            n < c <= limit + 1,
            limit < u64::MAX,
            forall|k: nat| n < k < c ==> !is_prime(k),
        decreases limit + 1 - c,
    {
        if check_prime(c) {
            return Some(c);
        }
        c = c + 1;
    }
    None
}

} // verus!
