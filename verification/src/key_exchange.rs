//! Diffie-Hellman agreement on the secret number of a client and the server.

use vstd::prelude::*;
use vstd::arithmetic::power::{pow, lemma_pow_mod_noop, lemma_pow_multiplies};
use vstd::arithmetic::mul::lemma_mul_is_commutative;
use num_bigint::ToBigUint;
use num_traits::cast::ToPrimitive;

verus! {

/// `base` to the power `exponent`, modulo `modulus`.
pub open spec fn mod_pow(base: int, exponent: nat, modulus: int) -> int {
    pow(base, exponent) % modulus
}

/// Calls num-bigint's `BigUint::modpow` on the three numbers widened to `BigUint`
/// and narrows the result back to `u32`. Its documentation says that it returns
/// `(self ^ exponent) % modulus` and panics on a zero modulus; the result is below
/// the modulus, so it fits in `u32`.
#[verifier::external_body]
fn big_mod_pow(base: u32, exponent: u32, modulus: u32) -> (r: u32)
    requires
        modulus > 0,
    ensures
        r == mod_pow(base as int, exponent as nat, modulus as int),
{
    let b = ToBigUint::to_biguint(&base).unwrap();
    let e = ToBigUint::to_biguint(&exponent).unwrap();
    let m = ToBigUint::to_biguint(&modulus).unwrap();
    b.modpow(&e, &m).to_u32().unwrap()
}

/// Draws a private number with rand's `random`. Nothing is claimed of the number:
/// it comes from the thread's random generator.
#[verifier::external_body]
pub fn generate_private_number() -> (n: u32) {
    rand::random()
}

/// The public number of a party with private number `a`: `g^a mod p`.
pub fn generate_public_number(p: u32, g: u32, a: u32) -> (public: u32)
    requires
        p > 0,
    ensures
        public == mod_pow(g as int, a as nat, p as int),
{
    big_mod_pow(g, a, p)
}

/// The shared secret from the other party's public number: `public^private mod p`.
pub fn find_secret(public: u32, private: u32, p: u32) -> (secret: u32)
    requires
        p > 0,
    ensures
        secret == mod_pow(public as int, private as nat, p as int),
{
    big_mod_pow(public, private, p)
}

/// Both parties of the exchange find the same secret: the secret that one finds
/// from the other's public number equals the secret the other finds from its own,
/// and both are `g^(a*b) mod p`.
pub proof fn lemma_shared_secret_agrees(p: u32, g: u32, a: u32, b: u32)
    requires
        p > 0,
    ensures
        mod_pow(mod_pow(g as int, a as nat, p as int), b as nat, p as int)
            == mod_pow(mod_pow(g as int, b as nat, p as int), a as nat, p as int),
        mod_pow(mod_pow(g as int, a as nat, p as int), b as nat, p as int)
            == mod_pow(g as int, (a * b) as nat, p as int),
{
    let gi = g as int;
    let m = p as int;
    lemma_pow_mod_noop(pow(gi, a as nat), b as nat, m);
    lemma_pow_mod_noop(pow(gi, b as nat), a as nat, m);
    lemma_pow_multiplies(gi, a as nat, b as nat);
    lemma_pow_multiplies(gi, b as nat, a as nat);
    lemma_mul_is_commutative(a as int, b as int);
}

} // verus!
