//! The public parameters of the key exchange: a prime modulus and a generator.

use vstd::prelude::*;
use vstd::arithmetic::div_mod::{lemma_fundamental_div_mod, lemma_div_decreases, lemma_mod_self_0, lemma_small_mod};
use vstd::arithmetic::mul::{lemma_mul_is_associative};
use vstd::arithmetic::power::{pow, lemma_pow_increases};
use primes::PrimeSet;

verus! {

/// The least divisor of `n` that is at least `d`, or `n` itself where `n <= d`.
pub open spec fn least_divisor_from(n: nat, d: nat) -> nat
    decreases n - d,
{
    if d >= n {
        n
    } else if n % d == 0 {
        d
    } else {
        least_divisor_from(n, d + 1)
    }
}

/// `n` is prime.
pub open spec fn is_prime(n: nat) -> bool {
    n >= 2 && forall|d: nat| 2 <= d < n ==> #[trigger] (n % d) != 0
}

/// The least divisor of `n` from `d` lies in `[d, n]`, divides `n`, and no number
/// between `d` and it divides `n`.
pub proof fn lemma_least_divisor_from(n: nat, d: nat)
    requires
        2 <= d <= n,
    ensures
        d <= least_divisor_from(n, d) <= n,
        n % least_divisor_from(n, d) == 0,
        forall|k: nat| d <= k < least_divisor_from(n, d) ==> #[trigger] (n % k) != 0,
    decreases n - d,
{
    if d >= n {
        lemma_mod_self_0(n as int);
    } else if n % d == 0 {
    } else {
        lemma_least_divisor_from(n, d + 1);
    }
}

/// Where `n` has no divisor in `[d, c)` and `c` divides `n`, the least divisor of
/// `n` from `d` is `c`.
proof fn lemma_least_divisor_is(n: nat, d: nat, c: nat)
    requires
        2 <= d <= c <= n,
        n % c == 0,
        forall|k: nat| d <= k < c ==> #[trigger] (n % k) != 0,
    ensures
        least_divisor_from(n, d) == c,
    decreases c - d,
{
    if d < c {
        assert(n % d != 0);
        lemma_least_divisor_is(n, d + 1, c);
    }
}

/// The prime factors of `n` in increasing order, each as often as it divides `n`.
pub open spec fn prime_factorization(n: nat) -> Seq<nat>
    decreases n,
{
    if n <= 1 {
        seq![]
    } else {
        let f = least_divisor_from(n, 2);
        proof {
            lemma_least_divisor_from(n, 2);
            lemma_div_decreases(n as int, f as int);
        }
        seq![f] + prime_factorization(n / f)
    }
}

/// `d` divides `b` and `b` divides `a`, so `d` divides `a`.
proof fn lemma_divides_transitive(a: int, b: int, d: int)
    requires
        a >= 0,
        b > 0,
        d > 0,
        a % b == 0,
        b % d == 0,
    ensures
        a % d == 0,
{
    lemma_fundamental_div_mod(a, b);
    lemma_fundamental_div_mod(b, d);
    let q1 = a / b;
    let q2 = b / d;
    assert(a == d * (q2 * q1)) by {
        lemma_mul_is_associative(d, q2, q1);
    }
    assert((d * (q2 * q1)) % d == 0) by (nonlinear_arith)
        requires
            d > 0,
    ;
}

/// A sequence of `u64` read as natural numbers.
pub open spec fn as_nats(s: Seq<u64>) -> Seq<nat> {
    s.map_values(|x: u64| x as nat)
}

/// Splits `p_minus` into its prime factors by trial division, smallest first.
pub fn find_prime_factors(p_minus: u64) -> (factors: Vec<u64>)
    ensures
        as_nats(factors@) == prime_factorization(p_minus as nat),
        forall|i: int| 0 <= i < factors@.len() ==> is_prime(#[trigger] factors@[i] as nat),
        forall|i: int, j: int| 0 <= i <= j < factors@.len() ==> factors@[i] <= factors@[j],
        p_minus >= 1 ==> product(as_nats(factors@)) == p_minus,
        forall|q: nat| p_minus >= 1 && is_prime(q) && (p_minus as nat) % q == 0
            ==> #[trigger] as_nats(factors@).contains(q),
{
    proof {
        lemma_prime_factorization(p_minus as nat);
    }
    let mut number = p_minus;
    let mut prime_numbers = Vec::<u64>::new();
    let mut candidate: u64 = 2;

    while number > 1
        invariant
            2 <= candidate,
            as_nats(prime_numbers@) + prime_factorization(number as nat)
                == prime_factorization(p_minus as nat),
            number > 1 ==> candidate <= number,
            number > 1 ==> forall|k: nat| 2 <= k < candidate ==> #[trigger] ((number as nat) % k) != 0,
        decreases (if number > 1 { number - candidate + 1 } else { 0 }),
    {
        let ghost n0 = number;
        while number % candidate == 0
            invariant
                2 <= candidate <= n0,
                1 <= number <= n0,
                as_nats(prime_numbers@) + prime_factorization(number as nat)
                    == prime_factorization(p_minus as nat),
                forall|k: nat| 2 <= k < candidate ==> #[trigger] ((number as nat) % k) != 0,
            decreases number,
        {
            assert(number >= candidate) by {
                if number < candidate {
                    lemma_small_mod(number as nat, candidate as nat);
                }
            }
            proof {
                lemma_least_divisor_is(number as nat, 2, candidate as nat);
                lemma_fundamental_div_mod(number as int, candidate as int);
                lemma_div_decreases(number as int, candidate as int);
                let q = (number / candidate) as nat;
                assert(q >= 1) by (nonlinear_arith)
                    requires
                        number as int == candidate * q + 0,
                        number >= 1,
                ;
                assert forall|k: nat| 2 <= k < candidate implies #[trigger] (q % k) != 0 by {
                    if q % k == 0 {
                        assert((number as int) % (q as int) == 0) by (nonlinear_arith)
                            requires
                                number as int == candidate * q,
                                q > 0,
                        ;
                        lemma_divides_transitive(number as int, q as int, k as int);
                    }
                }
            }
            let ghost old_factors = prime_numbers@;
            prime_numbers.push(candidate);
            number = number / candidate;
            assert(as_nats(prime_numbers@) =~= as_nats(old_factors) + seq![candidate as nat]);
        }
        assert(candidate < u64::MAX) by {
            if candidate == u64::MAX {
                assert(n0 == u64::MAX);
                assert((n0 as nat) % 3 == 0);
            }
        }
        candidate += 1;
        if number > 1 {
            assert(candidate <= number) by {
                if number < candidate {
                    lemma_mod_self_0(number as int);
                    assert((number as nat) % (number as nat) == 0);
                }
            }
        }
    }
    assert(as_nats(prime_numbers@) =~= prime_factorization(p_minus as nat));
    assert forall|q: nat| p_minus >= 1 && is_prime(q) && (p_minus as nat) % q == 0
        implies #[trigger] as_nats(prime_numbers@).contains(q) by {
        lemma_factorization_lists_every_prime_divisor(p_minus as nat, q);
    }
    assert forall|i: int| 0 <= i < prime_numbers@.len() implies is_prime(#[trigger] prime_numbers@[i] as nat) by {
        assert(as_nats(prime_numbers@)[i] == prime_numbers@[i] as nat);
    }
    assert forall|i: int, j: int| 0 <= i <= j < prime_numbers@.len() implies prime_numbers@[i] <= prime_numbers@[j] by {
        assert(as_nats(prime_numbers@)[i] == prime_numbers@[i] as nat);
        assert(as_nats(prime_numbers@)[j] == prime_numbers@[j] as nat);
    }
    prime_numbers
}

/// The product of a sequence of natural numbers.
pub open spec fn product(s: Seq<nat>) -> nat
    decreases s.len(),
{
    if s.len() == 0 {
        1
    } else {
        s[0] * product(s.drop_first())
    }
}

/// The prime factorization of `n` holds primes only, in increasing order, and
/// (for `n >= 1`) multiplies back to `n`.
pub proof fn lemma_prime_factorization(n: nat)
    ensures
        forall|i: int| 0 <= i < prime_factorization(n).len() ==> is_prime(#[trigger] prime_factorization(n)[i]),
        forall|i: int, j: int| 0 <= i <= j < prime_factorization(n).len()
            ==> prime_factorization(n)[i] <= prime_factorization(n)[j],
        n >= 1 ==> product(prime_factorization(n)) == n,
        forall|i: int| 0 <= i < prime_factorization(n).len() ==> (n % #[trigger] prime_factorization(n)[i]) == 0,
    decreases n,
{
    if n > 1 {
        let f = least_divisor_from(n, 2);
        lemma_least_divisor_from(n, 2);
        lemma_div_decreases(n as int, f as int);
        let m = n / f;
        lemma_prime_factorization(m);
        let rest = prime_factorization(m);
        let all = prime_factorization(n);
        assert(all == seq![f] + rest);
        lemma_fundamental_div_mod(n as int, f as int);
        assert(n == f * m);
        assert(m >= 1) by (nonlinear_arith)
            requires
                n == f * m,
                n > 1,
        ;
        assert(m % m == 0) by {
            lemma_mod_self_0(m as int);
        }
        assert(n % m == 0) by (nonlinear_arith)
            requires
                n == f * m,
                m >= 1,
        ;
        // the least divisor is prime
        assert forall|d: nat| 2 <= d < f implies #[trigger] (f % d) != 0 by {
            if f % d == 0 {
                lemma_divides_transitive(n as int, f as int, d as int);
            }
        }
        // every factor of m divides n
        assert forall|i: int| 0 <= i < rest.len() implies (n % #[trigger] rest[i]) == 0 by {
            lemma_divides_transitive(n as int, m as int, rest[i] as int);
        }
        // every factor of m is at least f
        assert forall|i: int| 0 <= i < rest.len() implies f <= #[trigger] rest[i] by {
            assert(is_prime(rest[i]));
            assert(n % rest[i] == 0);
            if rest[i] < f {
                assert(n % rest[i] != 0);
            }
        }
        assert forall|i: int| 0 <= i < all.len() implies is_prime(#[trigger] all[i]) by {
            if i > 0 {
                assert(all[i] == rest[i - 1]);
            }
        }
        assert forall|i: int| 0 <= i < all.len() implies (n % #[trigger] all[i]) == 0 by {
            if i > 0 {
                assert(all[i] == rest[i - 1]);
            }
        }
        assert forall|i: int, j: int| 0 <= i <= j < all.len() implies all[i] <= all[j] by {
            if i > 0 {
                assert(all[i] == rest[i - 1]);
                assert(all[j] == rest[j - 1]);
            } else if j > 0 {
                assert(all[j] == rest[j - 1]);
            }
        }
        assert(all.drop_first() =~= rest);
        assert(product(all) == f * product(rest));
    } else if n == 1 {
        assert(product(prime_factorization(n)) == 1);
    }
}

/// Euclid's lemma: a prime that divides a product divides one of its factors.
pub proof fn lemma_prime_divides_product(q: nat, a: nat, b: nat)
    requires
        is_prime(q),
        (a * b) % q == 0,
    ensures
        a % q == 0 || b % q == 0,
    decreases a,
{
    if a % q != 0 {
        let a1 = a % q;
        assert((a1 * b) % q == 0) by {
            vstd::arithmetic::div_mod::lemma_mul_mod_noop_left(a as int, b as int, q as int);
        }
        assert(0 < a1 < q) by {
            vstd::arithmetic::div_mod::lemma_mod_bound(a as int, q as int);
        }
        assert(a1 <= a) by {
            vstd::arithmetic::div_mod::lemma_mod_decreases(a, q);
        }
        if a1 == 1 {
            assert(a1 * b == b) by (nonlinear_arith)
                requires
                    a1 == 1,
            ;
        } else {
            let k = q / a1;
            let r = q % a1;
            lemma_fundamental_div_mod(q as int, a1 as int);
            assert(r != 0) by {
                assert(q % a1 != 0);
            }
            assert(0 < r < a1) by {
                vstd::arithmetic::div_mod::lemma_mod_bound(q as int, a1 as int);
            }
            let m = (a1 * b) / q;
            lemma_fundamental_div_mod((a1 * b) as int, q as int);
            assert((r * b) % q == 0) by (nonlinear_arith)
                requires
                    q == a1 * k + r,
                    a1 * b == q * m + 0,
                    q > 0,
                    r >= 0,
                    b >= 0,
            {
                assert(r * b == q * b - k * (a1 * b));
                assert(r * b == q * (b - k * m));
                assert(b - k * m >= 0) by {
                    if b - k * m < 0 {
                        assert(q * (b - k * m) < 0);
                    }
                }
                vstd::arithmetic::div_mod::lemma_mod_multiples_basic(b - k * m, q as int);
            }
            lemma_prime_divides_product(q, r, b);
            assert(r % q == r) by {
                lemma_small_mod(r, q);
            }
        }
    }
}

/// The prime factorization of `n` lists every prime that divides `n`.
pub proof fn lemma_factorization_lists_every_prime_divisor(n: nat, q: nat)
    requires
        n >= 1,
        is_prime(q),
        n % q == 0,
    ensures
        prime_factorization(n).contains(q),
    decreases n,
{
    lemma_prime_factorization(n);
    if n == 1 {
        lemma_small_mod(1, q);
    } else {
        let f = least_divisor_from(n, 2);
        lemma_least_divisor_from(n, 2);
        lemma_div_decreases(n as int, f as int);
        let m = n / f;
        lemma_fundamental_div_mod(n as int, f as int);
        assert(n == f * m);
        assert(prime_factorization(n) == seq![f] + prime_factorization(m));
        assert(prime_factorization(n)[0] == f);
        lemma_prime_divides_product(q, f, m);
        if f % q == 0 {
            assert(is_prime(f));
            if q < f {
                assert(f % q != 0);
            }
            assert(q <= f) by {
                if q > f {
                    lemma_small_mod(f, q);
                }
            }
            assert(prime_factorization(n)[0] == q);
        } else {
            assert(m >= 1) by (nonlinear_arith)
                requires
                    n == f * m,
                    n > 1,
            ;
            lemma_factorization_lists_every_prime_divisor(m, q);
            let k = choose|k: int| 0 <= k < prime_factorization(m).len() && prime_factorization(m)[k] == q;
            assert(prime_factorization(n)[k + 1] == q);
        }
    }
}

/// The exponents that `find_primitive_roots` tests: `(p - 1) / f` for each prime
/// factor `f` of `p - 1`, with consecutive repeats removed.
pub open spec fn powers_to_test(p: u64) -> Seq<u64> {
    dedup_seq(
        prime_factorization((p - 1) as nat).map_values(|f: nat| (((p - 1) as nat) / f) as u64),
    )
}

/// `s` with each run of equal neighbours kept once.
pub open spec fn dedup_seq(s: Seq<u64>) -> Seq<u64>
    decreases s.len(),
{
    if s.len() <= 1 {
        s
    } else if s.last() == s[s.len() - 2] {
        dedup_seq(s.drop_last())
    } else {
        dedup_seq(s.drop_last()).push(s.last())
    }
}

proof fn lemma_dedup_keeps_values(s: Seq<u64>)
    ensures
        forall|x: u64| #[trigger] dedup_seq(s).contains(x) <==> s.contains(x),
    decreases s.len(),
{
    if s.len() > 1 {
        let init = s.drop_last();
        lemma_dedup_keeps_values(init);
        let d = dedup_seq(init);
        let repeat = s.last() == s[s.len() - 2];
        assert(repeat ==> dedup_seq(s) == d);
        assert(!repeat ==> dedup_seq(s) == d.push(s.last()));
        assert forall|x: u64| #[trigger] dedup_seq(s).contains(x) <==> s.contains(x) by {
            if s.contains(x) {
                let k = choose|k: int| 0 <= k < s.len() && s[k] == x;
                if k < s.len() - 1 || repeat {
                    let k0 = if k < s.len() - 1 { k } else { s.len() - 2 };
                    assert(init[k0] == x);
                    assert(init.contains(x));
                    assert(d.contains(x));
                    let i = choose|i: int| 0 <= i < d.len() && d[i] == x;
                    assert(dedup_seq(s)[i] == x);
                } else {
                    assert(dedup_seq(s)[d.len() as int] == x);
                }
            }
            if dedup_seq(s).contains(x) {
                let k = choose|k: int| 0 <= k < dedup_seq(s).len() && dedup_seq(s)[k] == x;
                if repeat || k < d.len() {
                    assert(d[k] == x);
                    assert(d.contains(x));
                    assert(init.contains(x));
                    let j = choose|j: int| 0 <= j < init.len() && init[j] == x;
                    assert(s[j] == x);
                } else {
                    assert(s[s.len() - 1] == x);
                }
            }
        }
    }
}

/// A candidate passes the test exactly when, for every prime `q` that divides
/// `p - 1`, `candidate^((p - 1) / q)` is not 1 modulo `p`: the test of a primitive
/// root modulo a prime `p`.
pub proof fn lemma_passes_iff_prime_divisor_test(candidate: u64, p: u64)
    requires
        p >= 2,
    ensures
        passes(candidate, powers_to_test(p), p) <==> (forall|q: nat| is_prime(q) && ((p - 1) as nat) % q == 0
            ==> #[trigger] pow(candidate as int, ((((p - 1) as nat) / q) as u64) as u32 as nat) % (p as int) != 1),
{
    let n = (p - 1) as nat;
    let pf = prime_factorization(n);
    let mapped = pf.map_values(|f: nat| (n / f) as u64);
    let powers = powers_to_test(p);
    lemma_prime_factorization(n);
    lemma_dedup_keeps_values(mapped);
    if passes(candidate, powers, p) {
        assert forall|q: nat| is_prime(q) && n % q == 0 implies #[trigger] pow(candidate as int, ((n / q) as u64) as u32 as nat)
            % (p as int) != 1 by {
            lemma_factorization_lists_every_prime_divisor(n, q);
            let k = choose|k: int| 0 <= k < pf.len() && pf[k] == q;
            assert(mapped[k] == (n / q) as u64);
            assert(mapped.contains((n / q) as u64));
            assert(powers.contains((n / q) as u64));
            let j = choose|j: int| 0 <= j < powers.len() && powers[j] == (n / q) as u64;
            assert(pow(candidate as int, powers[j] as u32 as nat) % (p as int) != 1);
        }
    }
    if forall|q: nat| is_prime(q) && n % q == 0 ==> #[trigger] pow(candidate as int, ((n / q) as u64) as u32 as nat)
        % (p as int) != 1 {
        assert forall|j: int| 0 <= j < powers.len() implies pow(candidate as int, #[trigger] powers[j] as u32 as nat)
            % (p as int) != 1 by {
            assert(powers.contains(powers[j]));
            assert(mapped.contains(powers[j]));
            let k = choose|k: int| 0 <= k < mapped.len() && mapped[k] == powers[j];
            let f = pf[k];
            assert(is_prime(f));
            assert(n % f == 0);
            assert(powers[j] == (n / f) as u64);
        }
    }
}

/// `candidate` raised to none of the `powers` is 1 modulo `p`.
pub open spec fn passes(candidate: u64, powers: Seq<u64>, p: u64) -> bool {
    forall|j: int| 0 <= j < powers.len()
        ==> pow(candidate as int, #[trigger] powers[j] as u32 as nat) % (p as int) != 1
}

/// Testing `candidate` against the `powers` in order, stopping at the first one
/// that gives 1, raises it only to powers that fit in `u64`.
pub open spec fn powers_fit(candidate: u64, powers: Seq<u64>, p: u64) -> bool {
    forall|j: int| 0 <= j < powers.len()
        && (forall|k: int| 0 <= k < j ==> pow(candidate as int, #[trigger] powers[k] as u32 as nat) % (p as int) != 1)
        ==> pow(candidate as int, #[trigger] powers[j] as u32 as nat) <= u64::MAX
}

/// The candidates in `[2, end)` that pass the test, in increasing order, as `u32`.
pub open spec fn roots_below(p: u64, end: int) -> Seq<u32>
    decreases end,
{
    if end <= 2 {
        seq![]
    } else if passes((end - 1) as u64, powers_to_test(p), p) {
        roots_below(p, end - 1).push((end - 1) as u64 as u32)
    } else {
        roots_below(p, end - 1)
    }
}

fn dedup(v: Vec<u64>) -> (out: Vec<u64>)
    ensures
        out@ == dedup_seq(v@),
{
    let mut out: Vec<u64> = Vec::new();
    for i in 0..v.len()
        invariant
            out@ == dedup_seq(v@.take(i as int)),
    {
        let ghost prefix = v@.take(i + 1);
        assert(prefix.drop_last() =~= v@.take(i as int));
        if i == 0 || v[i] != v[i - 1] {
            out.push(v[i]);
        }
    }
    assert(v@.take(v@.len() as int) =~= v@);
    out
}

/// The exponents to test for `p`, computed from the prime factors of `p - 1`.
fn powers_for(p: u64) -> (powers: Vec<u64>)
    requires
        p >= 1,
    ensures
        powers@ == powers_to_test(p),
{
    let prime_factors = find_prime_factors(p - 1);
    proof {
        lemma_prime_factorization((p - 1) as nat);
    }
    let ghost factors = prime_factorization((p - 1) as nat);
    let mut powers: Vec<u64> = Vec::new();
    for i in 0..prime_factors.len()
        invariant
            p >= 1,
            as_nats(prime_factors@) == factors,
            factors == prime_factorization((p - 1) as nat),
            forall|k: int| 0 <= k < factors.len() ==> is_prime(#[trigger] factors[k]),
            powers@ == factors.take(i as int).map_values(|f: nat| (((p - 1) as nat) / f) as u64),
    {
        assert(as_nats(prime_factors@)[i as int] == prime_factors@[i as int] as nat);
        assert(is_prime(factors[i as int]));
        powers.push((p - 1) / prime_factors[i]);
        assert(powers@ =~= factors.take(i + 1).map_values(|f: nat| (((p - 1) as nat) / f) as u64));
    }
    assert(factors.take(factors.len() as int) =~= factors);
    let powers = dedup(powers);
    assert(powers@ == powers_to_test(p));
    powers
}

/// Tests `candidate` against each power in turn, as `Iterator::all` does.
fn passes_all(candidate: u64, powers: &Vec<u64>, p: u64) -> (ok: bool)
    requires
        p >= 1,
        candidate >= 2,
        powers_fit(candidate, powers@, p),
    ensures
        ok == passes(candidate, powers@, p),
{
    let mut ok = true;
    let mut j: usize = 0;
    while j < powers.len() && ok
        invariant
            j <= powers@.len(),
            p >= 1,
            candidate >= 2,
            powers_fit(candidate, powers@, p),
            ok ==> forall|k: int| 0 <= k < j
                ==> pow(candidate as int, #[trigger] powers@[k] as u32 as nat) % (p as int) != 1,
            !ok ==> !passes(candidate, powers@, p),
        decreases powers@.len() - j,
    {
        let power = powers[j];
        let value = checked_power(candidate, power as u32).unwrap();
        if value % p == 1 {
            ok = false;
        }
        j += 1;
    }
    ok
}

/// The candidates in `[2, (p - 1) / 2)` that no power `(p - 1) / f`, for a prime
/// factor `f` of `p - 1`, takes to 1 modulo `p`.
pub fn find_primitive_roots(p: u64) -> (roots: Vec<u32>)
    requires
        p >= 1,
        forall|c: u64| 2 <= c < (p - 1) / 2 ==> #[trigger] powers_fit(c, powers_to_test(p), p),
    ensures
        roots@ == roots_below(p, ((p - 1) / 2) as int),
{
    let powers = powers_for(p);

    let mut primitive_roots: Vec<u32> = Vec::new();
    let end = (p - 1) / 2;
    let mut candidate: u64 = 2;
    while candidate < end
        invariant
            2 <= candidate,
            candidate <= end || end <= 2,
            end <= 2 ==> candidate == 2,
            end == (p - 1) / 2,
            p >= 1,
            powers@ == powers_to_test(p),
            forall|c: u64| 2 <= c < (p - 1) / 2 ==> #[trigger] powers_fit(c, powers_to_test(p), p),
            primitive_roots@ == roots_below(p, candidate as int),
        decreases end - candidate,
    {
        if passes_all(candidate, &powers, p) {
            primitive_roots.push(#[verifier::truncate] (candidate as u32));
        }
        candidate += 1;
    }
    primitive_roots
}

/// Calls primes' `PrimeSet::find` on a new `PrimeSet`. Its documentation and source:
/// the smallest prime that is at least `n` (returned with its index, dropped here).
/// The `requires` keeps the search, which steps through odd numbers with `u64`
/// arithmetic, far from overflow.
#[verifier::external_body]
fn prime_set_find(n: u64) -> (p: u64)
    requires
        n <= u32::MAX,
    ensures
        is_prime(p as nat),
        n <= p,
        forall|k: nat| n <= k < p ==> !is_prime(k),
{
    let mut pset = PrimeSet::new();
    let (_, p) = pset.find(n);
    p
}

/// The prime modulus of the key exchange: the smallest prime at least `floor`.
pub fn generate_p(floor: u32) -> (p: u64)
    ensures
        is_prime(p as nat),
        floor <= p,
        forall|k: nat| floor <= k < p ==> !is_prime(k),
{
    prime_set_find(floor as u64)
}

/// `base` to the power `exp`, or `None` where that exceeds `u64::MAX`.
fn checked_power(base: u64, exp: u32) -> (r: Option<u64>)
    requires
        base >= 2,
    ensures
        r matches Some(v) ==> v == pow(base as int, exp as nat),
        r is None ==> pow(base as int, exp as nat) > u64::MAX,
{
    let mut acc: u64 = 1;
    let mut i: u32 = 0;
    proof {
        vstd::arithmetic::power::lemma_pow0(base as int);
    }
    while i < exp
        invariant
            i <= exp,
            base >= 2,
            acc == pow(base as int, i as nat),
        decreases exp - i,
    {
        assert(pow(base as int, (i + 1) as nat) == acc * base) by {
            reveal(pow);
            vstd::arithmetic::mul::lemma_mul_is_commutative(acc as int, base as int);
        }
        match acc.checked_mul(base) {
            Some(v) => {
                acc = v;
            },
            None => {
                proof {
                    lemma_pow_increases(base as nat, (i + 1) as nat, exp as nat);
                }
                return None;
            },
        }
        i += 1;
    }
    Some(acc)
}

/// Whether `find_primitive_roots` can test every candidate for `p` without a
/// power overflowing `u64`: exactly the inputs on which it may be called.
pub fn primitive_roots_fit(p: u64) -> (ok: bool)
    ensures
        ok == (p >= 1 && forall|c: u64| 2 <= c < (p - 1) / 2 ==> #[trigger] powers_fit(c, powers_to_test(p), p)),
{
    if p < 1 {
        return false;
    }
    let powers = powers_for(p);
    let end = (p - 1) / 2;
    let mut candidate: u64 = 2;
    while candidate < end
        invariant
            2 <= candidate,
            end == (p - 1) / 2,
            p >= 1,
            powers@ == powers_to_test(p),
            forall|c: u64| 2 <= c < candidate ==> #[trigger] powers_fit(c, powers_to_test(p), p),
        decreases end - candidate,
    {
        let mut j: usize = 0;
        let mut hit = false;
        while j < powers.len() && !hit
            invariant
                j <= powers@.len(),
                2 <= candidate < end,
                end == (p - 1) / 2,
                p >= 1,
                powers@ == powers_to_test(p),
                forall|c: u64| 2 <= c < candidate ==> #[trigger] powers_fit(c, powers_to_test(p), p),
                forall|k: int| 0 <= k < j ==> pow(candidate as int, #[trigger] powers@[k] as u32 as nat) <= u64::MAX,
                !hit ==> forall|k: int| 0 <= k < j ==> pow(candidate as int, #[trigger] powers@[k] as u32 as nat) % (p as int) != 1,
                hit ==> 1 <= j && pow(candidate as int, powers@[j - 1] as u32 as nat) % (p as int) == 1,
                hit ==> forall|k: int| 0 <= k < j - 1 ==> pow(candidate as int, #[trigger] powers@[k] as u32 as nat) % (p as int) != 1,
            decreases powers@.len() - j,
        {
            match checked_power(candidate, powers[j] as u32) {
                None => {
                    assert(pow(candidate as int, powers@[j as int] as u32 as nat) > u64::MAX);
                    assert(!powers_fit(candidate, powers@, p));
                    return false;
                },
                Some(v) => {
                    if v % p == 1 {
                        hit = true;
                    }
                },
            }
            j += 1;
        }
        assert forall|m: int| 0 <= m < powers@.len()
            && (forall|k: int| 0 <= k < m ==> pow(candidate as int, #[trigger] powers@[k] as u32 as nat) % (p as int) != 1)
            implies pow(candidate as int, #[trigger] powers@[m] as u32 as nat) <= u64::MAX by {
            if hit && m >= j {
                assert(pow(candidate as int, powers@[j - 1] as u32 as nat) % (p as int) != 1);
            }
        }
        assert(powers_fit(candidate, powers_to_test(p), p));
        candidate += 1;
    }
    true
}

} // verus!
