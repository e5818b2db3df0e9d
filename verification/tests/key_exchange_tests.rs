use lab1_chat::key_exchange::{find_secret, generate_private_number, generate_public_number};
use lab1_chat::parameters::{find_prime_factors, find_primitive_roots, generate_p, primitive_roots_fit};

#[test]
fn public_number_is_g_to_the_private_modulo_p() {
    assert_eq!(generate_public_number(23, 5, 6), 8);
    assert_eq!(generate_public_number(23, 5, 15), 19);
    assert_eq!(generate_public_number(23, 5, 0), 1);
    assert_eq!(generate_public_number(1, 5, 0), 0);
}

#[test]
fn both_sides_find_the_same_secret() {
    let (p, g) = (23, 5);
    let (a, b) = (6, 15);
    let client_public = generate_public_number(p, g, a);
    let server_public = generate_public_number(p, g, b);
    assert_eq!(find_secret(server_public, a, p), 2);
    assert_eq!(find_secret(client_public, b, p), 2);
}

#[test]
fn random_private_numbers_agree_too() {
    let (p, g) = (29, 2);
    for _ in 0..20 {
        let a = generate_private_number();
        let b = generate_private_number();
        let shared_a = find_secret(generate_public_number(p, g, b), a, p);
        let shared_b = find_secret(generate_public_number(p, g, a), b, p);
        assert_eq!(shared_a, shared_b);
        assert!(shared_a < p);
    }
}

#[test]
fn prime_factors_by_trial_division() {
    assert_eq!(find_prime_factors(0), Vec::<u64>::new());
    assert_eq!(find_prime_factors(1), Vec::<u64>::new());
    assert_eq!(find_prime_factors(12), vec![2, 2, 3]);
    assert_eq!(find_prime_factors(22), vec![2, 11]);
    assert_eq!(find_prime_factors(97), vec![97]);
    assert_eq!(find_prime_factors(360), vec![2, 2, 2, 3, 3, 5]);
}

#[test]
fn primitive_roots_below_half_of_p() {
    // 22 = 2 * 11: a candidate passes where neither c^11 nor c^2 is 1 mod 23.
    assert_eq!(find_primitive_roots(23), vec![5, 7, 10]);
    assert_eq!(find_primitive_roots(29), vec![2, 3, 8, 10, 11]);
    assert_eq!(find_primitive_roots(7), Vec::<u32>::new());
    assert_eq!(find_primitive_roots(2), Vec::<u32>::new());
    assert_eq!(find_primitive_roots(1), Vec::<u32>::new());
}

#[test]
fn primitive_roots_fit_only_where_no_power_overflows() {
    assert!(primitive_roots_fit(23));
    assert!(primitive_roots_fit(31));
    assert!(!primitive_roots_fit(0));
    assert!(!primitive_roots_fit(1_000_003));
}

#[test]
fn generate_p_finds_the_next_prime() {
    assert_eq!(generate_p(0), 2);
    assert_eq!(generate_p(6), 7);
    assert_eq!(generate_p(7), 7);
    assert_eq!(generate_p(24), 29);
    assert_eq!(generate_p(29), 29);
}
