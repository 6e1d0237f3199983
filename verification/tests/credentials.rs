use epub_translator::credentials::{
    usable, weight_of, Credential, CredentialPool, MIN_RESIDUAL, POOL_SHARES,
};
use epub_translator::deepl::models::DeepLConfiguration;

fn credential(key: &str, residual: u64) -> Credential {
    Credential { config: DeepLConfiguration::new(key.to_string(), false), residual }
}

fn keys(credentials: &[Credential]) -> Vec<String> {
    credentials.iter().map(|c| c.config.auth_key.clone()).collect()
}

fn slots_of(pool: &CredentialPool, key: &str) -> usize {
    (0..pool.len())
        .filter(|&id| pool.route(id).map(|c| c.config.auth_key.as_str()) == Some(key))
        .count()
}

#[test]
fn limits_have_their_values() {
    assert_eq!(MIN_RESIDUAL, 20_000);
    assert_eq!(POOL_SHARES, 100);
}

#[test]
fn weight_rounds_to_the_nearest_share() {
    assert_eq!(weight_of(50, 100), 50);
    assert_eq!(weight_of(1, 3), 33);
    assert_eq!(weight_of(2, 3), 67);
    assert_eq!(weight_of(1, 200), 1); // 0.5 rounds up
    assert_eq!(weight_of(1, 201), 0); // just under 0.5
    assert_eq!(weight_of(3, 200), 2); // 1.5 rounds up
    assert_eq!(weight_of(100, 100), 100);
    assert_eq!(weight_of(0, 100), 0);
    assert_eq!(weight_of(0, 0), 0);
    assert_eq!(weight_of(30_000, 120_000), 25);
    assert_eq!(weight_of(u64::MAX, u64::MAX as u128), 100);
    assert_eq!(weight_of(u64::MAX, 3 * (u64::MAX as u128)), 33);
}

#[test]
fn usable_drops_low_credentials_and_keeps_order() {
    let kept = usable(vec![
        credential("a", 500_000),
        credential("b", 19_999),
        credential("c", 20_000),
        credential("d", 0),
        credential("e", 20_001),
    ]);
    assert_eq!(keys(&kept), vec!["a", "c", "e"]);
    assert!(usable(Vec::new()).is_empty());
    assert!(usable(vec![credential("x", 1)]).is_empty());
}

#[test]
fn built_pool_excludes_low_credentials() {
    let pool = CredentialPool::build(vec![
        credential("rich", 300_000),
        credential("poor", 19_999),
        credential("fair", 100_000),
    ]);
    assert_eq!(pool.len(), 100);
    assert_eq!(slots_of(&pool, "rich"), 75);
    assert_eq!(slots_of(&pool, "fair"), 25);
    assert_eq!(slots_of(&pool, "poor"), 0);
    for id in 0..1000 {
        let credential = pool.route(id).expect("a credential");
        assert!(credential.residual >= MIN_RESIDUAL);
        assert_ne!(credential.config.auth_key, "poor");
    }
    assert_eq!(pool.primary().map(|c| c.config.auth_key.as_str()), Some("rich"));
    assert_eq!(pool.total_residual(), 400_000);
}

#[test]
fn built_pool_shares_by_weight_whatever_the_shuffle() {
    for _ in 0..20 {
        let pool = CredentialPool::build(vec![
            credential("a", 20_000),
            credential("b", 40_000),
            credential("c", 60_000),
        ]);
        // 16.67, 33.33 and 50 of 100, each rounded.
        assert_eq!(slots_of(&pool, "a"), 17);
        assert_eq!(slots_of(&pool, "b"), 33);
        assert_eq!(slots_of(&pool, "c"), 50);
        assert_eq!(pool.len(), 100);
    }
}

#[test]
fn load_follows_the_slots_over_whole_rounds() {
    let pool = CredentialPool::build(vec![credential("a", 30_000), credential("b", 90_000)]);
    let rounds = 7;
    let mut served_by_a = 0;
    for id in 0..rounds * pool.len() {
        if pool.route(id).map(|c| c.config.auth_key.as_str()) == Some("a") {
            served_by_a += 1;
        }
    }
    assert_eq!(served_by_a, rounds * 25);
}

#[test]
fn route_follows_the_order_modulo_its_length() {
    let credentials = vec![credential("a", 50_000), credential("b", 50_000)];
    let mut order = Vec::new();
    for k in 0..100 {
        order.push(if k % 4 == 0 { 1 } else { 0 });
    }
    // 25 slots for "b" and 75 for "a" is not what the weights say.
    assert!(CredentialPool::from_order(credentials.clone(), order).is_none());

    let mut order = Vec::new();
    for k in 0..100 {
        order.push(k % 2);
    }
    let pool = CredentialPool::from_order(credentials, order).expect("a pool");
    assert_eq!(pool.route(0).map(|c| c.config.auth_key.as_str()), Some("a"));
    assert_eq!(pool.route(1).map(|c| c.config.auth_key.as_str()), Some("b"));
    assert_eq!(pool.route(100).map(|c| c.config.auth_key.as_str()), Some("a"));
    assert_eq!(pool.route(201).map(|c| c.config.auth_key.as_str()), Some("b"));
}

#[test]
fn from_order_refuses_what_build_cannot_draw() {
    let one = || vec![credential("a", 50_000)];
    let full: Vec<usize> = vec![0; 100];
    assert!(CredentialPool::from_order(one(), full.clone()).is_some());
    assert!(CredentialPool::from_order(one(), vec![0; 99]).is_none());
    let mut wrong = full.clone();
    wrong[5] = 1;
    assert!(CredentialPool::from_order(one(), wrong).is_none());
    assert!(CredentialPool::from_order(vec![credential("low", 10)], full).is_none());
    assert!(CredentialPool::from_order(Vec::new(), Vec::new()).is_some());
}

#[test]
fn empty_pool_routes_nothing() {
    let pool = CredentialPool::build(vec![credential("poor", 5)]);
    assert!(pool.is_empty());
    assert_eq!(pool.len(), 0);
    assert!(pool.route(0).is_none());
    assert!(pool.primary().is_none());
    assert_eq!(pool.total_residual(), 0);
}

#[test]
fn single_pool_serves_every_job_with_one_credential() {
    let pool = CredentialPool::single(DeepLConfiguration::new("only".to_string(), true));
    assert_eq!(pool.len(), 1);
    assert!(!pool.is_empty());
    for id in [0usize, 1, 17, usize::MAX] {
        assert_eq!(pool.route(id).map(|c| c.config.auth_key.as_str()), Some("only"));
    }
}

#[test]
fn built_pool_is_not_left_in_order() {
    // Before the shuffle the first fifty slots belong to "a" and the rest to
    // "b"; one shuffle in about 10^29 leaves them so.
    let pool = CredentialPool::build(vec![credential("a", 50_000), credential("b", 50_000)]);
    let order: Vec<&str> =
        (0..pool.len()).map(|id| pool.route(id).unwrap().config.auth_key.as_str()).collect();
    let mut in_order = vec!["a"; 50];
    in_order.extend(vec!["b"; 50]);
    assert_eq!(order.len(), 100);
    assert_ne!(order, in_order);
}

#[test]
fn load_stays_near_the_share_within_a_round() {
    let pool = CredentialPool::build(vec![credential("a", 30_000), credential("b", 90_000)]);
    let len = pool.len() as i64;
    let k = 25i64;
    let mut served_by_a = 0i64;
    for n in 0..(3 * pool.len() + 1) {
        // Of the ids below n, "a" has served its share but for less than k.
        let off = len * served_by_a - (n as i64) * k;
        assert!(-k * len < off && off < k * len, "n = {}", n);
        if pool.route(n).map(|c| c.config.auth_key.as_str()) == Some("a") {
            served_by_a += 1;
        }
    }
    assert_eq!(served_by_a, 3 * k + if pool.route(0).unwrap().config.auth_key == "a" { 1 } else { 0 });
}
