use id_limiter::catalog;
use id_limiter::{get_unix_epoch, Endpoint, Role, Usage};

#[test]
fn endpoint_new_keeps_its_arguments() {
    let endpoint = Endpoint::new("echo".to_string(), 60, 1);
    assert_eq!(endpoint.name, "echo");
    assert_eq!(endpoint.req_before_cooldown, 60);
    assert_eq!(endpoint.cooldown_time, 1);
}

#[test]
fn cooldown_is_counted_in_seconds() {
    assert_eq!(Endpoint::new("a".to_string(), 1, 0).cooldown_secs(), 0);
    assert_eq!(Endpoint::new("a".to_string(), 1, 1).cooldown_secs(), 60);
    assert_eq!(Endpoint::new("a".to_string(), 1, 100).cooldown_secs(), 6_000);
    assert_eq!(Endpoint::new("a".to_string(), 1, 1_093).cooldown_secs(), 65_580);
    assert_eq!(Endpoint::new("a".to_string(), 1, u16::MAX).cooldown_secs(), 3_932_100);
}

#[test]
fn usage_new_is_unused_and_allowed() {
    let usage = Usage::new("long_wait".to_string(), 1, 100);
    assert_eq!(usage.num_times_used, 0);
    assert_eq!(usage.next_use_allowed, 0);
    assert!(usage.allowed);
    assert_eq!(usage.endpoint, Endpoint::new("long_wait".to_string(), 1, 100));
}

#[test]
fn hit_within_the_quota_is_counted() {
    let mut usage = Usage::new("x".to_string(), 3, 2);
    assert!(usage.hit(40));
    assert_eq!(usage.num_times_used, 1);
    assert_eq!(usage.next_use_allowed, 0);
    assert!(usage.allowed);
    assert_eq!(usage.hits_left(), 2);
    assert!(usage.hit(10));
    assert!(usage.hit(99));
    assert_eq!(usage.num_times_used, 3);
    assert_eq!(usage.hits_left(), 0);
    assert!(usage.allowed);
}

#[test]
fn hit_on_an_exhausted_quota_starts_a_cooldown_and_a_new_window() {
    let mut usage = Usage::new("x".to_string(), 2, 3);
    assert!(usage.hit(1_000));
    assert!(usage.hit(1_001));
    assert!(!usage.hit(1_002));
    assert_eq!(usage.num_times_used, 0);
    assert_eq!(usage.next_use_allowed, 1_182);
    assert!(!usage.allowed);
    assert_eq!(usage.hits_left(), 0);
    assert_eq!(usage.endpoint, Endpoint::new("x".to_string(), 2, 3));
}

#[test]
fn hit_during_a_cooldown_only_clears_the_flag() {
    let mut usage = Usage::new("x".to_string(), 5, 1);
    usage.num_times_used = 4;
    usage.next_use_allowed = 500;
    usage.allowed = true;
    assert!(!usage.hit(499));
    assert_eq!(usage.num_times_used, 4);
    assert_eq!(usage.next_use_allowed, 500);
    assert!(!usage.allowed);
    assert!(usage.hit(500));
    assert_eq!(usage.num_times_used, 5);
    assert_eq!(usage.next_use_allowed, 500);
    assert!(usage.allowed);
}

#[test]
fn endpoint_without_quota_refuses_every_hit() {
    let mut usage = Usage::new("closed".to_string(), 0, 1);
    assert!(!usage.hit(100));
    assert_eq!(usage.next_use_allowed, 160);
    assert!(!usage.hit(159));
    assert_eq!(usage.next_use_allowed, 160);
    assert!(!usage.hit(160));
    assert_eq!(usage.next_use_allowed, 220);
    assert_eq!(usage.num_times_used, 0);
}

#[test]
fn cooldown_of_the_longest_length_ends_at_the_end_of_time() {
    let mut usage = Usage::new("x".to_string(), 0, u16::MAX);
    assert!(!usage.hit(u64::MAX - 3_932_100));
    assert_eq!(usage.next_use_allowed, u64::MAX);
    assert_eq!(usage.time_until_allowed(u64::MAX - 1), 1);
    assert_eq!(usage.time_until_allowed(u64::MAX), 0);
}

#[test]
fn cooldown_that_would_end_after_the_end_of_time_leaves_the_record_alone() {
    let mut usage = Usage::new("x".to_string(), 1, 1);
    assert!(usage.hit(u64::MAX));
    assert_eq!(usage.num_times_used, 1);
    assert!(usage.allowed);
    assert!(!usage.hit(u64::MAX - 59));
    assert_eq!(usage.num_times_used, 1);
    assert_eq!(usage.next_use_allowed, 0);
    assert!(usage.allowed);
    assert!(!usage.hit(u64::MAX - 60));
    assert_eq!(usage.num_times_used, 0);
    assert_eq!(usage.next_use_allowed, u64::MAX);
    assert!(!usage.allowed);
}

#[test]
fn time_until_allowed_is_the_rest_of_the_cooldown() {
    let mut usage = Usage::new("x".to_string(), 1, 1);
    assert_eq!(usage.time_until_allowed(0), 0);
    assert_eq!(usage.time_until_allowed(u64::MAX), 0);
    usage.next_use_allowed = 1_000;
    assert_eq!(usage.time_until_allowed(0), 1_000);
    assert_eq!(usage.time_until_allowed(999), 1);
    assert_eq!(usage.time_until_allowed(1_000), 0);
    assert_eq!(usage.time_until_allowed(1_001), 0);
}

#[test]
fn hits_left_is_the_rest_of_the_quota() {
    let mut usage = Usage::new("x".to_string(), 10, 1);
    assert_eq!(usage.hits_left(), 10);
    usage.num_times_used = 7;
    assert_eq!(usage.hits_left(), 3);
    usage.allowed = false;
    assert_eq!(usage.hits_left(), 0);
    usage.allowed = true;
    usage.num_times_used = 10;
    assert_eq!(usage.hits_left(), 0);
}

#[test]
fn table_lists_five_endpoints_in_order() {
    let expected = vec![
        Endpoint::new("short_wait".to_string(), 10, 1),
        Endpoint::new("/long_wait".to_string(), 1, 100),
        Endpoint::new("/add_to_list".to_string(), 60, 1),
        Endpoint::new("/echo".to_string(), 60, 1),
        Endpoint::new("/add_KV_pair".to_string(), 60, 1),
    ];
    assert_eq!(catalog::all(), expected);
    for (i, endpoint) in expected.iter().enumerate() {
        assert_eq!(&catalog::row(i), endpoint);
    }
}

#[test]
fn describe_finds_every_endpoint_of_the_table() {
    for endpoint in catalog::all() {
        assert_eq!(catalog::describe(&endpoint.name), Some(endpoint));
    }
    assert_eq!(catalog::describe("short_wait"), Some(Endpoint::new("short_wait".to_string(), 10, 1)));
    assert_eq!(catalog::describe("/echo"), Some(Endpoint::new("/echo".to_string(), 60, 1)));
    assert_eq!(catalog::describe("/long_wait"), Some(Endpoint::new("/long_wait".to_string(), 1, 100)));
}

#[test]
fn describe_finds_nothing_outside_the_table() {
    for name in ["", "echo", "/ech", "/echoo", "/ECHO", "/add_kv_pair", "/short_wait", "long_wait"] {
        assert_eq!(catalog::describe(name), None);
    }
}

#[test]
fn roles_are_shown_by_their_labels() {
    assert_eq!(String::from(Role::Standered), "Standard");
    assert_eq!(String::from(Role::Admin), "Admin");
    assert_eq!(String::from(Role::Unauthenticated), "None");
}

#[test]
fn clock_reads_a_time_of_this_century() {
    let first = get_unix_epoch();
    assert!(first > 1_600_000_000);
    assert!(first < 4_102_444_800);
}
