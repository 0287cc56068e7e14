use website::apis::{ApiDecision, ApiRegister, RateLimiter, User};

#[test]
fn limiter_admits_limit_plus_one_then_locks_down() {
    let mut l = RateLimiter::new(6, 360);
    for i in 0..7u64 {
        assert!(l.check_limit(i), "check {} should pass", i + 1);
        l.add_request(i);
    }
    assert!(!l.check_limit(7));
    assert_eq!(l.lockdown_time, Some(7));
    assert!(!l.check_limit(7 + 359));
    assert!(l.check_limit(7 + 360));
    assert_eq!(l.lockdown_time, None);
    assert_eq!(l.get_recent_request_count(), 0);
}

#[test]
fn limiter_prunes_expired_requests() {
    let mut l = RateLimiter::new(2, 10);
    l.add_request(0);
    l.add_request(5);
    l.add_request(9);
    assert!(!l.check_limit(9));
    let mut l = RateLimiter::new(2, 10);
    l.add_request(0);
    l.add_request(5);
    l.add_request(9);
    assert!(l.check_limit(10));
    assert_eq!(l.last_requests, vec![5, 9]);
}

#[test]
fn user_checks_global_then_endpoint() {
    let mut u = User::new();
    u.add_many(vec![(RateLimiter::new(0, 360), "/api/test".to_string())]);
    assert!(u.check_limit("/api/test", 0));
    u.add_request("/api/test", 0);
    assert!(!u.check_limit("/api/test", 1));
    assert!(u.check_limit("/api/other", 1));
    assert_eq!(u.get_recent_request_count(), 2);
    u.add_gloabal_request(2);
    assert_eq!(u.get_recent_request_count(), 3);
}

#[test]
fn reaper_removes_idle_users_only() {
    let mut reg = ApiRegister::new();
    reg.register_api("/api/test", 6, 360);
    reg.add_user(1);
    reg.add_user(2);
    assert_eq!(reg.dispatch(2, "/api/test", 0), ApiDecision::Run);
    reg.clean_recent_requests();
    assert!(!reg.user_exists(1));
    assert!(reg.user_exists(2));
}

#[test]
fn dispatch_counts_every_request_once() {
    let mut reg = ApiRegister::new();
    reg.register_api("/api/test", 10, 360);
    let n = 8u64;
    for i in 0..n {
        assert_eq!(reg.dispatch(7, "/api/test", i), ApiDecision::Run);
    }
    let idx = reg.user_ips.iter().position(|ip| *ip == 7).unwrap();
    assert_eq!(reg.users[idx].global.get_recent_request_count(), n as usize);
    assert_eq!(reg.users[idx].get_recent_request_count(), 2 * n as usize);
}

#[test]
fn dispatch_denies_after_endpoint_limit() {
    let mut reg = ApiRegister::new();
    reg.register_api("/api/mail", 2, 360);
    assert_eq!(reg.dispatch(3, "/api/mail", 0), ApiDecision::Run);
    assert_eq!(reg.dispatch(3, "/api/mail", 1), ApiDecision::Run);
    assert_eq!(reg.dispatch(3, "/api/mail", 2), ApiDecision::Run);
    assert_eq!(reg.dispatch(3, "/api/mail", 3), ApiDecision::TooManyRequests);
    assert_eq!(reg.dispatch(3, "/api/missing", 4), ApiDecision::NotFound);
}

#[test]
fn registry_lookup() {
    let mut reg = ApiRegister::new();
    reg.register_api("/api/test", 6, 360);
    reg.register_api("/api/test", 7, 100);
    let a = reg.get_api("/api/test").unwrap();
    assert_eq!(a.get_limit_and_refresh(), (7, 100));
    assert!(reg.get_api("/api/none").is_none());
    assert!(!reg.user_exists(9));
    reg.add_user(9);
    assert!(reg.user_exists(9));
    assert!(reg.check_limit(9, "/api/test", 0));
}

#[test]
fn add_user_keeps_known_client() {
    let mut reg = ApiRegister::new();
    reg.register_api("/api/test", 6, 360);
    assert_eq!(reg.dispatch(4, "/api/test", 0), ApiDecision::Run);
    reg.add_user(4);
    assert_eq!(reg.user_ips.len(), 1);
    assert_eq!(reg.users[0].get_recent_request_count(), 2);
}
