use boring_proxy::session_manager::{
    client_config, SessionManager, CLIENT_CONNECT_TIMEOUT_MS, CLIENT_REQUEST_TIMEOUT_MS,
    SESSION_IDLE_MS,
};
use boring_proxy::types::PROFILE_COUNT;

#[test]
fn outbound_clients_have_the_fixed_configuration() {
    let cfg = client_config();
    assert_eq!(cfg.request_timeout_ms, 30_000);
    assert_eq!(cfg.connect_timeout_ms, 10_000);
    assert_eq!(CLIENT_REQUEST_TIMEOUT_MS, 30_000);
    assert_eq!(CLIENT_CONNECT_TIMEOUT_MS, 10_000);
    assert!(cfg.accept_invalid_certs);
    assert!(!cfg.use_system_proxy);
}

#[test]
fn new_pool_is_empty() {
    let mgr = SessionManager::new();
    assert_eq!(mgr.sessions().len(), 0);
}

#[test]
fn acquire_creates_one_entry_per_host() {
    let mut mgr = SessionManager::new();
    let host = "example.test".to_string();
    let h1 = mgr.get_or_create_session_with(&host, 10, 3);
    assert_eq!(h1.profile, 3);
    assert_eq!(mgr.sessions().len(), 1);
    let h2 = mgr.get_or_create_session_with(&host, 20, 7);
    assert_eq!(h2.profile, 7);
    assert_eq!(mgr.sessions().len(), 1);
}

#[test]
fn cookie_jar_survives_profile_rotation() {
    let mut mgr = SessionManager::new();
    let host = "example.test".to_string();
    let h1 = mgr.get_or_create_session_with(&host, 10, 3);
    let h2 = mgr.get_or_create_session_with(&host, 20, 7);
    assert_eq!(h1.jar, h2.jar);
    assert_ne!(h1.profile, h2.profile);
}

#[test]
fn distinct_hosts_get_distinct_jars() {
    let mut mgr = SessionManager::new();
    let a = mgr.get_or_create_session_with(&"a.test".to_string(), 0, 0);
    let b = mgr.get_or_create_session_with(&"b.test".to_string(), 0, 0);
    assert_ne!(a.jar, b.jar);
}

#[test]
fn every_catalogue_index_is_reachable() {
    let mut mgr = SessionManager::new();
    let host = "example.test".to_string();
    for p in 0..PROFILE_COUNT {
        let h = mgr.get_or_create_session_with(&host, p as u64, p);
        assert_eq!(h.profile, p);
    }
}

#[test]
fn random_rotation_stays_in_catalogue() {
    let mut mgr = SessionManager::new();
    let host = "example.test".to_string();
    for i in 0..200u64 {
        let h = mgr.get_or_create_session(&host, i);
        assert!(h.profile < PROFILE_COUNT);
    }
    assert_eq!(mgr.sessions().len(), 1);
}

#[test]
fn gc_keeps_active_sessions() {
    let mut mgr = SessionManager::new();
    let host = "example.test".to_string();
    let _ = mgr.get_or_create_session_with(&host, 0, 0);
    let removed = mgr.cleanup_sessions(SESSION_IDLE_MS - 1);
    assert_eq!(removed, 0);
    assert_eq!(mgr.sessions().len(), 1);
}

#[test]
fn gc_removes_idle_sessions() {
    let mut mgr = SessionManager::new();
    let _ = mgr.get_or_create_session_with(&"a.test".to_string(), 0, 0);
    let _ = mgr.get_or_create_session_with(&"b.test".to_string(), SESSION_IDLE_MS, 0);
    let removed = mgr.cleanup_sessions(SESSION_IDLE_MS);
    assert_eq!(removed, 1);
    assert_eq!(mgr.sessions().len(), 1);
    assert_eq!(mgr.sessions()[0].0, "b.test");
}

#[test]
fn acquire_after_gc_gets_a_fresh_jar() {
    let mut mgr = SessionManager::new();
    let host = "example.test".to_string();
    let before = mgr.get_or_create_session_with(&host, 0, 0);
    let _ = mgr.cleanup_sessions(SESSION_IDLE_MS);
    assert_eq!(mgr.sessions().len(), 0);
    let after = mgr.get_or_create_session_with(&host, SESSION_IDLE_MS, 0);
    assert_ne!(before.jar, after.jar);
}

#[test]
fn acquire_updates_last_used() {
    let mut mgr = SessionManager::new();
    let host = "example.test".to_string();
    let _ = mgr.get_or_create_session_with(&host, 0, 0);
    let _ = mgr.get_or_create_session_with(&host, SESSION_IDLE_MS - 1, 1);
    let removed = mgr.cleanup_sessions(SESSION_IDLE_MS);
    assert_eq!(removed, 0);
    assert_eq!(mgr.sessions().len(), 1);
}
