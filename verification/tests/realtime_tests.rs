use vibe_kanban::realtime::{
    ConflictStrategy, RealtimeSubscription, VersionedRecord, realtime_ws_url, resolve_conflict,
};
use vibe_kanban::supabase::rest_url;

#[test]
fn test_conflict_resolution_last_writer_wins() {
    let local = VersionedRecord {
        updated_at: "2024-01-01T10:00:00Z".to_string(),
        body: "Local Title".to_string(),
    };
    let remote = VersionedRecord {
        updated_at: "2024-01-01T11:00:00Z".to_string(),
        body: "Remote Title".to_string(),
    };
    let result = resolve_conflict(&local, &remote, ConflictStrategy::LastWriterWins);
    assert_eq!(result.body, "Remote Title");

    let local_newer = VersionedRecord {
        updated_at: "2024-01-01T12:00:00Z".to_string(),
        body: "Local Title".to_string(),
    };
    let result = resolve_conflict(&local_newer, &remote, ConflictStrategy::LastWriterWins);
    assert_eq!(result.body, "Local Title");
}

#[test]
fn test_conflict_resolution_keep_local() {
    let local = VersionedRecord { updated_at: String::new(), body: "Local".to_string() };
    let remote = VersionedRecord { updated_at: String::new(), body: "Remote".to_string() };
    let result = resolve_conflict(&local, &remote, ConflictStrategy::KeepLocal);
    assert_eq!(result.body, "Local");
}

#[test]
fn test_conflict_resolution_accept_remote() {
    let local = VersionedRecord { updated_at: String::new(), body: "Local".to_string() };
    let remote = VersionedRecord { updated_at: String::new(), body: "Remote".to_string() };
    let result = resolve_conflict(&local, &remote, ConflictStrategy::AcceptRemote);
    assert_eq!(result.body, "Remote");
}

#[test]
fn test_realtime_ws_url() {
    let url = realtime_ws_url("https://abc.supabase.co", "SECRET-REDACTED");
    assert!(url.starts_with("wss://"));
    assert!(url.contains("apikey=SECRET-REDACTED"));
}

#[test]
fn plain_http_scheme_becomes_plain_socket_scheme() {
    let url = realtime_ws_url("http://localhost:54321", "k");
    assert!(url.starts_with("ws://localhost:54321/realtime/v1/websocket"));
    assert!(url.ends_with("&vsn=1.0.0"));
}

#[test]
fn test_subscription_creation() {
    let sub = RealtimeSubscription::tasks("123-456");
    assert_eq!(sub.table, "tasks");
    assert_eq!(sub.filter.as_deref(), Some("project_id=eq.123-456"));
}

#[test]
fn test_rest_url_format() {
    let url = rest_url("https://test.supabase.co", "teams");
    assert_eq!(url, "https://test.supabase.co/rest/v1/teams");
}
