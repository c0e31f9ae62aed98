use mpp_server::quota::NoteQuota;
use mpp_server::server::Server;
use mpp_server::text::{decimal, has_prefix, is_special, str_equal, trimmed};
use mpp_server::utils::{current_time_ms, generate_client_id, generate_random_id, rfc3339_of_millis};

#[test]
fn hashed_client_id_is_stable_hex() {
    let a = generate_client_id("10.0.0.1", true, "s1", "s2");
    let b = generate_client_id("10.0.0.1", true, "s1", "s2");
    let c = generate_client_id("10.0.0.2", true, "s1", "s2");
    assert_eq!(a, b);
    assert_ne!(a, c);
    assert_eq!(a.len(), 24);
    // SHA-256("s110.0.0.1s2"), first twelve bytes.
    assert_eq!(a, "6083376555f7b52e3075d257");
}

#[test]
fn random_ids_are_hex() {
    let a = generate_random_id();
    assert_eq!(a.len(), 24);
    assert!(a.chars().all(|c| c.is_ascii_hexdigit() && !c.is_ascii_uppercase()));
    let b = generate_client_id("10.0.0.1", false, "", "");
    assert_eq!(b.len(), 24);
}

#[test]
fn clock_reads_recent_time() {
    assert!(current_time_ms() > 1_600_000_000_000);
}

#[test]
fn rfc3339_of_epoch_offsets() {
    assert_eq!(rfc3339_of_millis(0), "1970-01-01T00:00:00+00:00");
    assert_eq!(rfc3339_of_millis(86_400_999), "1970-01-02T00:00:00+00:00");
}

#[test]
fn decimal_writes_numbers() {
    assert_eq!(decimal(0), "0");
    assert_eq!(decimal(60), "60");
    assert_eq!(decimal(18446744073709551615), "18446744073709551615");
}

#[test]
fn text_helpers() {
    assert!(has_prefix("test/awkward", "test/"));
    assert!(!has_prefix("tes", "test/"));
    assert!(str_equal("lobby", "lobby"));
    assert!(!str_equal("lobby", "lobby2"));
    assert!(is_special("lobby"));
    assert!(is_special("test/x"));
    assert!(!is_special("room1"));
    assert_eq!(trimmed("  ab c \n"), "ab c");
}

#[test]
fn quota_defaults() {
    let q = NoteQuota::new();
    assert_eq!(q.points, 24000);
    assert_eq!(q.allowance, 8000);
    assert_eq!(q.max, 24000);
    assert_eq!(q.max_hist_len, 3);
    assert_eq!(q.history, vec![24000, 24000, 24000]);
}

#[test]
fn quota_spend_and_tick() {
    let mut q = NoteQuota::new();
    assert!(!q.spend(30000));
    assert_eq!(q.points, 24000);
    assert!(q.spend(10000));
    assert_eq!(q.points, 14000);
    q.tick();
    assert_eq!(q.history, vec![14000, 24000, 24000]);
    assert_eq!(q.points, 22000);
    q.tick();
    assert_eq!(q.points, 24000);
    assert_eq!(q.history, vec![22000, 14000, 24000]);
}

#[test]
fn drained_quota_charges_allowance_per_note() {
    let mut q = NoteQuota::new();
    q.points = 0;
    q.history = vec![0, 0, 0];
    q.tick();
    assert_eq!(q.points, 8000);
    assert!(!q.spend(2));
    assert!(q.spend(1));
    assert_eq!(q.points, 0);
}

#[test]
fn default_channels() {
    let s = Server::new();
    let lobby = s.create_default_channel("lobby", 5);
    assert!(lobby.crown.is_none());
    assert!(lobby.settings.lobby);
    assert_eq!(lobby.settings.color, "#73b3cc");
    assert_eq!(lobby.settings.color2.as_deref(), Some("#273546"));
    assert_eq!(lobby.settings.chat, Some(true));
    let room = s.create_default_channel("room1", 5);
    let crown = room.crown.unwrap();
    assert_eq!(crown.participant_id, None);
    assert_eq!(crown.time, 5);
    assert_eq!(room.settings.color, "#ecfaed");
    assert!(!room.settings.lobby);
    assert!(room.settings.visible);
    assert_eq!(room.settings.chat, None);
}
