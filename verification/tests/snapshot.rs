use forever_perfmon::snapshot::{json_token, json_u64, snapshot_text};

#[test]
fn reads_numbers_by_key() {
    let raw = "{\n  \"a\": 12,\n  \"b\" :  -1.5e3 ,\n  \"c\": null,\n  \"d\": \"x\"\n}";
    assert_eq!(json_token(raw, "a").as_deref(), Some("12"));
    assert_eq!(json_token(raw, "b").as_deref(), Some("-1.5e3"));
    assert_eq!(json_token(raw, "c"), None);
    assert_eq!(json_token(raw, "d"), None);
    assert_eq!(json_token(raw, "e"), None);
    assert_eq!(json_u64(raw, "a"), Some(12));
    assert_eq!(json_u64(raw, "b"), None);
    assert_eq!(json_u64("\"k\": +7", "k"), Some(7));
    assert_eq!(json_u64("\"k\": 18446744073709551615", "k"), Some(u64::MAX));
    assert_eq!(json_u64("\"k\": 18446744073709551616", "k"), None);
    assert_eq!(json_u64("\"k\" 5", "k"), None);
}

#[test]
fn writes_the_snapshot_file() {
    let text = snapshot_text(
        "2024-01-02 03:04:05",
        42,
        "1.000",
        "2.500",
        "3.000",
        "4.125",
        Some(1_000),
        None,
    );
    assert_eq!(
        text,
        "{\n  \"version\": 5,\n  \"saved_at\": \"2024-01-02 03:04:05\",\n  \"timestamp\": 42,\n  \"disk_read_sum\": 1.000,\n  \"disk_write_sum\": 2.500,\n  \"network_received_sum\": 3.000,\n  \"network_sent_sum\": 4.125,\n  \"tailscale_received_absolute_bytes\": 1000,\n  \"tailscale_sent_absolute_bytes\": null\n}\n"
    );
}

#[test]
fn snapshot_reads_back() {
    let text = snapshot_text(
        "2024-01-02 03:04:05",
        u64::MAX,
        "1.000",
        "-2.500",
        "3.000",
        "4.125",
        None,
        Some(77),
    );
    assert_eq!(json_u64(&text, "timestamp"), Some(u64::MAX));
    assert_eq!(json_u64(&text, "tailscale_received_absolute_bytes"), None);
    assert_eq!(json_u64(&text, "tailscale_sent_absolute_bytes"), Some(77));
    assert_eq!(json_token(&text, "disk_write_sum").as_deref(), Some("-2.500"));
    assert_eq!(json_u64(&text, "version"), Some(5));
}
