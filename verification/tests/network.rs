use forever_perfmon::network::{
    add_totals, installed_memory_bytes, is_tailscale_adapter, network_totals,
    wide_array_to_string, InterfaceRow,
};
use forever_perfmon::types::IfTotals;

fn wide(s: &str, width: usize) -> Vec<u16> {
    let mut v: Vec<u16> = s.encode_utf16().collect();
    v.resize(width, 0);
    v
}

fn row(alias: &str, description: &str, received: u64, sent: u64) -> InterfaceRow {
    InterfaceRow {
        alias: wide(alias, 257),
        description: wide(description, 257),
        in_octets: received,
        out_octets: sent,
    }
}

#[test]
fn reads_windows_interface_totals() {
    let rows = vec![
        row("Ethernet", "Intel(R) Ethernet", 1_000, 2_000),
        row("Tailscale", "Tailscale Tunnel", 30, 40),
    ];
    let totals = network_totals(&rows).all;
    let _ = totals.received_bytes;
    let _ = totals.sent_bytes;
}

#[test]
fn sums_all_rows_and_tailscale_rows() {
    let rows = vec![
        row("Ethernet", "Intel(R) Ethernet", 1_000, 2_000),
        row("Tailscale", "Tailscale Tunnel", 30, 40),
        row("tailscale-npcap", "Npcap Packet Driver (NPCAP)", 5, 6),
        row("TAILSCALE 2", "Tunnel", 1, 2),
    ];
    let totals = network_totals(&rows);
    assert_eq!(totals.all.received_bytes, 1_036);
    assert_eq!(totals.all.sent_bytes, 2_048);
    let t = totals.tailscale.unwrap();
    assert_eq!((t.received_bytes, t.sent_bytes), (31, 42));

    let none = network_totals(&vec![row("Wi-Fi", "Wireless", u64::MAX, 1), row("Eth", "x", 9, 1)]);
    assert!(none.tailscale.is_none());
    assert_eq!(none.all.received_bytes, u64::MAX);
    assert_eq!(none.all.sent_bytes, 2);

    let empty = network_totals(&Vec::new());
    assert_eq!((empty.all.received_bytes, empty.all.sent_bytes), (0, 0));
    assert!(empty.tailscale.is_none());
}

#[test]
fn recognises_tailscale_adapters() {
    assert!(is_tailscale_adapter("Tailscale", "Tailscale Tunnel"));
    assert!(is_tailscale_adapter("tailscale0", ""));
    assert!(!is_tailscale_adapter("My Tailscale", "x"));
    assert!(!is_tailscale_adapter("Tailscale-Npcap Packet Driver", "x"));
    assert!(!is_tailscale_adapter("Tailscale", "Npcap Packet Driver (NPCAP)"));
    assert!(!is_tailscale_adapter("Tailscal", ""));
}

#[test]
fn decodes_nul_terminated_utf16() {
    assert_eq!(wide_array_to_string(&wide("Ethernet", 16)), "Ethernet");
    assert_eq!(wide_array_to_string(&vec![0x41, 0x42]), "AB");
    assert_eq!(wide_array_to_string(&vec![0, 0x41]), "");
    assert_eq!(wide_array_to_string(&vec![0xD83D, 0xDE00, 0]), "\u{1F600}");
    assert_eq!(wide_array_to_string(&vec![0xD800, 0x41, 0]), "\u{FFFD}A");
}

#[test]
fn adds_totals_saturating() {
    let a = IfTotals { received_bytes: u64::MAX - 1, sent_bytes: 5 };
    let b = IfTotals { received_bytes: 10, sent_bytes: 6 };
    let c = add_totals(a, b);
    assert_eq!((c.received_bytes, c.sent_bytes), (u64::MAX, 11));
    let d = IfTotals::default();
    assert_eq!((d.received_bytes, d.sent_bytes), (0, 0));
}

#[test]
fn installed_memory_in_bytes() {
    assert_eq!(installed_memory_bytes(Some(16 * 1024 * 1024)), Some(16 * 1024 * 1024 * 1024));
    assert_eq!(installed_memory_bytes(Some(0)), None);
    assert_eq!(installed_memory_bytes(None), None);
    assert_eq!(installed_memory_bytes(Some(u64::MAX / 512)), Some(u64::MAX));
}

#[test]
fn tailscale_totals_stay_within_all() {
    let rows = vec![
        row("tailscale0", "", u64::MAX - 5, 9),
        row("Ethernet", "", 10, u64::MAX),
        row("Tailscale 2", "", 3, 4),
    ];
    let totals = network_totals(&rows);
    let t = totals.tailscale.unwrap();
    assert!(t.received_bytes <= totals.all.received_bytes);
    assert!(t.sent_bytes <= totals.all.sent_bytes);
    assert_eq!((t.received_bytes, t.sent_bytes), (u64::MAX - 2, 13));
    assert_eq!((totals.all.received_bytes, totals.all.sent_bytes), (u64::MAX, u64::MAX));
}
