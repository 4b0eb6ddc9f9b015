//! The top-level router, the static panels' cursors and the small
//! widgets.

use rootwork::app::App;
use rootwork::boot::{BootContext, BootEntry, BootInfo};
use rootwork::dns::DnsContext;
use rootwork::journal::Journal;
use rootwork::network::{Interface, NetworkContext, NetworkInfo};
use rootwork::units::Key;
use rootwork::widgets::{Help, LogView, StatusBar, UnitList};

fn iface(name: &str) -> Interface {
    Interface {
        name: name.to_string(),
        state: "up".to_string(),
        mac: None,
        mtu: Some(1500),
        ipv4: Vec::new(),
        ipv6: Vec::new(),
        rx_bytes: 0,
        tx_bytes: 0,
    }
}

#[test]
fn context_cycling_wraps_both_ways() {
    let mut app = App::new();
    assert_eq!(app.current_context(), 0);
    assert_eq!(app.context_name(), "Units");
    app.prev_context();
    assert_eq!(app.current_context(), 5);
    assert_eq!(app.context_name(), "Logs");
    app.next_context();
    assert_eq!(app.current_context(), 0);
    app.set_context(3);
    assert_eq!(app.context_name(), "Host");
    app.set_context(99);
    assert_eq!(app.current_context(), 3);
}

#[test]
fn any_key_closes_the_help_overlay() {
    let mut app = App::new();
    app.toggle_help();
    assert!(app.show_help());
    let r = app.handle_key(Key::Char('q'));
    assert!(r.is_none());
    assert!(!app.show_help());
}

#[test]
fn error_line_can_be_set_and_cleared() {
    let mut app = App::new();
    assert!(app.error_message().is_none());
    app.set_error("boom".to_string());
    assert_eq!(app.error_message().map(|s| s.as_str()), Some("boom"));
    app.clear_error();
    assert!(app.error_message().is_none());
}

#[test]
fn network_cursor_is_clamped() {
    let mut ctx = NetworkContext::new();
    ctx.refresh(Ok(NetworkInfo {
        interfaces: vec![iface("eth0"), iface("wlan0"), iface("tun0")],
        routes: Vec::new(),
    }));
    ctx.move_up();
    assert_eq!(ctx.selected_interface, 0);
    ctx.move_down();
    ctx.move_down();
    ctx.move_down();
    assert_eq!(ctx.selected_interface, 2);
    ctx.go_top();
    assert_eq!(ctx.selected_interface, 0);
    ctx.page_down();
    assert_eq!(ctx.selected_interface, 2);
    ctx.page_up();
    assert_eq!(ctx.selected_interface, 0);
    ctx.go_bottom();
    assert_eq!(ctx.selected_interface, 2);
}

#[test]
fn network_gather_failure_is_kept() {
    let mut ctx = NetworkContext::new();
    ctx.refresh(Err("no such directory".to_string()));
    assert!(ctx.info.is_none());
    assert_eq!(ctx.error.as_deref(), Some("no such directory"));
}

#[test]
fn boot_cursor_walks_the_entries() {
    let mut ctx = BootContext::new();
    ctx.refresh(Ok(BootInfo {
        systemd_boot: true,
        firmware: "unknown".to_string(),
        loader_version: "unknown".to_string(),
        secure_boot: "enabled".to_string(),
        setup_mode: "unknown".to_string(),
        entries: vec![
            BootEntry {
                id: "linux".to_string(),
                title: "linux".to_string(),
                version: None,
                machine_id: None,
                is_default: false,
            },
            BootEntry {
                id: "linux-lts".to_string(),
                title: "linux-lts".to_string(),
                version: None,
                machine_id: None,
                is_default: false,
            },
        ],
    }));
    assert_eq!(ctx.selected_entry, 0);
    ctx.move_down();
    assert_eq!(ctx.selected_entry, 1);
    ctx.move_down();
    assert_eq!(ctx.selected_entry, 1);
    ctx.move_up();
    assert_eq!(ctx.selected_entry, 0);
}

#[test]
fn dns_cursor_stays_put_without_entries() {
    let mut ctx = DnsContext::new();
    ctx.move_down();
    assert_eq!(ctx.selected_interface, 0);
    ctx.move_up();
    assert_eq!(ctx.selected_interface, 0);
}

#[test]
fn placeholder_journal_serves_nothing() {
    assert!(Journal::new().is_ok());
    let logs = Journal::get_logs(Some("a.service"), 10).unwrap();
    assert!(logs.is_empty());
}

#[test]
fn help_overlay_toggles() {
    let mut h = Help::new();
    assert!(!h.visible);
    h.toggle();
    assert!(h.visible);
    h.toggle();
    assert!(!h.visible);
}

#[test]
fn widget_frames_construct() {
    let _ = LogView::new();
    let _ = StatusBar::new();
    let _ = UnitList::new();
}
