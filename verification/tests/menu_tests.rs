use rofi_wifi::menu::{
    build_menu, details_text, hotspot_password_ok, next_iteration, parse_action,
    parse_manual_entry,
};
use rofi_wifi::types::{AccessPoint, MenuAction, Nav, RadioState, Security};

fn aps() -> Vec<AccessPoint> {
    vec![
        AccessPoint {
            ssid: "Home".to_string(),
            security: Security::Wpa2,
            signal: 87,
            bars: "▂▄▆█".to_string(),
            in_use: true,
        },
        AccessPoint {
            ssid: "Cafe".to_string(),
            security: Security::Open,
            signal: 55,
            bars: "▂▄__".to_string(),
            in_use: false,
        },
    ]
}

#[test]
fn display_line_layout() {
    let line = aps()[0].display_line();
    assert_eq!(line, "● 🔒 Home                  ▂▄▆█   87%");
    let line = aps()[1].display_line();
    assert_eq!(line, "     Cafe                  ▂▄__   55%");
}

#[test]
fn menu_model_connected() {
    let curr = Some("Cafe".to_string());
    let m = build_menu(&aps(), RadioState::Enabled, &curr, 10, 8);
    assert_eq!(m.items.len(), 10, "eight fixed rows while connected, then the networks");
    assert_eq!(m.items[0], "⚡ toggle off");
    assert_eq!(m.items[1], "🔄 refresh  (缓存剩余 10s)");
    assert_eq!(m.items[2], "✏️  manual");
    assert_eq!(m.items[3], "❌ disconnect");
    assert_eq!(m.items[4], "🗑️  forget");
    assert_eq!(m.items[5], "📡 hotspot");
    assert_eq!(m.items[6], "📊 details");
    assert_eq!(m.items[7], "📷 qrcode");
    assert_eq!(m.highlight, Some(9), "the connected network's row is pre-highlighted");
    assert!(m.warning, "an open network is listed");
    assert_eq!(m.lines, 8, "capped at the configured bound");
    let widest = m.items.iter().map(|s| s.chars().count()).max().unwrap();
    assert_eq!(m.width, widest + 4);
}

#[test]
fn menu_model_disconnected_and_disabled() {
    let m = build_menu(&vec![], RadioState::Disabled, &None, 0, 8);
    assert_eq!(m.items.len(), 6, "no details or qrcode rows without a connection");
    assert_eq!(m.items[0], "⚡ toggle on");
    assert_eq!(m.items[1], "🔄 refresh  (缓存已过期)");
    assert_eq!(m.highlight, None);
    assert!(!m.warning);
    assert_eq!(m.lines, 1, "a disabled radio shows a single line");
}

#[test]
fn actions_from_fixed_rows() {
    let curr = None;
    assert!(matches!(parse_action("⚡ toggle off", &aps(), &curr), MenuAction::ToggleRadio));
    assert!(matches!(
        parse_action("🔄 refresh  (缓存剩余 10s)", &aps(), &curr),
        MenuAction::Refresh
    ));
    assert!(matches!(parse_action("✏️  manual", &aps(), &curr), MenuAction::Manual));
    assert!(matches!(parse_action("❌ disconnect", &aps(), &curr), MenuAction::Disconnect));
    assert!(matches!(parse_action("🗑️  forget", &aps(), &curr), MenuAction::Forget));
    assert!(matches!(parse_action("📡 hotspot", &aps(), &curr), MenuAction::Hotspot));
    assert!(matches!(parse_action("📊 details", &aps(), &curr), MenuAction::Details));
    assert!(matches!(parse_action("📷 qrcode", &aps(), &curr), MenuAction::QrCode));
}

#[test]
fn actions_from_network_rows() {
    let curr = Some("Home".to_string());
    match parse_action(&aps()[1].display_line(), &aps(), &curr) {
        MenuAction::Connect(ap) => assert_eq!(ap.ssid, "Cafe"),
        _ => panic!("a network row connects to its network"),
    }
    match parse_action("something unrelated", &aps(), &curr) {
        MenuAction::Connect(ap) => {
            assert_eq!(ap.ssid, "Home", "an unmatched row falls back to the connected network")
        }
        _ => panic!("fallback goes to the connected network"),
    }
    assert!(matches!(
        parse_action("something unrelated", &aps(), &None),
        MenuAction::Refresh
    ));
    assert!(matches!(
        parse_action("something unrelated", &vec![], &Some("Gone".to_string())),
        MenuAction::Refresh
    ));
}

#[test]
fn manual_entries() {
    let (ssid, pass) = parse_manual_entry("Home,secret one").unwrap();
    assert_eq!(ssid, "Home");
    assert_eq!(pass.as_deref(), Some("secret one"));
    let (ssid, pass) = parse_manual_entry("  Home  ").unwrap();
    assert_eq!(ssid, "Home");
    assert!(pass.is_none());
    let (ssid, pass) = parse_manual_entry("Home,").unwrap();
    assert_eq!(ssid, "Home");
    assert!(pass.is_none(), "an empty credential counts as none");
    assert!(parse_manual_entry(",secret").is_none(), "an empty SSID is refused");
    assert!(parse_manual_entry("   ").is_none());
}

#[test]
fn navigation_signals() {
    assert_eq!(next_iteration(Nav::Back), Some(false));
    assert_eq!(next_iteration(Nav::Refresh), Some(true));
    assert_eq!(next_iteration(Nav::Quit), None);
}

#[test]
fn hotspot_credential_length() {
    assert!(hotspot_password_ok("12345678"));
    assert!(!hotspot_password_ok("1234567"));
    assert!(hotspot_password_ok("密码密码密码密码"));
}

#[test]
fn details_panel_text() {
    let t = details_text("Home", "10.0.0.2/24", "10.0.0.1", "1.1.1.1", "WPA2", "87", Some("12.3"));
    assert_eq!(
        t,
        "SSID     : Home\nIP       : 10.0.0.2/24\n网关     : 10.0.0.1\nDNS      : 1.1.1.1\n安全     : WPA2\n信号     : 87%\n延迟     : 12.3 ms"
    );
    let t = details_text("Home", "N/A", "N/A", "N/A", "Open", "0", None);
    assert!(t.ends_with("延迟     : 超时"));
}
