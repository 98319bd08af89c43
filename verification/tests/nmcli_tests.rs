use rofi_wifi::nmcli::{
    parse_ap_line, parse_current_ssid, parse_dev_info, parse_hotspot_active, parse_hotspot_profile,
    parse_in_use_field, parse_ip_output, parse_radio_state, parse_saved_connections,
    parse_saved_password, parse_scan_output, sort_access_points, dedup_access_points,
};
use rofi_wifi::types::{AccessPoint, RadioState, Security};

#[test]
fn ap_line_typical() {
    let ap = parse_ap_line("*:Home:WPA2:87:▂▄▆█").expect("a full line parses");
    assert!(ap.in_use);
    assert_eq!(ap.ssid, "Home");
    assert!(matches!(ap.security, Security::Wpa2));
    assert_eq!(ap.signal, 87);
    assert_eq!(ap.bars, "▂▄▆█");
}

#[test]
fn ap_line_not_in_use_and_trimmed() {
    let ap = parse_ap_line(" : Guest Net : WPA1 : 55 : ▂▄__ ").expect("fields are trimmed");
    assert!(!ap.in_use);
    assert_eq!(ap.ssid, "Guest Net");
    assert!(matches!(ap.security, Security::Wpa));
    assert_eq!(ap.signal, 55);
    assert_eq!(ap.bars, "▂▄__");
}

#[test]
fn ap_line_rejects_hidden_and_short() {
    assert!(parse_ap_line("*:--:WPA2:87:▂▄▆█").is_none(), "a -- SSID is hidden");
    assert!(parse_ap_line("*::WPA2:87:▂▄▆█").is_none(), "an empty SSID is hidden");
    assert!(parse_ap_line("*:Home:WPA2:87").is_none(), "four fields are too few");
    assert!(parse_ap_line("").is_none());
}

#[test]
fn ap_line_bad_signal_reads_zero() {
    let ap = parse_ap_line(":Home:WPA2:strong:▂▄▆█").unwrap();
    assert_eq!(ap.signal, 0);
    let ap = parse_ap_line(":Home:WPA2:999:▂▄▆█").unwrap();
    assert_eq!(ap.signal, 0, "a value over the type's range reads zero");
}

#[test]
fn ap_line_keeps_colons_in_bars() {
    let ap = parse_ap_line(":Home:WPA2:87:a:b:c").unwrap();
    assert_eq!(ap.bars, "a:b:c");
}

#[test]
fn scan_output_orders_and_dedups() {
    let text = "\
:Far:WPA2:20:▂___
*:Home:WPA2:70:▂▄▆_
--comment:x:y:1:z
:Home:WPA2:95:▂▄▆█
:Other:WPA2:80:▂▄▆_
:Other::55:▂▄__
";
    let aps = parse_scan_output(text);
    // the associated network first, then descending signal; duplicate SSIDs
    // collapse to the first survivor
    let names: Vec<&str> = aps.iter().map(|a| a.ssid.as_str()).collect();
    assert_eq!(names, vec!["Home", "Other", "Far"]);
    assert!(aps[0].in_use);
    assert_eq!(aps[0].signal, 70, "the associated entry survives, not its stronger twin");
    assert_eq!(aps[1].signal, 80, "of two unassociated twins the stronger survives");
}

#[test]
fn sort_is_stable_for_equal_keys() {
    let mk = |ssid: &str, signal: u8| AccessPoint {
        ssid: ssid.to_string(),
        security: Security::Wpa2,
        signal,
        bars: String::new(),
        in_use: false,
    };
    let mut v = vec![mk("b", 50), mk("a", 50), mk("c", 70)];
    sort_access_points(&mut v);
    let names: Vec<&str> = v.iter().map(|a| a.ssid.as_str()).collect();
    assert_eq!(names, vec!["c", "b", "a"], "equal signals keep their scan order");
}

#[test]
fn dedup_keeps_associated_duplicate() {
    let mk = |ssid: &str, in_use: bool| AccessPoint {
        ssid: ssid.to_string(),
        security: Security::Wpa2,
        signal: 50,
        bars: String::new(),
        in_use,
    };
    let v = vec![mk("x", true), mk("x", false), mk("y", false), mk("y", false)];
    let d = dedup_access_points(&v);
    assert_eq!(d.len(), 2);
    assert_eq!(d[0].ssid, "x");
    assert!(d[0].in_use, "the associated entry is retained");
    assert_eq!(d[1].ssid, "y", "two unassociated twins collapse to one");
}

#[test]
fn radio_state_words() {
    assert_eq!(parse_radio_state("WIFI\nenabled\n"), RadioState::Enabled);
    assert_eq!(parse_radio_state("WIFI\ndisabled\n"), RadioState::Disabled);
    assert_eq!(parse_radio_state(""), RadioState::Disabled);
}

#[test]
fn current_ssid_lines() {
    assert_eq!(
        parse_current_ssid("no:Other\nyes:Home Net\nno:Third\n").as_deref(),
        Some("Home Net")
    );
    assert!(parse_current_ssid("no:Other\nno:Third\n").is_none());
    assert_eq!(parse_current_ssid("yes:\n").as_deref(), Some(""));
}

#[test]
fn saved_connection_names() {
    let out = "Home:802-11-wireless\nVPN Office:vpn\nCafe:802-11-wireless\n";
    let names = parse_saved_connections(out);
    assert_eq!(names, vec!["Home".to_string(), "Cafe".to_string()]);
}

#[test]
fn saved_password_field() {
    let out = "802-11-wireless-security.psk:SECRET-REDACTED\n";
    assert_eq!(parse_saved_password(out).as_deref(), Some("SECRET-REDACTED"));
    assert!(parse_saved_password("other.line:1\n").is_none());
    assert!(parse_saved_password("802-11-wireless-security.psk\n").is_none());
}

#[test]
fn ip_field() {
    let out = "GENERAL.DEVICE:wlan0\nIP4.ADDRESS[1]:192.168.1.7/24\n";
    assert_eq!(parse_ip_output(out).as_deref(), Some("192.168.1.7/24"));
    assert!(parse_ip_output("GENERAL.DEVICE:wlan0\n").is_none());
}

#[test]
fn dev_info_fields() {
    let out = "IP4.ADDRESS[1]:10.0.0.2/24\nIP4.GATEWAY:10.0.0.1\nIP4.DNS[1]:1.1.1.1\nIP4.DNS[2]:8.8.8.8\n";
    let (ip, gw, dns) = parse_dev_info(out);
    assert_eq!(ip, "10.0.0.2/24");
    assert_eq!(gw, "10.0.0.1");
    assert_eq!(dns, "1.1.1.1, 8.8.8.8");
    let (ip, gw, dns) = parse_dev_info("");
    assert_eq!(ip, "N/A");
    assert_eq!(gw, "N/A");
    assert_eq!(dns, "N/A");
}

#[test]
fn hotspot_lookups() {
    let active = "MyHotspot:wlan0\nHome:wlan1\n";
    assert_eq!(parse_hotspot_active(active).as_deref(), Some("MyHotspot"));
    assert!(parse_hotspot_active("Home:wlan0\n").is_none());
    let profiles = "Home:802-11-wireless\n热点分享:802-11-wireless\nHotspot2:vpn\n";
    assert_eq!(parse_hotspot_profile(profiles).as_deref(), Some("热点分享"));
    assert!(parse_hotspot_profile("Hotspot2:vpn\n").is_none(), "only wireless profiles count");
}

#[test]
fn in_use_fields() {
    assert_eq!(parse_in_use_field("no:44\n*:87\n"), "87");
    assert_eq!(parse_in_use_field("no:44\n"), "--");
    assert_eq!(parse_in_use_field("*:WPA2:extra\n"), "WPA2");
}
