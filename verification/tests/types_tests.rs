use rofi_wifi::config::Config;
use rofi_wifi::daemon::{read_pid, start_decision, stop_decision, StartDecision, StopDecision};
use rofi_wifi::notify::{critical, display_title, low, normal, urgency_arg, Urgency};
use rofi_wifi::text::{contains_ci, contains_str, parse_u64, split_lines_vec, trim, u64_to_string};
use rofi_wifi::types::Security;

#[test]
fn security_from_descriptor() {
    assert!(matches!(Security::from_descriptor("WPA2 WPA3"), Security::Wpa3));
    assert!(matches!(Security::from_descriptor("WPA2"), Security::Wpa2));
    assert!(matches!(Security::from_descriptor("wpa1"), Security::Wpa));
    assert!(matches!(Security::from_descriptor("WEP"), Security::Wep));
    assert!(matches!(Security::from_descriptor("wep 40-bit"), Security::Wep));
    assert!(matches!(Security::from_descriptor(""), Security::Open));
    assert!(matches!(Security::from_descriptor("--"), Security::Open));
    match Security::from_descriptor("SAE") {
        Security::Unknown(s) => assert_eq!(s, "SAE"),
        _ => panic!("an unrecognised descriptor is kept verbatim"),
    }
}

#[test]
fn security_password_and_label() {
    assert!(!Security::Open.needs_password());
    assert!(Security::Wep.needs_password());
    assert!(Security::Unknown("SAE".to_string()).needs_password());
    assert_eq!(Security::Open.label(), "Open");
    assert_eq!(Security::Wpa3.label(), "WPA3");
    assert_eq!(Security::Unknown("SAE".to_string()).label(), "SAE");
}

#[test]
fn config_defaults() {
    let c = Config::default();
    assert_eq!(c.font, "DejaVu Sans Mono 8");
    assert_eq!(c.max_lines, 8);
    assert_eq!(c.connect_timeout, 15);
    assert_eq!(c.max_retry, 3);
    assert_eq!(c.cache_ttl, 30);
    assert_eq!(c.ping_host, "1.1.1.1");
    assert_eq!(c.ping_count, 2);
    assert!(c.auto_vpn.is_empty());
}

#[test]
fn config_paths() {
    assert_eq!(Config::cache_path("/run/user/1000"), "/run/user/1000/rofi-wifi-cache.json");
    assert_eq!(Config::pid_path("/tmp"), "/tmp/rofi-wifi-daemon.pid");
    assert_eq!(Config::lock_path("/tmp"), "/tmp/rofi-wifi-scan.lock");
}

#[test]
fn notifications() {
    let n = low("扫描中", "正在搜索附近 Wi-Fi…");
    assert_eq!(n.urgency, Urgency::Low);
    assert_eq!(n.title, "扫描中");
    let n = normal("Wi-Fi", "已开启");
    assert_eq!(n.urgency, Urgency::Normal);
    let n = critical("错误", "SSID 不能为空");
    assert_eq!(n.urgency, Urgency::Critical);
    assert_eq!(urgency_arg(Urgency::Low), "low");
    assert_eq!(urgency_arg(Urgency::Critical), "critical");
    assert_eq!(display_title("已连接"), "Wi-Fi: 已连接");
}

#[test]
fn pid_file_reading() {
    assert_eq!(read_pid(Some("1234\n")), Some(1234));
    assert_eq!(read_pid(Some("  42  ")), Some(42));
    assert_eq!(read_pid(Some("4294967295")), Some(u32::MAX));
    assert_eq!(read_pid(Some("4294967296")), None);
    assert_eq!(read_pid(Some("pid 12")), None);
    assert_eq!(read_pid(Some("")), None);
    assert_eq!(read_pid(None), None);
}

#[test]
fn daemon_decisions() {
    assert_eq!(start_decision(Some(7), true), StartDecision::AlreadyRunning { pid: 7 });
    assert_eq!(start_decision(Some(7), false), StartDecision::Claim);
    assert_eq!(start_decision(None, false), StartDecision::Claim);
    assert_eq!(stop_decision(false, None), StopDecision::NotRunning);
    assert_eq!(stop_decision(true, None), StopDecision::Unreadable);
    assert_eq!(stop_decision(true, Some(7)), StopDecision::Terminate { pid: 7 });
}

#[test]
fn number_round_trips() {
    assert_eq!(u64_to_string(0), "0");
    assert_eq!(u64_to_string(105), "105");
    assert_eq!(u64_to_string(u64::MAX), "18446744073709551615");
    assert_eq!(parse_u64("0"), Some(0));
    assert_eq!(parse_u64("007"), Some(7));
    assert_eq!(parse_u64("18446744073709551615"), Some(u64::MAX));
    assert_eq!(parse_u64("18446744073709551616"), None);
    assert_eq!(parse_u64(""), None);
    assert_eq!(parse_u64("12a"), None);
    assert_eq!(parse_u64("-3"), None);
}

#[test]
fn text_searching_and_trimming() {
    assert!(contains_str("the timeout expired", "timeout"));
    assert!(!contains_str("time out", "timeout"));
    assert!(contains_str("anything", ""));
    assert!(contains_ci("TIMEOUT!", "timeout"));
    assert!(contains_ci("WPA2 WPA3", "wpa3"));
    assert!(!contains_ci("wep", "wpa"));
    assert_eq!(trim("  hello \n"), "hello");
    assert_eq!(trim("   "), "");
    assert_eq!(trim("já"), "já");
}

#[test]
fn line_splitting_matches_line_iteration() {
    let got = split_lines_vec("a\r\nb\n\nc");
    assert_eq!(got, vec!["a".to_string(), "b".to_string(), "".to_string(), "c".to_string()]);
    assert_eq!(split_lines_vec("tail\n"), vec!["tail".to_string()]);
    assert!(split_lines_vec("").is_empty());
}
