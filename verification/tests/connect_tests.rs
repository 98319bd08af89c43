use rofi_wifi::connect::{
    abort_notification, cancelled_notice, classify_failure, connect_route, connecting_notice,
    retry_hint, retry_notice, success_notice, vpn_profiles_for, AbortReason, ConnPhase,
    ConnectRoute, ConnectionAttempt,
};
use rofi_wifi::notify::Urgency;
use rofi_wifi::types::{AccessPoint, ConnectResult, Security};

#[test]
fn classify_wrong_credential_markers() {
    for text in [
        "Error: Secrets were required, but not provided.",
        "invalid PASSWORD given",
        "802-11-wireless-security handshake failed",
        "Authentication failure",
    ] {
        assert!(matches!(classify_failure(text, ""), ConnectResult::WrongPassword));
        assert!(matches!(classify_failure("", text), ConnectResult::WrongPassword));
    }
}

#[test]
fn classify_timeout() {
    assert!(matches!(
        classify_failure("Error: Timeout expired.", ""),
        ConnectResult::Timeout
    ));
    assert!(matches!(
        classify_failure("", "connection TIMEOUT reached"),
        ConnectResult::Timeout
    ));
}

#[test]
fn classify_other_takes_last_error_line() {
    match classify_failure("first line\nsecond line", "") {
        ConnectResult::Failed(msg) => assert_eq!(msg, "second line"),
        _ => panic!("an unmarked failure stays unclassified"),
    }
    match classify_failure("", "") {
        ConnectResult::Failed(msg) => assert_eq!(msg, "未知错误"),
        _ => panic!("empty output still yields a message"),
    }
}

#[test]
fn ceiling_scenario_three_wrong_credentials() {
    // ceiling 3: three refused attempts, two retry prompts, then Failed
    let mut m = ConnectionAttempt::start("Home".to_string(), true, 3);
    assert!(matches!(m.phase, ConnPhase::AwaitingCredential));
    m.provide_credential(Some("first".to_string()));
    assert!(matches!(m.phase, ConnPhase::Attempting));
    assert_eq!(m.attempt, 1);
    m.record_result(ConnectResult::WrongPassword);
    assert!(matches!(m.phase, ConnPhase::WrongCredentialRetry));
    m.provide_credential(Some("second".to_string()));
    assert_eq!(m.attempt, 2);
    assert!(matches!(m.phase, ConnPhase::Attempting));
    m.record_result(ConnectResult::WrongPassword);
    assert!(matches!(m.phase, ConnPhase::WrongCredentialRetry));
    m.provide_credential(Some("third".to_string()));
    assert_eq!(m.attempt, 3);
    assert!(matches!(m.phase, ConnPhase::Attempting));
    m.record_result(ConnectResult::WrongPassword);
    match &m.phase {
        ConnPhase::Failed(AbortReason::CredentialsExhausted { attempts }) => {
            assert_eq!(*attempts, 3, "the final reason states the attempt total");
        }
        _ => panic!("after the third refusal the action has failed"),
    }
}

#[test]
fn ceiling_of_one_fails_on_first_refusal() {
    let mut m = ConnectionAttempt::start("Home".to_string(), false, 1);
    m.record_result(ConnectResult::WrongPassword);
    match &m.phase {
        ConnPhase::Failed(AbortReason::CredentialsExhausted { attempts }) => {
            assert_eq!(*attempts, 1)
        }
        _ => panic!("a ceiling of one allows no retry"),
    }
}

#[test]
fn timeout_short_circuits_in_one_attempt() {
    let mut m = ConnectionAttempt::start("Home".to_string(), false, 3);
    assert!(matches!(m.phase, ConnPhase::Attempting), "no credential needed: no prompt");
    m.record_result(ConnectResult::Timeout);
    assert!(matches!(m.phase, ConnPhase::Failed(AbortReason::Timeout)));
    assert_eq!(m.attempt, 1, "a timeout never re-prompts");
}

#[test]
fn other_failure_is_not_retried() {
    let mut m = ConnectionAttempt::start("Home".to_string(), false, 3);
    m.record_result(ConnectResult::Failed("activation failed".to_string()));
    match &m.phase {
        ConnPhase::Failed(AbortReason::Other(msg)) => assert_eq!(msg, "activation failed"),
        _ => panic!("an unclassified failure ends the action"),
    }
}

#[test]
fn success_records_address() {
    let mut m = ConnectionAttempt::start("Home".to_string(), false, 3);
    m.record_result(ConnectResult::Success { ip: "10.0.0.9".to_string() });
    match &m.phase {
        ConnPhase::Succeeded { ip } => assert_eq!(ip, "10.0.0.9"),
        _ => panic!("success is terminal"),
    }
}

#[test]
fn cancelled_or_empty_credential_abandons() {
    let mut m = ConnectionAttempt::start("Home".to_string(), true, 3);
    m.provide_credential(None);
    assert!(matches!(m.phase, ConnPhase::Abandoned));
    let mut m = ConnectionAttempt::start("Home".to_string(), true, 3);
    m.provide_credential(Some(String::new()));
    assert!(matches!(m.phase, ConnPhase::Abandoned));
}

#[test]
fn exhausted_notice_states_the_count() {
    let n = abort_notification("Home", &AbortReason::CredentialsExhausted { attempts: 3 });
    assert_eq!(n.urgency, Urgency::Critical);
    assert_eq!(n.title, "连接失败");
    assert_eq!(n.body, "已重试 3 次，密码始终错误");
    assert!(n.body.contains('3'));
}

#[test]
fn timeout_and_other_notices() {
    let n = abort_notification("Home", &AbortReason::Timeout);
    assert_eq!(n.title, "连接超时");
    assert_eq!(n.body, "Home 连接超时，请检查信号强度");
    let n = abort_notification("Home", &AbortReason::Other("boom".to_string()));
    assert_eq!(n.title, "连接失败");
    assert_eq!(n.body, "boom");
}

#[test]
fn progress_notices() {
    let n = retry_notice(2, 3);
    assert_eq!(n.body, "第 1 次输入有误，请重试 (2/3)");
    assert_eq!(retry_hint(2), "第 2 次");
    let n = connecting_notice("Home", 1, 3);
    assert_eq!(n.urgency, Urgency::Normal);
    assert_eq!(n.body, "Home（1/3）");
    let n = cancelled_notice("Home");
    assert_eq!(n.urgency, Urgency::Low);
    assert_eq!(n.body, "放弃连接 Home");
}

#[test]
fn success_notices() {
    let n = success_notice("Home", "10.0.0.9", true, Some("23"));
    assert_eq!(n.body, "Home\nIP: 10.0.0.9\n✓ 网络畅通 (23ms)");
    let n = success_notice("Home", "10.0.0.9", true, None);
    assert_eq!(n.body, "Home\nIP: 10.0.0.9\n✓ 网络畅通");
    let n = success_notice("Home", "未知", false, None);
    assert_eq!(n.body, "Home\nIP: 未知\n⚠ 已连接但无法访问互联网");
}

#[test]
fn routing_saved_versus_new() {
    let ap = AccessPoint {
        ssid: "Home".to_string(),
        security: Security::Wpa2,
        signal: 70,
        bars: String::new(),
        in_use: false,
    };
    let saved = vec!["Cafe".to_string(), "Home".to_string()];
    assert_eq!(connect_route(&ap, &saved), ConnectRoute::SavedProfile);
    let saved = vec!["Cafe".to_string()];
    assert_eq!(
        connect_route(&ap, &saved),
        ConnectRoute::NewConnection { needs_credential: true }
    );
    let open = AccessPoint { security: Security::Open, ..ap };
    assert_eq!(
        connect_route(&open, &saved),
        ConnectRoute::NewConnection { needs_credential: false }
    );
}

#[test]
fn vpn_profiles_match_trigger() {
    let pairs = vec![
        ("Office VPN".to_string(), "Home".to_string()),
        ("Backup VPN".to_string(), "Cafe".to_string()),
        ("Second VPN".to_string(), "Home".to_string()),
    ];
    assert_eq!(
        vpn_profiles_for(&pairs, "Home"),
        vec!["Office VPN".to_string(), "Second VPN".to_string()]
    );
    assert!(vpn_profiles_for(&pairs, "Elsewhere").is_empty());
}
