use rofi_wifi::qr::{escape_wifi_field, pad_qr_image, qr_window_width, wifi_qr, QrGenError};
use rofi_wifi::types::Security;

#[test]
fn escaping_reserved_characters() {
    assert_eq!(escape_wifi_field("plain"), "plain");
    assert_eq!(escape_wifi_field("a;b,c\"d\\e"), "a\\;b\\,c\\\"d\\\\e");
    assert_eq!(escape_wifi_field(""), "");
    assert_eq!(escape_wifi_field(";;"), "\\;\\;");
}

#[test]
fn padding_indents_every_line() {
    assert_eq!(pad_qr_image("ab\ncd"), "  ab\n  cd");
    assert_eq!(pad_qr_image("one"), "  one");
    assert_eq!(pad_qr_image(""), "");
}

#[test]
fn window_width_follows_first_line() {
    assert_eq!(qr_window_width("abc\ndefgh"), 7);
    assert_eq!(qr_window_width(""), 44);
}

#[test]
fn rendering_produces_a_block_image() {
    let img = wifi_qr("Home", "secret123", &Security::Wpa2).expect("a short payload renders");
    assert!(!img.is_empty());
    assert_ne!(img, "WIFI:T:WPA;S:Home;P:secret123;;", "the rendering is not the payload");
    assert!(img.lines().count() > 10, "a code is many lines tall");
    for line in img.lines() {
        assert!(line.starts_with("  "), "every line is indented for display");
    }
    assert!(
        img.contains('█') || img.contains('▀') || img.contains('▄'),
        "the rendering is made of half-block glyphs"
    );
}

#[test]
fn renderings_differ_with_content() {
    let a = wifi_qr("Home", "secret123", &Security::Wpa2).unwrap();
    let b = wifi_qr("Home", "secret124", &Security::Wpa2).unwrap();
    assert_ne!(a, b, "a changed credential changes the code");
}

#[test]
fn oversized_payload_is_refused() {
    let huge = "x".repeat(4000);
    match wifi_qr("Home", &huge, &Security::Wpa2) {
        Err(QrGenError::DataTooLong) => {}
        other => panic!("a 4000-character credential cannot fit a code: {:?}", other.is_ok()),
    }
}

#[test]
fn open_network_payload_mode() {
    let a = wifi_qr("Home", "", &Security::Open).unwrap();
    let b = wifi_qr("Home", "", &Security::Wep).unwrap();
    assert_ne!(a, b, "the security mode is part of the payload");
}
