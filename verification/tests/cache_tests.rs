use rofi_wifi::cache::{
    decode_snapshot, encode_snapshot, read, remaining_ttl, snapshot_fresh, write_document,
    CacheSnapshot,
};
use rofi_wifi::types::{AccessPoint, Security};

fn sample_aps() -> Vec<AccessPoint> {
    vec![
        AccessPoint {
            ssid: "Home Net".to_string(),
            security: Security::Wpa2,
            signal: 87,
            bars: "▂▄▆█".to_string(),
            in_use: true,
        },
        AccessPoint {
            ssid: "café:guest".to_string(),
            security: Security::Unknown("SAE".to_string()),
            signal: 40,
            bars: "▂▄__".to_string(),
            in_use: false,
        },
        AccessPoint {
            ssid: "open\nline".to_string(),
            security: Security::Open,
            signal: 0,
            bars: "".to_string(),
            in_use: false,
        },
    ]
}

fn assert_same_ap(a: &AccessPoint, b: &AccessPoint) {
    assert_eq!(a.ssid, b.ssid);
    assert_eq!(a.signal, b.signal);
    assert_eq!(a.bars, b.bars);
    assert_eq!(a.in_use, b.in_use);
    match (&a.security, &b.security) {
        (Security::Open, Security::Open) => {}
        (Security::Wep, Security::Wep) => {}
        (Security::Wpa, Security::Wpa) => {}
        (Security::Wpa2, Security::Wpa2) => {}
        (Security::Wpa3, Security::Wpa3) => {}
        (Security::Unknown(x), Security::Unknown(y)) => assert_eq!(x, y),
        _ => panic!("security classes differ"),
    }
}

#[test]
fn snapshot_round_trip() {
    let snap = CacheSnapshot { timestamp: 1000, aps: sample_aps() };
    let doc = encode_snapshot(&snap);
    let back = decode_snapshot(doc.as_str()).expect("an encoded document must decode");
    assert_eq!(back.timestamp, 1000);
    assert_eq!(back.aps.len(), 3);
    for (a, b) in back.aps.iter().zip(sample_aps().iter()) {
        assert_same_ap(a, b);
    }
}

#[test]
fn empty_snapshot_round_trip() {
    let snap = CacheSnapshot { timestamp: 0, aps: vec![] };
    let doc = encode_snapshot(&snap);
    let back = decode_snapshot(doc.as_str()).expect("an empty snapshot still decodes");
    assert_eq!(back.timestamp, 0);
    assert_eq!(back.aps.len(), 0);
}

#[test]
fn truncated_document_is_rejected() {
    let doc = write_document(1000, sample_aps());
    for cut in 0..doc.chars().count() {
        let partial: String = doc.chars().take(cut).collect();
        assert!(
            decode_snapshot(partial.as_str()).is_none(),
            "a half-written document must never decode"
        );
    }
}

#[test]
fn garbled_documents_are_rejected() {
    assert!(decode_snapshot("").is_none());
    assert!(decode_snapshot("hello world").is_none());
    assert!(decode_snapshot("04 1000\n").is_none());
    let doc = write_document(5, vec![]);
    let mut extended = doc.clone();
    extended.push('x');
    assert!(decode_snapshot(extended.as_str()).is_none());
}

#[test]
fn tampered_count_is_rejected() {
    // the first field is the timestamp, the second the entry count; bumping
    // the count leaves a document the encoder cannot have written
    let doc = write_document(7, sample_aps());
    let tampered = doc.replacen("1 3
", "1 4
", 1);
    assert_ne!(doc, tampered);
    assert!(decode_snapshot(&tampered).is_none());
}

#[test]
fn ttl_scenario() {
    // snapshot written at T=1000 with ttl=30
    let doc = write_document(1000, sample_aps());
    let hit = read(Some(doc.as_str()), 1020, 30).expect("a 20 s old snapshot hits at ttl 30");
    assert_eq!(hit.len(), 3);
    assert_eq!(hit[0].ssid, "Home Net");
    assert!(read(Some(doc.as_str()), 1031, 30).is_none());
    assert_eq!(remaining_ttl(Some(doc.as_str()), 1020, 30), 10);
}

#[test]
fn ttl_boundaries() {
    let doc = write_document(1000, vec![]);
    assert!(read(Some(doc.as_str()), 1000, 30).is_some());
    assert!(read(Some(doc.as_str()), 1029, 30).is_some());
    assert!(read(Some(doc.as_str()), 1030, 30).is_none());
    assert!(snapshot_fresh(1000, 999, 30), "a clock that moved backwards counts as age zero");
    assert_eq!(remaining_ttl(Some(doc.as_str()), 1030, 30), 0);
    assert_eq!(remaining_ttl(Some(doc.as_str()), 5000, 30), 0);
}

#[test]
fn missing_or_garbled_cache_is_a_miss() {
    assert!(read(None, 1000, 30).is_none());
    assert!(read(Some("not a document"), 1000, 30).is_none());
    assert_eq!(remaining_ttl(None, 1000, 30), 0);
    assert_eq!(remaining_ttl(Some("not a document"), 1000, 30), 0);
}

#[test]
fn remaining_decreases_with_time() {
    let doc = write_document(100, vec![]);
    let mut last = remaining_ttl(Some(doc.as_str()), 100, 60);
    assert_eq!(last, 60);
    for now in 101..=170 {
        let r = remaining_ttl(Some(doc.as_str()), now, 60);
        assert!(r <= last);
        last = r;
    }
    assert_eq!(last, 0);
}
