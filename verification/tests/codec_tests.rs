use mist::MonitorConfig;

fn sample() -> MonitorConfig {
    MonitorConfig {
        id: "a1".to_string(),
        name: "Cache".to_string(),
        path: "C:\\Users\\me\\AppData\\Local\\Temp".to_string(),
        threshold_micro_mb: 100_500_000,
        enabled: true,
        notify: false,
        max_depth: Some(2),
        last_scan_at: None,
    }
}

#[test]
fn writes_the_expected_document() {
    let m = MonitorConfig {
        id: "a".to_string(),
        name: "n".to_string(),
        path: "p".to_string(),
        threshold_micro_mb: 100_500_000,
        enabled: true,
        notify: false,
        max_depth: Some(2),
        last_scan_at: None,
    };
    let json = mist::monitors_to_json(&vec![m]);
    assert_eq!(
        json,
        "[{\"id\":\"a\",\"name\":\"n\",\"path\":\"p\",\"thresholdMb\":100.500000,\
         \"enabled\":true,\"notify\":false,\"maxDepth\":2,\"lastScanAt\":null}]"
    );
}

#[test]
fn empty_list_is_brackets() {
    assert_eq!(mist::monitors_to_json(&Vec::new()), "[]");
    assert_eq!(mist::parse_monitors_json("[]"), Some(Vec::new()));
    assert_eq!(mist::parse_monitors_json("  [\n ]\n"), Some(Vec::new()));
}

#[test]
fn three_records_round_trip() {
    let ms = vec![
        sample(),
        MonitorConfig {
            id: "b2".to_string(),
            name: "Quote \" and \\ backslash\nand newline".to_string(),
            path: "/var/tmp".to_string(),
            threshold_micro_mb: 0,
            enabled: false,
            notify: true,
            max_depth: None,
            last_scan_at: Some(1_700_000_000),
        },
        MonitorConfig {
            id: "c3".to_string(),
            name: String::new(),
            path: "%TEMP%".to_string(),
            threshold_micro_mb: u64::MAX,
            enabled: true,
            notify: true,
            max_depth: Some(0),
            last_scan_at: Some(0),
        },
    ];
    let json = mist::monitors_to_json(&ms);
    let back = mist::parse_monitors_json(&json).expect("written document must parse");
    assert_eq!(back, ms);
}

#[test]
fn written_document_is_valid_json_elsewhere() {
    let json = mist::monitors_to_json(&vec![sample()]);
    let v: serde_json::Value = serde_json::from_str(&json).expect("valid JSON");
    assert_eq!(v[0]["id"], serde_json::Value::String("a1".to_string()));
    assert_eq!(v[0]["notify"], serde_json::Value::Bool(false));
    assert_eq!(v[0]["maxDepth"], serde_json::Value::from(2u64));
    assert_eq!(v[0]["lastScanAt"], serde_json::Value::Null);
    assert!((v[0]["thresholdMb"].as_f64().unwrap() - 100.5).abs() < 1e-9);
}

#[test]
fn parses_a_pretty_printed_document() {
    let text = "[\n  {\n    \"id\": \"x\",\n    \"name\": \"X\",\n    \"path\": \"C:\\\\T\",\n    \
                \"thresholdMb\": 100.5,\n    \"enabled\": true,\n    \"notify\": true,\n    \
                \"maxDepth\": null,\n    \"lastScanAt\": 5\n  }\n]\n";
    let ms = mist::parse_monitors_json(text).expect("pretty document parses");
    assert_eq!(ms.len(), 1);
    assert_eq!(ms[0].id, "x");
    assert_eq!(ms[0].path, "C:\\T");
    assert_eq!(ms[0].threshold_micro_mb, 100_500_000);
    assert_eq!(ms[0].max_depth, None);
    assert_eq!(ms[0].last_scan_at, Some(5));
}

#[test]
fn optional_members_may_be_absent() {
    let text = "[{\"id\":\"x\",\"name\":\"X\",\"path\":\"p\",\"thresholdMb\":1,\
                \"enabled\":true,\"notify\":true}]";
    let ms = mist::parse_monitors_json(text).expect("short document parses");
    assert_eq!(ms[0].max_depth, None);
    assert_eq!(ms[0].last_scan_at, None);
    assert_eq!(ms[0].threshold_micro_mb, 1_000_000);
}

#[test]
fn malformed_documents_do_not_parse() {
    for text in [
        "",
        "garbage",
        "{",
        "[{\"id\":\"x\"}]",
        "[{\"id\":\"x\",\"name\":\"X\",\"path\":\"p\",\"thresholdMb\":1,\"enabled\":true,\"notify\":maybe}]",
        "[] trailing",
        "[{\"id\":\"x\",\"name\":\"X\",\"path\":\"p\",\"thresholdMb\":1e3,\"enabled\":true,\"notify\":true}]",
    ] {
        assert_eq!(mist::parse_monitors_json(text), None, "{:?} must not parse", text);
    }
}

#[test]
fn corrupt_document_loads_the_defaults() {
    let defaults = mist::get_default_monitors();
    assert_eq!(mist::load_monitors_from_file(Some("{ not json ]")), defaults);
    assert_eq!(mist::load_monitors_from_file(None), defaults);
    // A parseable document is returned as persisted.
    let ms = vec![sample()];
    let json = mist::monitors_to_json(&ms);
    assert_eq!(mist::load_monitors_from_file(Some(&json)), ms);
}

#[test]
fn settings_round_trip_and_fallback() {
    let json = mist::settings_to_json(false, 15);
    assert_eq!(json, "{\"minimizeToTray\":false,\"checkIntervalMinutes\":15}");
    assert_eq!(mist::parse_settings_json(&json), Some((false, 15)));
    let s = mist::load_settings(Some(&json));
    assert_eq!(s.minimize_to_tray, false);
    assert_eq!(s.check_interval_minutes, 15);
    let d = mist::load_settings(Some("broken"));
    assert_eq!(d.minimize_to_tray, true);
    assert_eq!(d.check_interval_minutes, 60);
    let d2 = mist::load_settings(None);
    assert_eq!(d2, d);
    let v: serde_json::Value = serde_json::from_str(&json).unwrap();
    assert_eq!(v["checkIntervalMinutes"], serde_json::Value::from(15u64));
}

#[test]
fn escapes_are_written_and_read_back() {
    let mut m = sample();
    m.name = "a\"b\\c\nd".to_string();
    let json = mist::monitors_to_json(&vec![m.clone()]);
    assert!(json.contains("a\\\"b\\\\c\\u000ad"), "unexpected writing: {}", json);
    let back = mist::parse_monitors_json(&json).unwrap();
    assert_eq!(back[0].name, "a\"b\\c\nd");
}

#[test]
fn short_escapes_of_other_writers_parse() {
    let text = "[{\"id\":\"x\",\"name\":\"x\\ny\\tz\\/w\",\"path\":\"p\",\"thresholdMb\":1,\
                \"enabled\":true,\"notify\":true}]";
    let ms = mist::parse_monitors_json(text).unwrap();
    assert_eq!(ms[0].name, "x\ny\tz/w");
}

#[test]
fn saving_a_loaded_registry_is_stable() {
    let d = mist::get_default_monitors();
    let json = mist::monitors_to_json(&d);
    let loaded = mist::load_monitors_from_file(Some(&json));
    assert_eq!(loaded, d);
    assert_eq!(mist::monitors_to_json(&loaded), json);
}

#[test]
fn threshold_fractions_parse_exactly() {
    for (text, micro) in [
        ("0.000001", 1u64),
        ("0.5", 500_000),
        ("100.0001", 100_000_100),
        ("2048.000000", 2_048_000_000),
        ("7", 7_000_000),
    ] {
        let doc = format!(
            "[{{\"id\":\"x\",\"name\":\"X\",\"path\":\"p\",\"thresholdMb\":{},\
             \"enabled\":true,\"notify\":true}}]",
            text
        );
        let ms = mist::parse_monitors_json(&doc).expect("parses");
        assert_eq!(ms[0].threshold_micro_mb, micro, "threshold {}", text);
    }
}
