use rust_repos::checkpoint::{parse_state, render_state};

#[test]
fn render_state_exact_bytes() {
    assert_eq!(render_state(9), b"{\n  \"Github\": 9\n}\n".to_vec());
    assert_eq!(render_state(0), b"{\n  \"Github\": 0\n}\n".to_vec());
    assert_eq!(render_state(1234567890), b"{\n  \"Github\": 1234567890\n}\n".to_vec());
}

#[test]
fn parse_round_trip() {
    for n in [0usize, 1, 9, 10, 99, 100, 4096, usize::MAX] {
        let bytes = render_state(n);
        assert_eq!(parse_state(&bytes), Some(n));
    }
}

#[test]
fn parse_rejects_malformed() {
    assert_eq!(parse_state(b""), None);
    assert_eq!(parse_state(b"{}"), None);
    assert_eq!(parse_state(b"{\n  \"Github\": \n}\n"), None);
    assert_eq!(parse_state(b"{\n  \"Github\": 09\n}\n"), None);
    assert_eq!(parse_state(b"{\n  \"Github\": 12"), None);
    assert_eq!(parse_state(b"{\n  \"Github\": 12\n}"), None);
    assert_eq!(parse_state(b"{\n  \"Gitlab\": 12\n}\n"), None);
    assert_eq!(parse_state(b"{\n  \"Github\": 12\n}\n "), None);
    // a value that cannot fit in usize
    assert_eq!(parse_state(b"{\n  \"Github\": 99999999999999999999999999\n}\n"), None);
}

#[test]
fn render_state_is_json_serde_reads_it() {
    let bytes = render_state(7781);
    let parsed: serde_json::Value = serde_json::from_slice(&bytes).unwrap();
    assert_eq!(parsed["Github"], serde_json::Value::from(7781u64));
}

#[test]
fn render_state_matches_serde_pretty_form() {
    let mut map = std::collections::BTreeMap::new();
    map.insert("Github".to_string(), 42usize);
    let mut expected = serde_json::to_vec_pretty(&map).unwrap();
    expected.push(b'\n');
    assert_eq!(render_state(42), expected);
}
