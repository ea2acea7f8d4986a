use limen::persistence::{corrupt_backup_name, stored_json, stored_text, tmp_file_name, StoredJson, StoredRead};

#[test]
fn valid_json_is_kept() {
    match stored_json(StoredRead::Contents("{\"spaces\":[]}".as_bytes().to_vec()), "/x/state.json") {
        StoredJson::Ready(t) => assert_eq!(t, "{\"spaces\":[]}"),
        _ => panic!("expected the contents"),
    }
}

#[test]
fn corrupt_json_is_quarantined() {
    assert!(matches!(
        stored_json(StoredRead::Contents("{ this is not json".as_bytes().to_vec()), "/x/state.json"),
        StoredJson::Quarantine
    ));
    assert!(matches!(stored_json(StoredRead::Contents(Vec::new()), "p"), StoredJson::Quarantine));
}

#[test]
fn missing_file_reads_empty() {
    match stored_json(StoredRead::Missing, "/x/absent.json") {
        StoredJson::Ready(t) => assert_eq!(t, ""),
        _ => panic!("expected empty contents"),
    }
}

#[test]
fn read_failure_is_reported() {
    match stored_json(StoredRead::Failed("denied".to_string()), "/x/a.json") {
        StoredJson::ReadError(m) => assert_eq!(m, "failed to read /x/a.json: denied"),
        _ => panic!("expected an error"),
    }
}

#[test]
fn sibling_file_names() {
    assert_eq!(tmp_file_name("state.json", 4242), "state.json.tmp4242");
    assert_eq!(corrupt_backup_name("config.json", 1700000000), "config.json.corrupt-1700000000");
}

#[test]
fn bytes_that_are_not_utf8_are_quarantined() {
    assert!(matches!(
        stored_json(StoredRead::Contents(vec![0x7b, 0xff, 0xfe, 0x7d]), "/x/state.json"),
        StoredJson::Quarantine
    ));
    assert!(matches!(
        stored_json(StoredRead::Contents(vec![0x22, 0xc3, 0x28, 0x22]), "/x/state.json"),
        StoredJson::Quarantine
    ));
}

#[test]
fn utf8_json_text_is_decoded() {
    let bytes = "{\"name\":\"caf\u{e9}\"}".as_bytes().to_vec();
    match stored_json(StoredRead::Contents(bytes), "/x/state.json") {
        StoredJson::Ready(t) => assert_eq!(t, "{\"name\":\"caf\u{e9}\"}"),
        _ => panic!("expected the decoded text"),
    }
}

#[test]
fn stored_text_keeps_only_parsed_text() {
    match stored_text("[1,2]".to_string(), true) {
        StoredJson::Ready(t) => assert_eq!(t, "[1,2]"),
        _ => panic!("expected the text"),
    }
    assert!(matches!(stored_text("[1,2".to_string(), false), StoredJson::Quarantine));
}
