use dns_sd_native::{
    validate_txt_records, InterfaceIndex, ServiceRegistrationBuilder, ServiceRegistrationError,
    TxtRecordValue,
};

fn keys_and_values(records: &[(String, TxtRecordValue)]) -> Vec<(String, String)> {
    records
        .iter()
        .map(|(k, v)| {
            let v = match v {
                TxtRecordValue::KeyOnly => "<none>".to_string(),
                TxtRecordValue::String(s) => format!("s:{s}"),
                TxtRecordValue::Binary(b) => format!("b:{b:?}"),
            };
            (k.clone(), v)
        })
        .collect()
}

#[test]
fn new_builder_has_only_type_and_port() {
    let builder = ServiceRegistrationBuilder::new("_http._tcp", 8080);
    let req = builder.registration_request().unwrap();
    assert_eq!(req.service_type, "_http._tcp");
    assert_eq!(req.port, 8080);
    assert_eq!(req.name, None);
    assert_eq!(req.host, None);
    assert_eq!(req.domain, None);
    assert_eq!(req.interface_index, None);
    assert!(req.txt_record.is_empty());
}

#[test]
fn setters_chain_and_set_their_field() {
    let mut builder = ServiceRegistrationBuilder::new("_ftp._tcp", 21);
    builder
        .name("My Web Server")
        .host("myhost.local")
        .domain("example.com")
        .interface_index(InterfaceIndex::new(7).unwrap());
    let req = builder.registration_request().unwrap();
    assert_eq!(req.service_type, "_ftp._tcp");
    assert_eq!(req.port, 21);
    assert_eq!(req.name, Some("My Web Server"));
    assert_eq!(req.host, Some("myhost.local"));
    assert_eq!(req.domain, Some("example.com"));
    assert_eq!(req.interface_index.map(|i| i.get()), Some(7));
}

#[test]
fn setting_a_field_again_keeps_the_last_value() {
    let mut builder = ServiceRegistrationBuilder::new("_http._tcp", 0);
    builder.name("first").name("second");
    let req = builder.registration_request().unwrap();
    assert_eq!(req.name, Some("second"));
    assert_eq!(req.port, 0);
}

#[test]
fn interface_index_zero_is_refused() {
    assert!(InterfaceIndex::new(0).is_none());
    assert_eq!(InterfaceIndex::new(u32::MAX).unwrap().get(), u32::MAX);
}

#[test]
fn txt_entries_keep_insertion_order() {
    let mut builder = ServiceRegistrationBuilder::new("_http._tcp", 80);
    builder
        .add_txt_record_key_empty("a")
        .add_txt_record_key_string("b", "x")
        .add_txt_record_key_binary("c", &[1, 2, 255]);
    let req = builder.registration_request().unwrap();
    assert_eq!(
        keys_and_values(req.txt_record),
        vec![
            ("a".to_string(), "<none>".to_string()),
            ("b".to_string(), "s:x".to_string()),
            ("c".to_string(), "b:[1, 2, 255]".to_string()),
        ]
    );
}

#[test]
fn adding_a_key_again_replaces_it_and_moves_it_last() {
    let mut builder = ServiceRegistrationBuilder::new("_http._tcp", 80);
    builder
        .add_txt_record_key_string("a", "1")
        .add_txt_record_key_empty("b")
        .add_txt_record_key_string("a", "2");
    let req = builder.registration_request().unwrap();
    assert_eq!(
        keys_and_values(req.txt_record),
        vec![
            ("b".to_string(), "<none>".to_string()),
            ("a".to_string(), "s:2".to_string()),
        ]
    );
}

#[test]
fn adding_a_key_twice_is_adding_it_once() {
    let mut twice = ServiceRegistrationBuilder::new("_http._tcp", 80);
    twice
        .add_txt_record_key_empty("x")
        .add_txt_record_key_string("k", "old")
        .add_txt_record_key_binary("k", b"new");
    let mut once = ServiceRegistrationBuilder::new("_http._tcp", 80);
    once.add_txt_record_key_empty("x").add_txt_record_key_binary("k", b"new");
    assert_eq!(
        keys_and_values(twice.registration_request().unwrap().txt_record),
        keys_and_values(once.registration_request().unwrap().txt_record)
    );
}

#[test]
fn keys_stay_distinct() {
    let mut builder = ServiceRegistrationBuilder::new("_http._tcp", 80);
    for k in ["a", "b", "a", "c", "b", "a"] {
        builder.add_txt_record_key_empty(k);
    }
    let req = builder.registration_request().unwrap();
    let keys: Vec<String> = req.txt_record.iter().map(|(k, _)| k.clone()).collect();
    assert_eq!(keys, vec!["c".to_string(), "b".to_string(), "a".to_string()]);
}

#[test]
fn registration_request_reports_the_first_invalid_entry() {
    let mut builder = ServiceRegistrationBuilder::new("_http._tcp", 80);
    builder
        .add_txt_record_key_string("ok", "fine")
        .add_txt_record_key_empty("bad=key")
        .add_txt_record_key_empty("");
    match builder.registration_request() {
        Err(ServiceRegistrationError::InvalidTxtRecordKey(k, m)) => {
            assert_eq!(k, "bad=key");
            assert_eq!(m, "key must not contain '='");
        }
        other => panic!("unexpected: {:?}", other.err()),
    }
}

fn record(key: &str, value: TxtRecordValue) -> (String, TxtRecordValue) {
    (key.to_string(), value)
}

fn key_error(records: &[(String, TxtRecordValue)]) -> (String, String) {
    match validate_txt_records(records) {
        Err(ServiceRegistrationError::InvalidTxtRecordKey(k, m)) => (k, m),
        other => panic!("expected an invalid key, got {:?}", other),
    }
}

fn value_error(records: &[(String, TxtRecordValue)]) -> (String, String) {
    match validate_txt_records(records) {
        Err(ServiceRegistrationError::InvalidTxtRecordValue(k, m)) => (k, m),
        other => panic!("expected an invalid value, got {:?}", other),
    }
}

#[test]
fn validate_accepts_no_entries() {
    assert!(validate_txt_records(&[]).is_ok());
}

#[test]
fn validate_accepts_ordinary_entries() {
    let records = vec![
        record("path", TxtRecordValue::String("/index.html".to_string())),
        record("flag", TxtRecordValue::KeyOnly),
        record("bin", TxtRecordValue::Binary(vec![0, 1, 2])),
        record(" ~!", TxtRecordValue::KeyOnly),
    ];
    assert!(validate_txt_records(&records).is_ok());
}

#[test]
fn validate_refuses_an_empty_key() {
    let (k, m) = key_error(&[record("", TxtRecordValue::KeyOnly)]);
    assert_eq!(k, "");
    assert_eq!(m, "key must not be empty");
}

#[test]
fn validate_refuses_a_key_with_equals() {
    let (k, m) = key_error(&[record("a=b", TxtRecordValue::KeyOnly)]);
    assert_eq!(k, "a=b");
    assert_eq!(m, "key must not contain '='");
}

#[test]
fn validate_refuses_a_key_with_non_printable_characters() {
    for key in ["tab\there", "caf\u{e9}", "del\u{7f}", "nul\0"] {
        let (k, m) = key_error(&[record(key, TxtRecordValue::KeyOnly)]);
        assert_eq!(k, key);
        assert_eq!(
            m,
            "key must contain only printable US-ASCII characters (0x20-0x7E)"
        );
    }
}

#[test]
fn validate_checks_equals_before_printability() {
    let (_, m) = key_error(&[record("\u{e9}=", TxtRecordValue::KeyOnly)]);
    assert_eq!(m, "key must not contain '='");
}

#[test]
fn validate_allows_exactly_255_bytes() {
    let key = "k".repeat(200);
    let ok = vec![record(&key, TxtRecordValue::String("v".repeat(54)))];
    assert!(validate_txt_records(&ok).is_ok());
    let too_long = vec![record(&key, TxtRecordValue::String("v".repeat(55)))];
    let (k, m) = value_error(&too_long);
    assert_eq!(k, key);
    assert_eq!(m, "key + value must not exceed 255 bytes");
}

#[test]
fn validate_counts_utf8_bytes_of_text_values() {
    // 250 + 1 + 2 * 2 = 255
    let key = "k".repeat(250);
    assert!(validate_txt_records(&[record(&key, TxtRecordValue::String("\u{e9}\u{e9}".to_string()))]).is_ok());
    // 250 + 1 + 3 * 2 = 257
    assert!(validate_txt_records(&[record(&key, TxtRecordValue::String("\u{e9}\u{e9}\u{e9}".to_string()))]).is_err());
}

#[test]
fn validate_limits_binary_values_and_key_only_entries() {
    let key = "k".repeat(100);
    assert!(validate_txt_records(&[record(&key, TxtRecordValue::Binary(vec![7; 154]))]).is_ok());
    let (_, m) = value_error(&[record(&key, TxtRecordValue::Binary(vec![7; 155]))]);
    assert_eq!(m, "key + value must not exceed 255 bytes");
    assert!(validate_txt_records(&[record(&"k".repeat(255), TxtRecordValue::KeyOnly)]).is_ok());
    assert!(validate_txt_records(&[record(&"k".repeat(256), TxtRecordValue::KeyOnly)]).is_err());
    // a key of 255 bytes leaves no room for `=`
    assert!(validate_txt_records(&[record(&"k".repeat(255), TxtRecordValue::String(String::new()))]).is_err());
}

#[test]
fn validate_reports_the_first_invalid_entry() {
    let records = vec![
        record("good", TxtRecordValue::KeyOnly),
        record(&"x".repeat(300), TxtRecordValue::KeyOnly),
        record("", TxtRecordValue::KeyOnly),
    ];
    let (k, _) = value_error(&records);
    assert_eq!(k, "x".repeat(300));
}
