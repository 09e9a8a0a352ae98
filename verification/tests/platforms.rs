use dns_sd_native::avahi::{
    avahi_committed_step, avahi_interface, avahi_service, avahi_state_changed_step,
    avahi_txt_entries, AvahiStep, AVAHI_ENTRY_GROUP_COLLISION, AVAHI_ENTRY_GROUP_ESTABLISHED,
    AVAHI_ENTRY_GROUP_FAILURE, AVAHI_ENTRY_GROUP_REGISTERING, AVAHI_ENTRY_GROUP_UNCOMMITTED,
    AVAHI_IF_UNSPEC, AVAHI_PROTO_UNSPEC,
};
use dns_sd_native::dnssd::{
    callback_result, check_c_string, check_c_strings, dnssd_service, dnssd_txt_record,
    nul_position, process_result, register_call_result, NAME_CONFLICT, NO_ERROR,
};
use dns_sd_native::windows_dns::{
    deregister_start_result, deregistration_status_result, register_start_result,
    registration_status_result, wide_string, windows_domain, windows_names, windows_txt_pairs,
    DNS_REQUEST_PENDING, ERROR_SUCCESS,
};
use dns_sd_native::{
    interface_number_or_all, InterfaceIndex, ServiceRegistrationBuilder, ServiceRegistrationError,
    TxtRecordValue,
};

fn sample_records() -> Vec<(String, TxtRecordValue)> {
    vec![
        ("a".to_string(), TxtRecordValue::KeyOnly),
        ("bc".to_string(), TxtRecordValue::String("xy".to_string())),
        ("d".to_string(), TxtRecordValue::Binary(vec![0, 255])),
    ]
}

#[test]
fn avahi_txt_entries_are_key_equals_value() {
    let entries = avahi_txt_entries(&sample_records());
    assert_eq!(
        entries,
        vec![b"a".to_vec(), b"bc=xy".to_vec(), vec![b'd', b'=', 0, 255]]
    );
    assert!(avahi_txt_entries(&[]).is_empty());
}

#[test]
fn avahi_txt_entry_with_empty_text_value_keeps_equals() {
    let entries = avahi_txt_entries(&[("k".to_string(), TxtRecordValue::String(String::new()))]);
    assert_eq!(entries, vec![b"k=".to_vec()]);
}

#[test]
fn avahi_interface_maps_the_index() {
    assert_eq!(avahi_interface(None).unwrap(), AVAHI_IF_UNSPEC);
    assert_eq!(avahi_interface(InterfaceIndex::new(3)).unwrap(), 3);
    assert_eq!(avahi_interface(InterfaceIndex::new(i32::MAX as u32)).unwrap(), i32::MAX);
    match avahi_interface(InterfaceIndex::new(i32::MAX as u32 + 1)) {
        Err(ServiceRegistrationError::InvalidInterfaceIndex(v)) => assert_eq!(v, 1 << 31),
        other => panic!("unexpected {:?}", other),
    }
}

#[test]
fn avahi_service_fills_in_defaults() {
    let mut builder = ServiceRegistrationBuilder::new("_http._tcp", 8080);
    builder.add_txt_record_key_string("path", "/");
    let req = builder.registration_request().unwrap();
    let service = avahi_service(&req).unwrap();
    assert_eq!(service.interface, AVAHI_IF_UNSPEC);
    assert_eq!(service.protocol, AVAHI_PROTO_UNSPEC);
    assert_eq!(service.flags, 0);
    assert_eq!(service.name, None);
    assert_eq!(service.service_type, "_http._tcp");
    assert_eq!(service.domain, "");
    assert_eq!(service.host, "");
    assert_eq!(service.port, 8080);
    assert_eq!(service.txt, vec![b"path=/".to_vec()]);
}

#[test]
fn avahi_service_refuses_a_large_interface_index() {
    let mut builder = ServiceRegistrationBuilder::new("_http._tcp", 8080);
    builder
        .name("n")
        .domain("d")
        .host("h")
        .interface_index(InterfaceIndex::new(u32::MAX).unwrap());
    let req = builder.registration_request().unwrap();
    assert!(matches!(
        avahi_service(&req),
        Err(ServiceRegistrationError::InvalidInterfaceIndex(u32::MAX))
    ));
    let mut builder = ServiceRegistrationBuilder::new("_http._tcp", 8080);
    builder.name("n").domain("d").host("h");
    let req = builder.registration_request().unwrap();
    let service = avahi_service(&req).unwrap();
    assert_eq!((service.name, service.domain, service.host), (Some("n"), "d", "h"));
}

#[test]
fn avahi_committed_state_decides() {
    assert!(matches!(avahi_committed_step(AVAHI_ENTRY_GROUP_ESTABLISHED), AvahiStep::Registered));
    assert!(matches!(
        avahi_committed_step(AVAHI_ENTRY_GROUP_COLLISION),
        AvahiStep::Fail(ServiceRegistrationError::NameConflict)
    ));
    match avahi_committed_step(AVAHI_ENTRY_GROUP_FAILURE) {
        AvahiStep::Fail(ServiceRegistrationError::RegistrationFailed(m)) => {
            assert_eq!(m, "entry group entered failure state")
        }
        _ => panic!("expected a failure"),
    }
    for state in [AVAHI_ENTRY_GROUP_REGISTERING, AVAHI_ENTRY_GROUP_UNCOMMITTED, 42, -1] {
        assert!(matches!(avahi_committed_step(state), AvahiStep::AwaitStateChange));
    }
}

#[test]
fn avahi_state_change_decides() {
    assert!(matches!(
        avahi_state_changed_step(AVAHI_ENTRY_GROUP_REGISTERING, ""),
        AvahiStep::AwaitStateChange
    ));
    assert!(matches!(
        avahi_state_changed_step(AVAHI_ENTRY_GROUP_ESTABLISHED, ""),
        AvahiStep::Registered
    ));
    assert!(matches!(
        avahi_state_changed_step(AVAHI_ENTRY_GROUP_COLLISION, "x"),
        AvahiStep::Fail(ServiceRegistrationError::NameConflict)
    ));
    match avahi_state_changed_step(AVAHI_ENTRY_GROUP_FAILURE, "Local name collision") {
        AvahiStep::Fail(ServiceRegistrationError::RegistrationFailed(m)) => {
            assert_eq!(m, "entry group failure: Local name collision")
        }
        _ => panic!("expected a failure"),
    }
    // an unknown state ends the wait
    assert!(matches!(avahi_state_changed_step(17, ""), AvahiStep::Registered));
}

#[test]
fn dnssd_txt_record_is_length_prefixed() {
    let wire = dnssd_txt_record(&sample_records());
    assert_eq!(
        wire,
        vec![1, b'a', 5, b'b', b'c', b'=', b'x', b'y', 4, b'd', b'=', 0, 255]
    );
}

#[test]
fn dnssd_txt_record_of_no_entries_is_one_empty_string() {
    assert_eq!(dnssd_txt_record(&[]), vec![0]);
}

#[test]
fn dnssd_txt_record_length_byte_of_a_255_byte_entry() {
    let key = "k".repeat(200);
    let value = "v".repeat(54);
    let wire = dnssd_txt_record(&[(key.clone(), TxtRecordValue::String(value.clone()))]);
    assert_eq!(wire.len(), 256);
    assert_eq!(wire[0], 255);
    assert_eq!(&wire[1..201], key.as_bytes());
    assert_eq!(wire[201], b'=');
}

#[test]
fn dnssd_txt_record_truncates_an_oversized_length() {
    // validation refuses such an entry; the encoding alone keeps the low byte
    let wire = dnssd_txt_record(&[("k".repeat(300), TxtRecordValue::KeyOnly)]);
    assert_eq!(wire[0], (300 % 256) as u8);
    assert_eq!(wire.len(), 301);
}

#[test]
fn nul_position_finds_the_first_zero() {
    assert_eq!(nul_position(b"abc"), None);
    assert_eq!(nul_position(b""), None);
    assert_eq!(nul_position(b"ab\0c\0"), Some(2));
    assert_eq!(nul_position(b"\0"), Some(0));
}

#[test]
fn c_string_check_reports_byte_position() {
    assert!(check_c_string("_http._tcp").is_ok());
    match check_c_string("\u{e9}\0x") {
        Err(ServiceRegistrationError::ParameterContainsInteriorNulByte(p, pos)) => {
            assert_eq!(p, "\u{e9}\0x");
            assert_eq!(pos, 2);
        }
        other => panic!("unexpected {:?}", other),
    }
    // a trailing NUL is refused too
    assert!(check_c_string("ab\0").is_err());
}

#[test]
fn c_strings_are_checked_in_order() {
    let mut builder = ServiceRegistrationBuilder::new("_http._tcp", 80);
    builder.host("h\0").domain("d\0").name("n\0");
    let req = builder.registration_request().unwrap();
    match check_c_strings(&req) {
        Err(ServiceRegistrationError::ParameterContainsInteriorNulByte(p, 1)) => assert_eq!(p, "n\0"),
        other => panic!("unexpected {:?}", other),
    }
    let mut builder = ServiceRegistrationBuilder::new("_http\0._tcp", 80);
    builder.name("n\0");
    let req = builder.registration_request().unwrap();
    match check_c_strings(&req) {
        Err(ServiceRegistrationError::ParameterContainsInteriorNulByte(p, 5)) => {
            assert_eq!(p, "_http\0._tcp")
        }
        other => panic!("unexpected {:?}", other),
    }
    let mut builder = ServiceRegistrationBuilder::new("_http._tcp", 80);
    builder.host("h\0").domain("d");
    let req = builder.registration_request().unwrap();
    match check_c_strings(&req) {
        Err(ServiceRegistrationError::ParameterContainsInteriorNulByte(p, 1)) => assert_eq!(p, "h\0"),
        other => panic!("unexpected {:?}", other),
    }
}

#[test]
fn dnssd_service_arguments() {
    let mut builder = ServiceRegistrationBuilder::new("_http._tcp", 80);
    builder
        .interface_index(InterfaceIndex::new(4).unwrap())
        .add_txt_record_key_empty("a");
    let req = builder.registration_request().unwrap();
    let service = dnssd_service(&req).unwrap();
    assert_eq!(service.interface, 4);
    assert_eq!(service.txt_record, vec![1, b'a']);
    let builder = ServiceRegistrationBuilder::new("_http._tcp", 80);
    let req = builder.registration_request().unwrap();
    let service = dnssd_service(&req).unwrap();
    assert_eq!(service.interface, 0);
    assert_eq!(service.txt_record, vec![0]);
}

#[test]
fn interface_number_defaults_to_all() {
    assert_eq!(interface_number_or_all(None), 0);
    assert_eq!(interface_number_or_all(InterfaceIndex::new(9)), 9);
}

#[test]
fn dnssd_register_codes() {
    assert!(register_call_result(NO_ERROR).is_ok());
    assert!(matches!(
        register_call_result(NAME_CONFLICT),
        Err(ServiceRegistrationError::NameConflict)
    ));
    match register_call_result(-65537) {
        Err(ServiceRegistrationError::RegistrationError(m)) => {
            assert_eq!(m, "DNSServiceRegister failed with error code: -65537")
        }
        other => panic!("unexpected {:?}", other),
    }
    match register_call_result(i32::MIN) {
        Err(ServiceRegistrationError::RegistrationError(m)) => {
            assert_eq!(m, format!("DNSServiceRegister failed with error code: {}", i32::MIN))
        }
        other => panic!("unexpected {:?}", other),
    }
}

#[test]
fn dnssd_process_codes() {
    assert!(process_result(NO_ERROR).is_ok());
    match process_result(NAME_CONFLICT) {
        Err(ServiceRegistrationError::RegistrationError(m)) => {
            assert_eq!(m, "DNSServiceProcessResult failed with error code: -65548")
        }
        other => panic!("unexpected {:?}", other),
    }
}

#[test]
fn dnssd_callback_codes() {
    assert!(callback_result(Some(NO_ERROR)).is_ok());
    assert!(matches!(
        callback_result(Some(NAME_CONFLICT)),
        Err(ServiceRegistrationError::NameConflict)
    ));
    match callback_result(None) {
        Err(ServiceRegistrationError::RegistrationError(m)) => {
            assert_eq!(m, "DNSServiceRegister callback did not fire")
        }
        other => panic!("unexpected {:?}", other),
    }
    match callback_result(Some(10)) {
        Err(ServiceRegistrationError::RegistrationError(m)) => {
            assert_eq!(m, "DNSServiceRegister callback failed with error code: 10")
        }
        other => panic!("unexpected {:?}", other),
    }
}

#[test]
fn wide_string_counts_utf16_units() {
    assert!(wide_string("plain").is_ok());
    // a NUL at the very end is taken as the terminator
    assert!(wide_string("end\0").is_ok());
    match wide_string("\u{1F600}\0x") {
        Err(ServiceRegistrationError::ParameterContainsInteriorNulByte(p, pos)) => {
            assert_eq!(p, "\u{1F600}\0x");
            assert_eq!(pos, 2);
        }
        other => panic!("unexpected {:?}", other.map(|_| ())),
    }
    match wide_string("\u{e9}\0x") {
        Err(ServiceRegistrationError::ParameterContainsInteriorNulByte(_, pos)) => assert_eq!(pos, 1),
        other => panic!("unexpected {:?}", other.map(|_| ())),
    }
}

#[test]
fn windows_txt_pairs_encode_keys_and_values() {
    let records = vec![
        ("a".to_string(), TxtRecordValue::KeyOnly),
        ("bc".to_string(), TxtRecordValue::String("x\u{1F600}".to_string())),
    ];
    let pairs = windows_txt_pairs(&records).unwrap();
    assert_eq!(pairs.len(), 2);
    assert_eq!(pairs[0].0.as_slice(), &[b'a' as u16]);
    assert!(pairs[0].1.as_slice().is_empty());
    assert_eq!(pairs[1].0.as_slice(), &[b'b' as u16, b'c' as u16]);
    assert_eq!(pairs[1].1.as_slice(), &[b'x' as u16, 0xD83D, 0xDE00]);
}

#[test]
fn windows_txt_pairs_report_key_before_value() {
    let records = vec![
        ("ok".to_string(), TxtRecordValue::String("fine".to_string())),
        ("k\0ey".to_string(), TxtRecordValue::String("v\0".to_string())),
    ];
    match windows_txt_pairs(&records) {
        Err(ServiceRegistrationError::ParameterContainsInteriorNulByte(p, 1)) => assert_eq!(p, "k\0ey"),
        other => panic!("unexpected {:?}", other.map(|_| ())),
    }
    let records = vec![("key".to_string(), TxtRecordValue::String("va\0lue".to_string()))];
    match windows_txt_pairs(&records) {
        Err(ServiceRegistrationError::ParameterContainsInteriorNulByte(p, 2)) => assert_eq!(p, "va\0lue"),
        other => panic!("unexpected {:?}", other.map(|_| ())),
    }
}

#[test]
fn windows_names_default_to_host_and_local() {
    let builder = ServiceRegistrationBuilder::new("_http._tcp", 80);
    let req = builder.registration_request().unwrap();
    let names = windows_names(&req, "pc");
    assert_eq!(names.instance_name, "pc._http._tcp.local");
    assert_eq!(names.host_name, "pc.local");
    assert_eq!(windows_domain(None), "local");

    let mut builder = ServiceRegistrationBuilder::new("_ipp._tcp", 631);
    builder.name("Printer").domain("example.org");
    let req = builder.registration_request().unwrap();
    let names = windows_names(&req, "server");
    assert_eq!(names.instance_name, "Printer._ipp._tcp.example.org");
    assert_eq!(names.host_name, "server.example.org");
}

#[test]
fn windows_status_codes() {
    assert!(register_start_result(DNS_REQUEST_PENDING).is_ok());
    match register_start_result(ERROR_SUCCESS) {
        Err(ServiceRegistrationError::RegistrationError(m)) => {
            assert_eq!(m, "DnsServiceRegister failed with status: 0")
        }
        other => panic!("unexpected {:?}", other),
    }
    assert!(registration_status_result(ERROR_SUCCESS).is_ok());
    match registration_status_result(u32::MAX) {
        Err(ServiceRegistrationError::RegistrationError(m)) => {
            assert_eq!(m, "registration failed with status: 4294967295")
        }
        other => panic!("unexpected {:?}", other),
    }
    assert!(deregister_start_result(DNS_REQUEST_PENDING).is_ok());
    assert_eq!(
        deregister_start_result(87),
        Err("deregistration failed to start with status 87".to_string())
    );
    assert!(deregistration_status_result(ERROR_SUCCESS).is_ok());
    assert_eq!(
        deregistration_status_result(1460),
        Err("service deregistration failed with status: 1460".to_string())
    );
}

#[test]
fn windows_empty_text_value_is_encoded_as_key_only() {
    let text = windows_txt_pairs(&[("k".to_string(), TxtRecordValue::String(String::new()))]).unwrap();
    let key_only = windows_txt_pairs(&[("k".to_string(), TxtRecordValue::KeyOnly)]).unwrap();
    assert_eq!(text, key_only);
}

#[test]
fn windows_valid_keys_always_encode() {
    let records = vec![
        ("printable ~key".to_string(), TxtRecordValue::KeyOnly),
        ("k".to_string(), TxtRecordValue::String("v".to_string())),
    ];
    assert!(dns_sd_native::validate_txt_records(&records).is_ok());
    assert!(windows_txt_pairs(&records).is_ok());
    // a key with a NUL never passes validation
    assert!(dns_sd_native::validate_txt_records(&[("a\0b".to_string(), TxtRecordValue::KeyOnly)]).is_err());
}
