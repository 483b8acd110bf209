use simple_discover::protocol::decode_message;
use simple_discover::DiscoverConfig;
use simple_discover::ServerSettings;
use simple_discover::DeviceCollector;
use simple_discover::client::dedup_devices;
use simple_discover::client::device_from_datagram;
use simple_discover::protocol::encode_frame;
use simple_discover::protocol::encode_request;
use simple_discover::protocol::encode_response;
use simple_discover::server::candidate_port;
use simple_discover::server::check_custom_data;
use simple_discover::server::handle_discover_request;
use simple_discover::server::MAX_CUSTOM_DATA_SIZE;
use simple_discover::server::RECV_BUFFER_SIZE;
use simple_discover::CustomData;
use simple_discover::DiscoverError;
use simple_discover::DiscoveredDevice;
use simple_discover::Ipv4Addr;

fn device(last: u8, data: Option<&[u8]>) -> DiscoveredDevice {
    DiscoveredDevice {
        ip: Ipv4Addr::new(192, 168, 1, last),
        data: data.map(|d| d.to_vec()),
    }
}

#[test]
fn server_answers_a_request_with_its_custom_data() {
    let custom = br#"{"name":"My Server","version":"1.0.0"}"#;
    let response = handle_discover_request(&encode_request(), Some(&custom[..]))
        .ok()
        .unwrap()
        .unwrap();
    assert_eq!(response, encode_response(Some(&custom[..])));
    let src = Ipv4Addr::new(192, 168, 1, 7);
    let found = device_from_datagram(src, &response).ok().unwrap().unwrap();
    assert_eq!(found.ip, src);
    assert_eq!(found.data, Some(custom.to_vec()));
    let value: serde_json::Value = serde_json::from_slice(found.data.as_ref().unwrap()).unwrap();
    assert_eq!(value.get("name").unwrap().as_str().unwrap(), "My Server");
    assert_eq!(value.get("version").unwrap().as_str().unwrap(), "1.0.0");
}

#[test]
fn server_without_custom_data_sends_empty_response() {
    let response = handle_discover_request(&encode_request(), None).ok().unwrap().unwrap();
    let found = device_from_datagram(Ipv4Addr::new(10, 0, 0, 1), &response)
        .ok()
        .unwrap()
        .unwrap();
    assert_eq!(found.data, None);
}

#[test]
fn custom_number_reaches_the_client() {
    let custom = serde_json::to_vec(&serde_json::Value::from(0)).unwrap();
    let response = handle_discover_request(&encode_request(), Some(&custom[..]))
        .ok()
        .unwrap()
        .unwrap();
    let found = device_from_datagram(Ipv4Addr::new(10, 0, 0, 1), &response)
        .ok()
        .unwrap()
        .unwrap();
    let value: serde_json::Value = serde_json::from_slice(&found.data.unwrap()).unwrap();
    assert_eq!(value.as_i64().unwrap(), 0);
}

#[test]
fn server_ignores_responses_and_refuses_garbage() {
    let response = encode_response(None);
    assert!(matches!(handle_discover_request(&response, None), Ok(None)));
    assert!(matches!(
        handle_discover_request(b"hello", None),
        Err(DiscoverError::Protocol(_))
    ));
}

#[test]
fn client_ignores_requests_and_refuses_garbage() {
    let src = Ipv4Addr::new(10, 0, 0, 1);
    assert!(matches!(device_from_datagram(src, &encode_request()), Ok(None)));
    assert!(matches!(
        device_from_datagram(src, &encode_frame(1, b"{")),
        Err(DiscoverError::Protocol(_))
    ));
    assert!(matches!(device_from_datagram(src, b""), Err(DiscoverError::Protocol(_))));
}

#[test]
fn devices_are_sorted_and_deduplicated_keeping_the_first() {
    let devices = vec![
        device(30, Some(b"1")),
        device(10, None),
        device(30, Some(b"2")),
        device(20, Some(b"3")),
        device(10, Some(b"4")),
    ];
    let result = dedup_devices(devices);
    let ips: Vec<[u8; 4]> = result.iter().map(|d| d.ip.octets()).collect();
    assert_eq!(ips, vec![[192, 168, 1, 10], [192, 168, 1, 20], [192, 168, 1, 30]]);
    assert_eq!(result[0].data, None);
    assert_eq!(result[1].data, Some(b"3".to_vec()));
    assert_eq!(result[2].data, Some(b"1".to_vec()));
}

#[test]
fn deduplicating_twice_changes_nothing() {
    let devices = vec![device(5, None), device(1, Some(b"1")), device(5, Some(b"2"))];
    let once = dedup_devices(devices);
    let once_ips: Vec<u32> = once.iter().map(|d| d.ip.to_bits()).collect();
    let once_data: Vec<Option<Vec<u8>>> = once.iter().map(|d| d.data.clone()).collect();
    let twice = dedup_devices(once);
    let twice_ips: Vec<u32> = twice.iter().map(|d| d.ip.to_bits()).collect();
    let twice_data: Vec<Option<Vec<u8>>> = twice.iter().map(|d| d.data.clone()).collect();
    assert_eq!(once_ips, twice_ips);
    assert_eq!(once_data, twice_data);
    assert!(dedup_devices(Vec::new()).is_empty());
}

#[test]
fn custom_data_size_limit() {
    assert_eq!(MAX_CUSTOM_DATA_SIZE + 13, RECV_BUFFER_SIZE);
    let fits = vec![b'1'; MAX_CUSTOM_DATA_SIZE];
    assert_eq!(check_custom_data(fits.clone()).ok().unwrap(), fits);
    assert_eq!(encode_response(Some(&fits[..])).len(), RECV_BUFFER_SIZE);
    let too_big = vec![b'1'; MAX_CUSTOM_DATA_SIZE + 1];
    match check_custom_data(too_big) {
        Err(DiscoverError::Other(m)) => assert_eq!(m, "Custom data is too large"),
        _ => panic!("expected the custom data to be refused"),
    }
}

#[test]
fn a_document_of_several_kilobytes_is_too_large() {
    let text = "# Simple Discover\n".repeat(300);
    let custom = serde_json::to_vec(&serde_json::Value::from(text)).unwrap();
    assert!(custom.len() > MAX_CUSTOM_DATA_SIZE);
    assert!(check_custom_data(custom).is_err());
}

#[test]
fn ports_are_tried_in_order() {
    let ports = [10001u16, 10010, 10100];
    assert_eq!(candidate_port(&ports, 0).ok(), Some(10001));
    assert_eq!(candidate_port(&ports, 2).ok(), Some(10100));
    assert!(matches!(candidate_port(&ports, 3), Err(DiscoverError::NoAvailablePort)));
    assert!(matches!(candidate_port(&[], 0), Err(DiscoverError::NoAvailablePort)));
}

#[test]
fn custom_data_struct() {
    let data = CustomData::new("My Server".to_string(), "1.0.0".to_string());
    assert_eq!(data.name, "My Server");
    assert_eq!(data.version, "1.0.0");
}

#[test]
fn server_settings_keep_the_last_custom_data() {
    let settings = ServerSettings::new();
    assert_eq!(settings.config().ports, vec![10001, 10010, 10100, 11000]);
    assert!(settings.custom_data().is_none());
    let settings = settings
        .with_custom_data(b"1".to_vec())
        .ok()
        .unwrap()
        .with_custom_data(b"\"second\"".to_vec())
        .ok()
        .unwrap();
    assert_eq!(settings.custom_data(), Some(&b"\"second\""[..]));
    let response = settings.respond(&encode_request()).ok().unwrap().unwrap();
    assert_eq!(response, encode_response(Some(&b"\"second\""[..])));
    assert_eq!(decode_message(&response).ok().unwrap().payload, b"\"second\"".to_vec());
    assert!(matches!(settings.respond(&response), Ok(None)));
    let config = DiscoverConfig::new().set_ports(vec![7]);
    let settings = ServerSettings::with_config(config);
    assert_eq!(settings.config().ports, vec![7]);
    match settings.with_custom_data(vec![b'1'; MAX_CUSTOM_DATA_SIZE + 1]) {
        Err(DiscoverError::Other(m)) => assert_eq!(m, "Custom data is too large"),
        _ => panic!("expected the custom data to be refused"),
    }
    assert!(ServerSettings::default().custom_data().is_none());
}

#[test]
fn one_entry_per_address_carrying_the_first_answer() {
    let answer = |last: u8, custom: Option<&[u8]>| {
        let src = Ipv4Addr::new(10, 0, 0, last);
        device_from_datagram(src, &encode_response(custom)).ok().unwrap().unwrap()
    };
    let devices = vec![answer(2, None), answer(1, Some(b"[1]")), answer(2, Some(b"{}"))];
    let result = dedup_devices(devices);
    assert_eq!(result.len(), 2);
    assert_eq!(result[0].ip, Ipv4Addr::new(10, 0, 0, 1));
    assert_eq!(result[0].data, Some(b"[1]".to_vec()));
    assert_eq!(result[1].ip, Ipv4Addr::new(10, 0, 0, 2));
    assert_eq!(result[1].data, None);
}

#[test]
fn server_settings_refuse_text_that_is_not_json() {
    let refused = ServerSettings::new().with_custom_data(b"{".to_vec());
    let reason = serde_json::from_slice::<serde_json::Value>(b"{").unwrap_err();
    match refused {
        Err(DiscoverError::Other(m)) => {
            assert_eq!(m, format!("Custom data is not a JSON document: {}", reason))
        }
        _ => panic!("expected the custom data to be refused"),
    }
    match ServerSettings::new().with_custom_data(Vec::new()) {
        Err(DiscoverError::Other(m)) => assert!(m.starts_with("Custom data is not a JSON document: ")),
        _ => panic!("expected empty custom data to be refused"),
    }
}

#[test]
fn refused_datagrams_carry_the_decoder_text() {
    let settings = ServerSettings::new();
    match settings.respond(b"hello") {
        Err(DiscoverError::Protocol(m)) => {
            assert_eq!(m, "Buffer too short: 5 bytes, expected at least 13")
        }
        _ => panic!("expected a protocol error"),
    }
    match handle_discover_request(&[0u8; 13], None) {
        Err(DiscoverError::Protocol(m)) => assert_eq!(m, "Invalid magic: 0x00000000"),
        _ => panic!("expected a protocol error"),
    }
    match device_from_datagram(Ipv4Addr::new(10, 0, 0, 1), &encode_frame(1, b"{")) {
        Err(DiscoverError::Protocol(m)) => assert!(m.starts_with("Failed to parse JSON: ")),
        _ => panic!("expected a protocol error"),
    }
}

#[test]
fn a_round_reports_each_server_once_and_skips_foreign_datagrams() {
    let mut collector = DeviceCollector::new();
    let a = Ipv4Addr::new(10, 0, 0, 9);
    let b = Ipv4Addr::new(10, 0, 0, 3);
    assert!(matches!(collector.record(a, &encode_request()), Ok(false)));
    assert!(matches!(collector.record(a, b"junk"), Err(DiscoverError::Protocol(_))));
    assert!(matches!(collector.record(a, &encode_response(Some(&b"{\"n\":1}"[..]))), Ok(true)));
    assert!(matches!(collector.record(b, &encode_response(None)), Ok(true)));
    assert!(matches!(collector.record(a, &encode_response(Some(&b"2"[..]))), Ok(true)));
    let report = collector.finish();
    assert_eq!(report.len(), 2);
    assert_eq!(report[0].ip, b);
    assert_eq!(report[0].data, None);
    assert_eq!(report[1].ip, a);
    assert_eq!(report[1].data, Some(b"{\"n\":1}".to_vec()));

    let mut plain = DeviceCollector::new();
    plain.record(a, &encode_response(Some(&b"{\"n\":1}"[..]))).ok().unwrap();
    plain.record(b, &encode_response(None)).ok().unwrap();
    let plain_report = plain.finish();
    assert_eq!(plain_report.len(), report.len());
    for (x, y) in plain_report.iter().zip(report.iter()) {
        assert_eq!(x.ip, y.ip);
        assert_eq!(x.data, y.data);
    }
}
