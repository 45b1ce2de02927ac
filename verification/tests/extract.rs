use cloudevents_http::event::{Event, ExtensionValue, SpecVersion};
use cloudevents_http::extract::{decode, from_request, to_event, Rejection};
use cloudevents_http::message::MessageError;
use cloudevents_http::wire::Header;
use http::{HeaderMap, HeaderName, HeaderValue};

fn json_data() -> Vec<u8> {
    b"{\"hello\":\"world\"}".to_vec()
}

fn time() -> String {
    "2020-03-16T11:50:00+00:00".to_string()
}

fn minimal() -> Event {
    Event::new(
        "0001".to_string(),
        "test_event.test_application".to_string(),
        "http://localhost/".to_string(),
    )
    .with_extension("someint".to_string(), ExtensionValue::Integer(10))
    .unwrap()
}

fn full() -> Event {
    Event::new(
        "0001".to_string(),
        "test_event.test_application".to_string(),
        "http://localhost/".to_string(),
    )
    .with_subject(Some("cloudevents-sdk".to_string()))
    .with_time(Some(time()))
    .with_extension("string_ex".to_string(), ExtensionValue::String("val".to_string()))
    .unwrap()
    .with_extension("int_ex".to_string(), ExtensionValue::Integer(10))
    .unwrap()
    .with_extension("bool_ex".to_string(), ExtensionValue::Boolean(true))
    .unwrap()
    .with_datacontenttype(Some("application/json".to_string()))
    .with_data(Some(json_data()))
}

fn headers(pairs: &[(&str, &str)]) -> HeaderMap {
    let mut map = HeaderMap::new();
    for (name, value) in pairs {
        map.append(
            HeaderName::from_bytes(name.as_bytes()).unwrap(),
            HeaderValue::from_str(value).unwrap(),
        );
    }
    map
}

fn header(name: &str, value: &[u8]) -> Header {
    Header { name: name.to_string(), value: value.to_vec() }
}

#[test]
fn axum_test_request() {
    let expected = minimal();

    let request = headers(&[
        ("ce-specversion", "1.0"),
        ("ce-id", "0001"),
        ("ce-type", "test_event.test_application"),
        ("ce-source", "http://localhost/"),
        ("ce-someint", "10"),
    ]);

    let result = from_request(&request, Vec::new()).unwrap();

    assert_eq!(expected, result);
}

#[test]
fn axum_test_bad_request() {
    let request = headers(&[
        ("ce-specversion", "BAD SPECIFICATION"),
        ("ce-id", "0001"),
        ("ce-type", "example.test"),
        ("ce-source", "http://localhost/"),
        ("ce-someint", "10"),
        ("ce-time", &time()),
    ]);

    let result = from_request(&request, Vec::new());
    assert!(result.is_err());
    let rejection = result.unwrap_err();

    let reason = rejection.status;
    assert_eq!(reason, 400)
}

#[test]
fn axum_test_request_with_full_data() {
    let expected = full();

    let request = headers(&[
        ("ce-specversion", "1.0"),
        ("ce-id", "0001"),
        ("ce-type", "test_event.test_application"),
        ("ce-source", "http://localhost/"),
        ("ce-subject", "cloudevents-sdk"),
        ("content-type", "application/json"),
        ("ce-string_ex", "val"),
        ("ce-int_ex", "10"),
        ("ce-bool_ex", "true"),
        ("ce-time", &time()),
    ]);

    let result = from_request(&request, json_data()).unwrap();

    assert_eq!(expected, result);
}

#[test]
fn request_without_payload_has_no_data() {
    let request = headers(&[
        ("ce-specversion", "1.0"),
        ("ce-id", "0001"),
        ("ce-type", "t"),
        ("ce-source", "s"),
    ]);
    let event = to_event(&request, Vec::new()).unwrap();
    assert_eq!(event.data(), &None);
    assert_eq!(event.specversion(), SpecVersion::V10);
    assert_eq!(event.extensions().len(), 0);
}

#[test]
fn header_names_are_read_without_regard_to_case() {
    let request = headers(&[
        ("CE-SpecVersion", "0.3"),
        ("Ce-Id", "0001"),
        ("cE-type", "t"),
        ("CE-SOURCE", "s"),
        ("Content-Type", "text/plain"),
    ]);
    let event = to_event(&request, b"x".to_vec()).unwrap();
    assert_eq!(event.specversion(), SpecVersion::V03);
    assert_eq!(event.id(), "0001");
    assert_eq!(event.datacontenttype(), &Some("text/plain".to_string()));
    assert_eq!(event.data(), &Some(b"x".to_vec()));
}

#[test]
fn other_headers_are_passed_over() {
    let request = headers(&[
        ("host", "example.org"),
        ("ce-specversion", "1.0"),
        ("ce-id", "0001"),
        ("accept", "*/*"),
        ("accept", "text/html"),
        ("ce-type", "t"),
        ("ce-source", "s"),
        ("certainly", "not ours"),
    ]);
    let event = to_event(&request, Vec::new()).unwrap();
    assert_eq!(event, Event::new("0001".to_string(), "t".to_string(), "s".to_string()));
}

#[test]
fn missing_required_attribute_is_refused() {
    let request = headers(&[("ce-specversion", "1.0"), ("ce-id", "0001"), ("ce-type", "t")]);
    match to_event(&request, Vec::new()) {
        Err(e) => assert_eq!(e.message(), "missing attribute source"),
        Ok(_) => panic!("an event without a source"),
    }
    let request = headers(&[("ce-id", "0001"), ("ce-type", "t"), ("ce-source", "s")]);
    match to_event(&request, Vec::new()) {
        Err(e) => assert_eq!(e.message(), "missing attribute specversion"),
        Ok(_) => panic!("an event without a version"),
    }
}

#[test]
fn repeated_attribute_is_refused() {
    let request = headers(&[
        ("ce-specversion", "1.0"),
        ("ce-id", "0001"),
        ("ce-id", "0002"),
        ("ce-type", "t"),
        ("ce-source", "s"),
    ]);
    assert!(matches!(to_event(&request, Vec::new()), Err(MessageError::RepeatedAttribute)));
    let request = headers(&[
        ("ce-specversion", "1.0"),
        ("ce-id", "0001"),
        ("ce-type", "t"),
        ("ce-source", "s"),
        ("ce-ext", "1"),
        ("ce-ext", "2"),
    ]);
    assert!(matches!(to_event(&request, Vec::new()), Err(MessageError::RepeatedAttribute)));
}

#[test]
fn unknown_version_is_refused_with_its_reason() {
    let request = headers(&[
        ("ce-specversion", "2.0"),
        ("ce-id", "0001"),
        ("ce-type", "t"),
        ("ce-source", "s"),
    ]);
    assert_eq!(
        from_request(&request, Vec::new()),
        Err(Rejection { status: 400, message: "unknown specification version".to_string() })
    );
}

#[test]
fn value_that_is_no_text_is_refused() {
    let list = vec![
        header("ce-specversion", b"1.0"),
        header("ce-id", &[0xff, 0xfe]),
        header("ce-type", b"t"),
        header("ce-source", b"s"),
    ];
    assert!(matches!(decode(&list, Vec::new()), Err(MessageError::InvalidEncoding)));
}

#[test]
fn name_that_cannot_name_an_extension_is_refused() {
    let list = vec![
        header("ce-specversion", b"1.0"),
        header("ce-id", b"1"),
        header("ce-type", b"t"),
        header("ce-source", b"s"),
        header("ce-", b"x"),
    ];
    assert!(matches!(decode(&list, Vec::new()), Err(MessageError::InvalidExtensionName)));
    let list = vec![
        header("ce-specversion", b"1.0"),
        header("ce-id", b"1"),
        header("ce-type", b"t"),
        header("ce-source", b"s"),
        header("ce-with space", b"x"),
    ];
    assert!(matches!(decode(&list, Vec::new()), Err(MessageError::InvalidExtensionName)));
}

#[test]
fn names_of_plain_headers_are_read_without_regard_to_case() {
    let list = vec![
        header("CE-SpecVersion", b"1.0"),
        header("Ce-ID", b"1"),
        header("cE-tYPE", b"t"),
        header("ce-Source", b"s"),
        header("CE-Upper", b"x"),
        header("Content-Type", b"text/plain"),
    ];
    let event = decode(&list, b"payload".to_vec()).unwrap();
    assert_eq!(event.id(), "1");
    assert_eq!(event.ty(), "t");
    assert_eq!(event.source(), "s");
    assert_eq!(event.extension("upper"), Some(&ExtensionValue::String("x".to_string())));
    assert_eq!(event.datacontenttype(), &Some("text/plain".to_string()));
    let list = vec![
        header("ce-specversion", b"1.0"),
        header("ce-id", b"1"),
        header("CE-ID", b"2"),
        header("ce-type", b"t"),
        header("ce-source", b"s"),
    ];
    assert!(matches!(decode(&list, Vec::new()), Err(MessageError::RepeatedAttribute)));
    let list = vec![
        header("ce-specversion", b"1.0"),
        header("ce-id", b"1"),
        header("ce-type", b"t"),
        header("ce-source", b"s"),
        header("content-type", b"a/b"),
        header("ce-datacontenttype", b"c/d"),
    ];
    assert!(matches!(decode(&list, Vec::new()), Err(MessageError::RepeatedAttribute)));
}

#[test]
fn extension_values_are_read_by_their_text() {
    let list = vec![
        header("ce-specversion", b"1.0"),
        header("ce-id", b"1"),
        header("ce-type", b"t"),
        header("ce-source", b"s"),
        header("ce-a", b"-9223372036854775808"),
        header("ce-b", b"9223372036854775807"),
        header("ce-c", b"9223372036854775808"),
        header("ce-d", b"007"),
        header("ce-e", b"-0"),
        header("ce-f", b"false"),
        header("ce-g", b"True"),
        header("ce-h", b""),
        header("ce-i", b"0"),
        header("ce-j", b"-"),
    ];
    let event = decode(&list, Vec::new()).unwrap();
    assert_eq!(event.extension("a"), Some(&ExtensionValue::Integer(i64::MIN)));
    assert_eq!(event.extension("b"), Some(&ExtensionValue::Integer(i64::MAX)));
    assert_eq!(
        event.extension("c"),
        Some(&ExtensionValue::String("9223372036854775808".to_string()))
    );
    assert_eq!(event.extension("d"), Some(&ExtensionValue::String("007".to_string())));
    assert_eq!(event.extension("e"), Some(&ExtensionValue::String("-0".to_string())));
    assert_eq!(event.extension("f"), Some(&ExtensionValue::Boolean(false)));
    assert_eq!(event.extension("g"), Some(&ExtensionValue::String("True".to_string())));
    assert_eq!(event.extension("h"), Some(&ExtensionValue::String(String::new())));
    assert_eq!(event.extension("i"), Some(&ExtensionValue::Integer(0)));
    assert_eq!(event.extension("j"), Some(&ExtensionValue::String("-".to_string())));
    assert_eq!(event.extension("k"), None);
}
