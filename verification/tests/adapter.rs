use cloudevents_http::adapter::to_response;
use cloudevents_http::event::{Event, ExtensionValue, SpecVersion};
use cloudevents_http::extract::to_event;
use cloudevents_http::message::MessageError;
use cloudevents_http::serializer::{MessageBuilder, Serializer};
use cloudevents_http::server_response::event_to_response;
use http::HeaderValue;

fn json_data() -> Vec<u8> {
    b"{\"hello\":\"world\"}".to_vec()
}

fn required() -> Event {
    Event::new(
        "0001".to_string(),
        "test_event.test_application".to_string(),
        "http://localhost/".to_string(),
    )
}

fn full() -> Event {
    required()
        .with_subject(Some("cloudevents-sdk".to_string()))
        .with_time(Some("2020-03-16T11:50:00+00:00".to_string()))
        .with_dataschema(Some("http://localhost/schema".to_string()))
        .with_extension("string_ex".to_string(), ExtensionValue::String("val".to_string()))
        .unwrap()
        .with_extension("int_ex".to_string(), ExtensionValue::Integer(10))
        .unwrap()
        .with_extension("bool_ex".to_string(), ExtensionValue::Boolean(true))
        .unwrap()
        .with_datacontenttype(Some("application/json".to_string()))
        .with_data(Some(json_data()))
}

fn pairs(headers: &http::HeaderMap) -> Vec<(String, Vec<u8>)> {
    headers.iter().map(|(n, v)| (n.as_str().to_string(), v.as_bytes().to_vec())).collect()
}

fn pair(name: &str, value: &str) -> (String, Vec<u8>) {
    (name.to_string(), value.as_bytes().to_vec())
}

fn read(body: axum::body::Body) -> Vec<u8> {
    let runtime = tokio::runtime::Builder::new_current_thread().build().unwrap();
    runtime.block_on(axum::body::to_bytes(body, usize::MAX)).unwrap().to_vec()
}

/// What a recording builder was given.
#[derive(Debug, PartialEq, Eq)]
struct Record {
    headers: Vec<(String, Vec<u8>)>,
    body: Option<Vec<u8>>,
}

/// A builder that records what it is given, and refuses to end when it is
/// told to.
struct Recorder {
    headers: Vec<(String, Vec<u8>)>,
    refuse: bool,
}

fn cause() -> http::Error {
    http::Response::builder().header("not a name", "x").body(()).unwrap_err()
}

impl MessageBuilder<Record> for Recorder {
    fn header(&mut self, key: &str, value: HeaderValue) {
        self.headers.push((key.to_string(), value.as_bytes().to_vec()));
    }

    fn body(&mut self, bytes: Vec<u8>) -> Result<Record, MessageError> {
        if self.refuse {
            return Err(MessageError::Other { source: cause() });
        }
        Ok(Record { headers: std::mem::take(&mut self.headers), body: Some(bytes) })
    }

    fn finish(&mut self) -> Result<Record, MessageError> {
        if self.refuse {
            return Err(MessageError::Other { source: cause() });
        }
        Ok(Record { headers: std::mem::take(&mut self.headers), body: None })
    }
}

fn record(event: Event) -> Result<Record, MessageError> {
    event.deserialize_binary(Serializer::new(Recorder { headers: Vec::new(), refuse: false }))
}

#[test]
fn headers_are_written_in_their_order() {
    let made = record(full()).unwrap();
    assert_eq!(
        made.headers,
        vec![
            pair("ce-specversion", "1.0"),
            pair("ce-id", "0001"),
            pair("ce-type", "test_event.test_application"),
            pair("ce-source", "http://localhost/"),
            pair("ce-subject", "cloudevents-sdk"),
            pair("ce-time", "2020-03-16T11:50:00+00:00"),
            pair("ce-dataschema", "http://localhost/schema"),
            pair("ce-string_ex", "val"),
            pair("ce-int_ex", "10"),
            pair("ce-bool_ex", "true"),
            pair("content-type", "application/json"),
        ]
    );
    assert_eq!(made.body, Some(json_data()));
}

#[test]
fn absent_attributes_write_no_header() {
    let made = record(required()).unwrap();
    assert_eq!(
        made.headers,
        vec![
            pair("ce-specversion", "1.0"),
            pair("ce-id", "0001"),
            pair("ce-type", "test_event.test_application"),
            pair("ce-source", "http://localhost/"),
        ]
    );
}

#[test]
fn pass_ends_with_a_body_exactly_where_there_is_a_payload() {
    assert_eq!(record(required()).unwrap().body, None);
    assert_eq!(record(required().with_data(Some(Vec::new()))).unwrap().body, Some(Vec::new()));
    assert_eq!(record(required().with_data(Some(vec![0]))).unwrap().body, Some(vec![0]));
    assert_eq!(record(required().with_data(Some(vec![1])).with_data(None)).unwrap().body, None);
}

#[test]
fn older_version_is_written_by_its_text() {
    let made = record(required().with_specversion(SpecVersion::V03)).unwrap();
    assert_eq!(made.headers[0], pair("ce-specversion", "0.3"));
}

#[test]
fn refusal_of_the_builder_is_handed_on_with_its_cause() {
    let serializer = Serializer::new(Recorder { headers: Vec::new(), refuse: true });
    match full().deserialize_binary(serializer) {
        Err(MessageError::Other { source }) => {
            assert!(source.is::<http::header::InvalidHeaderName>());
            assert_eq!(source.to_string(), cause().to_string());
        },
        other => panic!("the refusal was lost: {:?}", other.map(|_| ())),
    }
    let serializer = Serializer::new(Recorder { headers: Vec::new(), refuse: true });
    match required().deserialize_binary(serializer) {
        Err(e @ MessageError::Other { .. }) => assert_eq!(e.message(), cause().to_string()),
        other => panic!("the refusal was lost: {:?}", other.map(|_| ())),
    }
}

#[test]
fn pass_stops_at_a_value_that_cannot_stand_in_a_header() {
    let event = required().with_subject(Some("line\nbreak".to_string()));
    match record(event) {
        Err(e @ MessageError::InvalidHeaderValue { .. }) => {
            assert_eq!(e.message(), "failed to parse header value")
        },
        other => panic!("the value was taken: {:?}", other),
    }
    let event = required()
        .with_extension("bell".to_string(), ExtensionValue::String("\u{7}".to_string()))
        .unwrap();
    assert!(matches!(to_response(event), Err(MessageError::InvalidHeaderValue { .. })));
    let event = required().with_subject(Some("tab\tand caf\u{e9}".to_string()));
    assert!(to_response(event).is_ok());
}

#[test]
fn response_carries_the_event() {
    let resp = to_response(full()).unwrap();
    assert_eq!(resp.status().as_u16(), 200);
    let mut got = pairs(resp.headers());
    got.sort();
    let mut expected = record(full()).unwrap().headers;
    expected.sort();
    assert_eq!(got, expected);
    assert_eq!(resp.body(), &json_data());
}

#[test]
fn response_without_payload_has_an_empty_body() {
    let resp = to_response(required()).unwrap();
    assert_eq!(resp.status().as_u16(), 200);
    assert_eq!(resp.headers().len(), 4);
    assert!(resp.body().is_empty());
    let resp = to_response(required().with_data(Some(Vec::new()))).unwrap();
    assert!(resp.body().is_empty());
}

#[test]
fn boxed_response_carries_the_event() {
    let resp = event_to_response(full()).unwrap();
    assert_eq!(resp.status().as_u16(), 200);
    let mut got = pairs(resp.headers());
    got.sort();
    let mut expected = record(full()).unwrap().headers;
    expected.sort();
    assert_eq!(got, expected);
    let (_, body) = resp.into_parts();
    assert_eq!(read(body), json_data());
    let resp = event_to_response(required()).unwrap();
    let (_, body) = resp.into_parts();
    assert_eq!(read(body), Vec::<u8>::new());
}

#[test]
fn event_without_payload_comes_back_from_its_response() {
    let resp = to_response(required()).unwrap();
    let (parts, body) = resp.into_parts();
    assert_eq!(to_event(&parts.headers, body).unwrap(), required());
}

#[test]
fn event_comes_back_from_its_response() {
    let resp = to_response(full()).unwrap();
    let (parts, body) = resp.into_parts();
    let event = to_event(&parts.headers, body).unwrap();
    assert_eq!(event, full());
    let again = to_response(event).unwrap();
    let (parts_again, body_again) = again.into_parts();
    assert_eq!(pairs(&parts_again.headers), pairs(&parts.headers));
    assert_eq!(body_again, json_data());
}

#[test]
fn extension_of_each_kind_comes_back() {
    for value in [
        ExtensionValue::String("val".to_string()),
        ExtensionValue::String("caf\u{e9} 10".to_string()),
        ExtensionValue::Integer(10),
        ExtensionValue::Integer(-1),
        ExtensionValue::Integer(0),
        ExtensionValue::Integer(i64::MIN),
        ExtensionValue::Integer(i64::MAX),
        ExtensionValue::Boolean(true),
        ExtensionValue::Boolean(false),
    ] {
        let event = required().with_extension("ext".to_string(), value.clone()).unwrap();
        let resp = to_response(event).unwrap();
        let (parts, body) = resp.into_parts();
        let back = to_event(&parts.headers, body).unwrap();
        assert_eq!(back.extension("ext"), Some(&value));
    }
}

#[test]
fn string_that_spells_an_integer_comes_back_as_one() {
    let event = required()
        .with_extension("ext".to_string(), ExtensionValue::String("10".to_string()))
        .unwrap();
    let resp = to_response(event).unwrap();
    assert_eq!(resp.headers().get("ce-ext").unwrap().to_str().unwrap(), "10");
    let (parts, body) = resp.into_parts();
    let back = to_event(&parts.headers, body).unwrap();
    assert_eq!(back.extension("ext"), Some(&ExtensionValue::Integer(10)));
}

#[test]
fn more_headers_than_a_map_is_sure_to_take_are_still_written() {
    let mut event = required();
    for i in 0..1100 {
        event = event.with_extension(format!("x{}", i), ExtensionValue::Integer(i)).unwrap();
    }
    let resp = to_response(event).unwrap();
    assert_eq!(resp.headers().len(), 1104);
    assert_eq!(resp.headers().get("ce-x1099").unwrap().to_str().unwrap(), "1099");
}

#[test]
fn header_map_without_room_refuses_with_its_cause() {
    let mut event = required();
    for i in 0..24600 {
        event = event.with_extension(format!("x{}", i), ExtensionValue::Integer(i)).unwrap();
    }
    match to_response(event) {
        Err(MessageError::Other { source }) => {
            assert!(source.is::<http::header::MaxSizeReached>());
        },
        Ok(_) => panic!("a header map took more than it has room for"),
        Err(other) => panic!("another error: {:?}", other),
    }
}
