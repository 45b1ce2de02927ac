use cloudevents_http::event::{Event, ExtensionValue};
use cloudevents_http::response::{into_response, to_response};

fn minimal() -> Event {
    Event::new(
        "0001".to_string(),
        "test_event.test_application".to_string(),
        "http://localhost/".to_string(),
    )
    .with_extension("someint".to_string(), ExtensionValue::Integer(10))
    .unwrap()
}

fn json_data() -> Vec<u8> {
    b"{\"hello\":\"world\"}".to_vec()
}

fn full() -> Event {
    Event::new(
        "0001".to_string(),
        "test_event.test_application".to_string(),
        "http://localhost/".to_string(),
    )
    .with_subject(Some("cloudevents-sdk".to_string()))
    .with_time(Some("2020-03-16T11:50:00+00:00".to_string()))
    .with_extension("string_ex".to_string(), ExtensionValue::String("val".to_string()))
    .unwrap()
    .with_extension("int_ex".to_string(), ExtensionValue::Integer(10))
    .unwrap()
    .with_extension("bool_ex".to_string(), ExtensionValue::Boolean(true))
    .unwrap()
    .with_datacontenttype(Some("application/json".to_string()))
    .with_data(Some(json_data()))
}

fn read(body: axum::body::Body) -> Vec<u8> {
    let runtime = tokio::runtime::Builder::new_current_thread().build().unwrap();
    runtime.block_on(axum::body::to_bytes(body, usize::MAX)).unwrap().to_vec()
}

#[test]
fn axum_test_response() {
    let input = minimal();

    let resp = into_response(input);

    assert_eq!(resp.headers().get("ce-specversion").unwrap().to_str().unwrap(), "1.0");
    assert_eq!(resp.headers().get("ce-id").unwrap().to_str().unwrap(), "0001");
    assert_eq!(
        resp.headers().get("ce-type").unwrap().to_str().unwrap(),
        "test_event.test_application"
    );
    assert_eq!(resp.headers().get("ce-source").unwrap().to_str().unwrap(), "http://localhost/");
    assert_eq!(resp.headers().get("ce-someint").unwrap().to_str().unwrap(), "10");
}

#[test]
fn axum_test_response_with_full_data() {
    let input = full();

    let resp = into_response(input);

    assert_eq!(resp.headers().get("ce-specversion").unwrap().to_str().unwrap(), "1.0");
    assert_eq!(resp.headers().get("ce-id").unwrap().to_str().unwrap(), "0001");
    assert_eq!(
        resp.headers().get("ce-type").unwrap().to_str().unwrap(),
        "test_event.test_application"
    );
    assert_eq!(resp.headers().get("ce-source").unwrap().to_str().unwrap(), "http://localhost/");
    assert_eq!(resp.headers().get("content-type").unwrap().to_str().unwrap(), "application/json");
    assert_eq!(resp.headers().get("ce-int_ex").unwrap().to_str().unwrap(), "10");

    let (_, body) = resp.into_parts();
    let body = read(body);

    assert_eq!(json_data(), body);
}

#[test]
fn streamed_response_has_status_ok_and_all_headers() {
    let resp = to_response(full()).unwrap();
    assert_eq!(resp.status().as_u16(), 200);
    assert_eq!(resp.headers().len(), 10);
    assert_eq!(resp.headers().get("ce-subject").unwrap().to_str().unwrap(), "cloudevents-sdk");
    assert_eq!(
        resp.headers().get("ce-time").unwrap().to_str().unwrap(),
        "2020-03-16T11:50:00+00:00"
    );
    assert_eq!(resp.headers().get("ce-string_ex").unwrap().to_str().unwrap(), "val");
    assert_eq!(resp.headers().get("ce-bool_ex").unwrap().to_str().unwrap(), "true");
}

#[test]
fn unwritable_value_becomes_internal_error_response() {
    let event = Event::new("a\nb".to_string(), "t".to_string(), "s".to_string());
    let resp = into_response(event);
    assert_eq!(resp.status().as_u16(), 500);
    assert_eq!(resp.headers().len(), 1);
    assert_eq!(resp.headers().get("content-type").unwrap().to_str().unwrap(), "text/plain");
    let (_, body) = resp.into_parts();
    assert_eq!(read(body), b"failed to parse header value".to_vec());
}
