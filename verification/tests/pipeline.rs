use parsezilla::auth::{check_api_key, unauthorized_body};
use parsezilla::handler::{
    build_response, finish_request, screen_body, screen_request, EngineError, RequestError,
};

/// A stand-in for the external engine that counts how often it is invoked
/// and fails on an empty address, as the real engine may.
fn stub_engine(
    address: &str,
    calls: &mut usize,
) -> Result<Vec<(String, String)>, EngineError> {
    *calls += 1;
    if address.is_empty() {
        Err(EngineError { detail: String::from("empty input") })
    } else {
        Ok(vec![(String::from("road"), String::from(address.to_lowercase()))])
    }
}

#[test]
fn right_key_is_accepted() {
    let key = String::from("expected-key");
    let header = Some(String::from("expected-key"));
    assert!(check_api_key(header.as_ref(), &key));
}

#[test]
fn wrong_missing_and_differently_cased_keys_are_rejected() {
    let key = String::from("expected-key");
    let wrong = Some(String::from("other-key"));
    let cased = Some(String::from("Expected-Key"));
    assert!(!check_api_key(wrong.as_ref(), &key));
    assert!(!check_api_key(cased.as_ref(), &key));
    assert!(!check_api_key(None, &key));
}

#[test]
fn unauthorized_requests_never_reach_the_engine() {
    let key = String::from("expected-key");
    let mut engine_calls: usize = 0;
    for header in [None, Some(String::from("wrong-key"))] {
        let screened = screen_request(
            header.as_ref(),
            &key,
            Some(String::from("123 main st")),
        );
        match screened {
            Ok(addr) => {
                let _ = stub_engine(&addr, &mut engine_calls);
                panic!("an unauthorized request was let through");
            }
            Err(e) => assert_eq!(e, RequestError::AuthFailure),
        }
    }
    assert_eq!(engine_calls, 0);
}

#[test]
fn unauthorized_response_is_identical_across_attempts() {
    let key = String::from("expected-key");
    for _ in 0..3 {
        let missing = screen_request(None, &key, Some(String::from("x")));
        let wrong_header = Some(String::from("Expected-Key"));
        let wrong = screen_request(wrong_header.as_ref(), &key, Some(String::from("x")));
        assert_eq!(missing.unwrap_err(), RequestError::AuthFailure);
        assert_eq!(wrong.unwrap_err(), RequestError::AuthFailure);
        assert_eq!(RequestError::AuthFailure.status_code(), 401);
        assert_eq!(unauthorized_body(), "Invalid API key");
    }
}

#[test]
fn three_component_scenario() {
    let key = String::from("expected-key");
    let header = Some(String::from("expected-key"));
    let screened = screen_request(
        header.as_ref(),
        &key,
        Some(String::from("123 Main Street, Springfield")),
    );
    assert_eq!(screened.as_deref().unwrap(), "123 Main Street, Springfield");
    // what the engine emits for that address
    let raw = vec![
        (String::from("house_number"), String::from("123")),
        (String::from("road"), String::from("main street")),
        (String::from("city"), String::from("springfield")),
    ];
    let rows = finish_request(Ok(raw)).unwrap();
    assert_eq!(rows.len(), 3);
    assert_eq!(rows[0].component, "house_number");
    assert_eq!(rows[0].value, "123");
    assert_eq!(rows[1].component, "road");
    assert_eq!(rows[1].value, "Main Street");
    assert_eq!(rows[2].component, "city");
    assert_eq!(rows[2].value, "Springfield");
}

#[test]
fn missing_address_fails_and_the_next_request_succeeds() {
    let key = String::from("expected-key");
    let header = Some(String::from("expected-key"));
    let mut engine_calls: usize = 0;
    let first = screen_request(header.as_ref(), &key, None);
    assert_eq!(first.unwrap_err(), RequestError::BadRequest);
    assert_eq!(RequestError::BadRequest.status_code(), 400);
    // the engine was never entered, so the next valid request goes through
    let second = screen_request(header.as_ref(), &key, Some(String::from("5 elm st")));
    let addr = second.unwrap();
    let outcome = stub_engine(&addr, &mut engine_calls);
    assert_eq!(engine_calls, 1);
    let rows = finish_request(outcome).unwrap();
    assert_eq!(rows.len(), 1);
    assert_eq!(rows[0].value, "5 Elm St");
}

#[test]
fn engine_failure_is_surfaced_not_fatal() {
    let key = String::from("expected-key");
    let header = Some(String::from("expected-key"));
    let mut engine_calls: usize = 0;
    let screened = screen_request(header.as_ref(), &key, Some(String::new()));
    let addr = screened.unwrap();
    let outcome = stub_engine(&addr, &mut engine_calls);
    let failed = finish_request(outcome);
    assert_eq!(failed.unwrap_err(), RequestError::EngineFailure);
    assert_eq!(RequestError::EngineFailure.status_code(), 500);
    // the failure poisons nothing: a later parse still succeeds
    let outcome = stub_engine("10 oak ave", &mut engine_calls);
    let rows = finish_request(outcome).unwrap();
    assert_eq!(rows[0].value, "10 Oak Ave");
}

#[test]
fn missing_body_field_is_distinct_from_auth_failure() {
    assert_eq!(screen_body(None).unwrap_err(), RequestError::BadRequest);
    assert_ne!(
        RequestError::BadRequest.status_code(),
        RequestError::AuthFailure.status_code()
    );
}

#[test]
fn build_response_keeps_order_and_duplicates() {
    let raw = vec![
        (String::from("road"), String::from("b st")),
        (String::from("road"), String::from("a st")),
        (String::from("unit"), String::from("7")),
    ];
    let rows = build_response(raw);
    assert_eq!(rows.len(), 3);
    assert_eq!(rows[0].component, "road");
    assert_eq!(rows[0].value, "B St");
    assert_eq!(rows[1].component, "road");
    assert_eq!(rows[1].value, "A St");
    assert_eq!(rows[2].component, "unit");
    assert_eq!(rows[2].value, "7");
}

#[test]
fn each_response_corresponds_to_its_own_request() {
    // fifty requests, each with its own address and its own engine emission;
    // every response must be built from its own request's components alone
    let mut responses = Vec::new();
    for i in 0..50 {
        let raw = vec![
            (String::from("house_number"), format!("{}", i)),
            (String::from("road"), String::from("main st")),
        ];
        responses.push(finish_request(Ok(raw)).unwrap());
    }
    for (i, rows) in responses.iter().enumerate() {
        assert_eq!(rows.len(), 2);
        assert_eq!(rows[0].value, format!("{}", i));
        assert_eq!(rows[1].value, "Main St");
    }
}
