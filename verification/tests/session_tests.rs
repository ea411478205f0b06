use ilo_hw_metrics::session::{create_session, login_body, login_url, SessionError};

fn header(name: &str, value: &[u8]) -> (Vec<u8>, Vec<u8>) {
    (name.as_bytes().to_vec(), value.to_vec())
}

#[test]
fn token_header_yields_session() {
    let headers = vec![
        header("Content-Length", b"0"),
        header("X-Auth-Token", b"abc123tok"),
        header("Connection", b"keep-alive"),
    ];
    let s = create_session("https://10.0.0.5", &headers).unwrap();
    assert_eq!(s.token, b"abc123tok".to_vec());
    assert_eq!(s.url_base, "https://10.0.0.5".to_string());
}

#[test]
fn header_name_is_case_insensitive() {
    let headers = vec![header("x-AUTH-tOkEn", b"t0")];
    let s = create_session("https://h", &headers).unwrap();
    assert_eq!(s.token, b"t0".to_vec());
}

#[test]
fn missing_token_header_fails() {
    let headers = vec![header("Content-Type", b"application/json")];
    let r = create_session("https://h", &headers);
    assert_eq!(r.err(), Some(SessionError::MissingTokenHeader));
}

#[test]
fn no_headers_at_all_fails() {
    let headers: Vec<(Vec<u8>, Vec<u8>)> = Vec::new();
    let r = create_session("https://h", &headers);
    assert_eq!(r.err(), Some(SessionError::MissingTokenHeader));
}

#[test]
fn non_printable_token_value_is_malformed() {
    let headers = vec![header("x-auth-token", &[0xC3u8, 0x28, 0x07])];
    let r = create_session("https://h", &headers);
    assert_eq!(r.err(), Some(SessionError::MalformedToken));
}

#[test]
fn first_token_header_wins() {
    let headers = vec![header("x-auth-token", b"first"), header("X-Auth-Token", b"second")];
    let s = create_session("https://h", &headers).unwrap();
    assert_eq!(s.token, b"first".to_vec());
}

#[test]
fn login_url_appends_session_service_path() {
    assert_eq!(
        login_url("https://192.168.20.31"),
        "https://192.168.20.31/redfish/v1/SessionService/Sessions/".to_string()
    );
}

#[test]
fn chassis_url_appends_chassis_path() {
    let headers = vec![header("x-auth-token", b"t")];
    let s = create_session("https://192.168.20.31", &headers).unwrap();
    assert_eq!(
        s.chassis_url("1"),
        "https://192.168.20.31/redfish/v1/Chassis/1/".to_string()
    );
}

#[test]
fn login_body_fixed_field_names() {
    let body = login_body(b"Administrator", b"hunter2");
    assert_eq!(
        body,
        b"{\"UserName\":\"Administrator\",\"Password\":\"hunter2\"}".to_vec()
    );
}

#[test]
fn login_body_escapes_quotes_and_backslashes() {
    let body = login_body(b"ad\"min", b"p\\w");
    assert_eq!(
        body,
        b"{\"UserName\":\"ad\\\"min\",\"Password\":\"p\\\\w\"}".to_vec()
    );
}
