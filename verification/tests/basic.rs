use http_benchmarks::client_tag;
use http_benchmarks::validate_uint;

#[test]
fn it_works() {
    assert_eq!(2 + 2, 4);
}

#[test]
fn registry_known_codes() {
    assert_eq!(client_tag(0), Some("test"));
    assert_eq!(client_tag(1), Some("loop_rw"));
    assert_eq!(client_tag(2), Some("hyper-tls"));
    assert_eq!(client_tag(10), Some("hyper-http-via-stunnel"));
    assert_eq!(client_tag(11), Some("raw-tcp"));
    assert_eq!(client_tag(12), Some("raw tcp+tls[openssl]"));
}

#[test]
fn registry_shared_tag() {
    assert_eq!(client_tag(8), client_tag(9));
    assert_eq!(client_tag(8), Some("chttp-wolfssl-ECDHE-RSA-AES128-SHA"));
}

#[test]
fn registry_unknown_codes() {
    assert_eq!(client_tag(13), None);
    assert_eq!(client_tag(77), None);
    assert_eq!(client_tag(u16::MAX), None);
}

#[test]
fn validate_uint_accepts_integers() {
    assert!(validate_uint("0".to_string()).is_ok());
    assert!(validate_uint("123".to_string()).is_ok());
    assert!(validate_uint("+42".to_string()).is_ok());
    assert!(validate_uint("0042".to_string()).is_ok());
    assert!(validate_uint("18446744073709551615".to_string()).is_ok());
}

#[test]
fn validate_uint_rejects_non_integers() {
    assert!(validate_uint("".to_string()).is_err());
    assert!(validate_uint("abc".to_string()).is_err());
    assert!(validate_uint("12x".to_string()).is_err());
    assert!(validate_uint("-3".to_string()).is_err());
    assert!(validate_uint("+".to_string()).is_err());
    assert!(validate_uint("18446744073709551616".to_string()).is_err());
}
