use loopback_auth::consent::consent_url;

#[test]
fn consent_url_carries_the_port() {
    assert_eq!(
        consent_url(8080),
        "https://yogu.pro/auth/login/native_app?native_app_port=8080"
    );
}

#[test]
fn consent_url_writes_plain_decimal() {
    let stem = "https://yogu.pro/auth/login/native_app?native_app_port=";
    for (port, digits) in [
        (0u16, "0"),
        (7, "7"),
        (10, "10"),
        (99, "99"),
        (100, "100"),
        (1024, "1024"),
        (40001, "40001"),
        (65535, "65535"),
    ] {
        assert_eq!(consent_url(port), format!("{}{}", stem, digits));
    }
}

#[test]
fn consent_url_matches_every_port() {
    for port in 0..=u16::MAX {
        let url = consent_url(port);
        let (_, query) = url.split_once('?').unwrap();
        let (key, value) = query.split_once('=').unwrap();
        assert_eq!(key, "native_app_port");
        assert_eq!(value, port.to_string());
    }
}
