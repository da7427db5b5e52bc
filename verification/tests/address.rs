use grahamcraft::address::normalize_server_address;

#[test]
fn normalize_adds_scheme_and_default_port() {
    assert_eq!(
        normalize_server_address("localhost"),
        "http://localhost:50051"
    );
    assert_eq!(
        normalize_server_address("192.168.1.10"),
        "http://192.168.1.10:50051"
    );
    assert_eq!(
        normalize_server_address("192.168.1.10:50051"),
        "http://192.168.1.10:50051"
    );
    assert_eq!(
        normalize_server_address("http://example.com:50051"),
        "http://example.com:50051"
    );
}

#[test]
fn normalize_keeps_https_and_is_idempotent() {
    assert_eq!(
        normalize_server_address("https://example.com"),
        "https://example.com"
    );
    let once = normalize_server_address("game.local");
    assert_eq!(once, "http://game.local:50051");
    assert_eq!(normalize_server_address(&once), once);
    assert_eq!(normalize_server_address(""), "http://:50051");
    assert_eq!(normalize_server_address("http:/x"), "http://http:/x");
}
