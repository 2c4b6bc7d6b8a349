use neuronav::failure::Failure;

#[test]
fn messages_name_what_failed() {
    let path = "data/m".to_string();
    assert_eq!(Failure::NotFound { path: path.clone() }.message(), "not found: data/m");
    assert_eq!(Failure::KeyNotFound { key: "s".to_string() }.message(), "no such service: s");
    assert_eq!(
        Failure::TransportError { locator: "https://x".to_string() }.message(),
        "request failed: https://x"
    );
    assert_eq!(
        Failure::ParseError { locator: "https://x".to_string(), excerpt: "<p>".to_string() }
            .message(),
        "unexpected page structure at https://x: <p>"
    );
    assert_eq!(Failure::CorruptData { path: path.clone() }.message(), "corrupt page data: data/m");
    assert_eq!(Failure::IOError { path: path.clone() }.message(), "input/output failure: data/m");
    assert_eq!(Failure::AlreadyExists { name: "s".to_string() }.message(), "already exists: s");
    assert_eq!(Failure::FatalInternalFault.message(), "fatal internal fault");
}

#[test]
fn only_the_internal_fault_is_fatal() {
    assert!(Failure::FatalInternalFault.is_fatal());
    assert!(!Failure::NotFound { path: String::new() }.is_fatal());
    assert!(!Failure::KeyNotFound { key: String::new() }.is_fatal());
    assert!(!Failure::TransportError { locator: String::new() }.is_fatal());
    assert!(!Failure::ParseError { locator: String::new(), excerpt: String::new() }.is_fatal());
    assert!(!Failure::CorruptData { path: String::new() }.is_fatal());
    assert!(!Failure::IOError { path: String::new() }.is_fatal());
    assert!(!Failure::AlreadyExists { name: String::new() }.is_fatal());
}
