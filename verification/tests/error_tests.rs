use httpdispatcher::RuntimeError;

#[test]
fn constructors_build_their_variants() {
    assert!(matches!(RuntimeError::component_not_found("a".to_string()), RuntimeError::ComponentNotFound(ref n) if n == "a"));
    assert!(matches!(
        RuntimeError::invalid_input("c".to_string(), "m".to_string()),
        RuntimeError::InvalidInput(ref c, ref m) if c == "c" && m == "m"
    ));
    assert!(matches!(
        RuntimeError::processing_error("c".to_string(), "e1".to_string(), "r".to_string()),
        RuntimeError::ProcessingError { ref component, ref event_id, ref reason }
            if component == "c" && event_id == "e1" && reason == "r"
    ));
    assert!(matches!(RuntimeError::config_error("x".to_string()), RuntimeError::ConfigError(_)));
    assert!(matches!(RuntimeError::init_error("x".to_string()), RuntimeError::InitError(_)));
    assert!(matches!(RuntimeError::channel_error("x".to_string()), RuntimeError::ChannelError(_)));
}

#[test]
fn messages_match_their_variants() {
    assert_eq!(RuntimeError::component_not_found("a".to_string()).message(), "Component not found: a");
    assert_eq!(
        RuntimeError::invalid_input("t".to_string(), "Input x not found".to_string()).message(),
        "Invalid input for component t: Input x not found"
    );
    assert_eq!(
        RuntimeError::processing_error("s".to_string(), "42".to_string(), "boom".to_string()).message(),
        "Component s failed to process event 42: boom"
    );
    assert_eq!(RuntimeError::config_error("bad".to_string()).message(), "Configuration error: bad");
    assert_eq!(RuntimeError::init_error("bad".to_string()).message(), "Initialization error: bad");
    assert_eq!(RuntimeError::channel_error("bad".to_string()).message(), "Channel error: bad");
    assert_eq!(RuntimeError::SerializationError("bad".to_string()).message(), "Serialization error: bad");
    assert_eq!(RuntimeError::Other("bad".to_string()).message(), "Runtime error: bad");
}

#[test]
fn context_prefixes_the_message() {
    let e = RuntimeError::config_error("bad".to_string()).with_context("loading".to_string());
    assert_eq!(e.message(), "loading: Configuration error: bad");
    let e = e.with_context("startup".to_string());
    assert_eq!(e.message(), "startup: loading: Configuration error: bad");
}

#[test]
fn io_errors_convert_and_are_temporary() {
    let io = std::io::Error::new(std::io::ErrorKind::NotFound, "missing file");
    let e: RuntimeError = io.into();
    assert!(matches!(e, RuntimeError::IoError(_)));
    assert!(e.is_temporary());
    assert!(!e.is_fatal());
    assert_eq!(e.message(), "IO error: missing file");
}

#[test]
fn classification() {
    assert!(RuntimeError::channel_error("x".to_string()).is_temporary());
    assert!(RuntimeError::config_error("x".to_string()).is_fatal());
    assert!(RuntimeError::config_error("x".to_string()).is_config_error());
    assert!(RuntimeError::component_not_found("x".to_string()).is_fatal());
    assert!(RuntimeError::invalid_input("x".to_string(), "y".to_string()).is_fatal());
    assert!(!RuntimeError::init_error("x".to_string()).is_fatal());
    assert!(!RuntimeError::init_error("x".to_string()).is_temporary());
    assert!(!RuntimeError::channel_error("x".to_string()).is_config_error());
}

#[test]
fn context_keeps_the_class() {
    let e = RuntimeError::config_error("x".to_string()).with_context("c".to_string());
    assert!(e.is_fatal());
    assert!(!e.is_temporary());
    assert!(e.is_config_error());
    let e = RuntimeError::channel_error("x".to_string()).with_context("c".to_string()).with_context("d".to_string());
    assert!(e.is_temporary());
    assert!(!e.is_fatal());
    assert!(!e.is_config_error());
    let io = std::io::Error::new(std::io::ErrorKind::Other, "boom");
    let e = RuntimeError::from(io).with_context("reading".to_string());
    assert!(e.is_temporary());
    assert_eq!(e.message(), "reading: IO error: boom");
    let e = RuntimeError::init_error("x".to_string()).with_context("c".to_string());
    assert!(!e.is_temporary());
    assert!(!e.is_fatal());
}

#[test]
fn no_error_is_both_temporary_and_fatal() {
    let all = vec![
        RuntimeError::component_not_found("a".to_string()),
        RuntimeError::invalid_input("a".to_string(), "b".to_string()),
        RuntimeError::processing_error("a".to_string(), "b".to_string(), "c".to_string()),
        RuntimeError::config_error("a".to_string()),
        RuntimeError::init_error("a".to_string()),
        RuntimeError::channel_error("a".to_string()),
        RuntimeError::IoError(std::io::Error::new(std::io::ErrorKind::Other, "x")),
        RuntimeError::SerializationError("a".to_string()),
        RuntimeError::Other("a".to_string()),
    ];
    for e in &all {
        assert!(!(e.is_temporary() && e.is_fatal()));
    }
}
