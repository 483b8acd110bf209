use simple_discover::DiscoverError;

#[test]
fn error_messages() {
    assert_eq!(DiscoverError::NoAvailablePort.message(), "No available port");
    assert_eq!(
        DiscoverError::Protocol("bad".to_string()).message(),
        "Protocol error: bad"
    );
    assert_eq!(DiscoverError::Other("oops".to_string()).message(), "Error: oops");
}

#[test]
fn io_errors_convert_and_show_their_text() {
    let io = std::io::Error::new(std::io::ErrorKind::Other, "socket closed");
    let err: DiscoverError = io.into();
    assert!(matches!(err, DiscoverError::Io(_)));
    assert_eq!(err.message(), "socket closed");
}
