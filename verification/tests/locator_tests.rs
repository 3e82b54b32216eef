use melda_tools::errors::ToolError;
use melda_tools::locator::parse_locator;
use melda_tools::locator::BackendKind;
use melda_tools::locator::Compression;

#[test]
fn memory_locator_resolves_to_memory_backend() {
    let p = parse_locator(&"memory://".to_string()).unwrap();
    assert_eq!(p.kind, BackendKind::Memory);
    assert_eq!(p.compression, Compression::Plain);
    assert_eq!(p.host, "");
    assert_eq!(p.path, "");
}

#[test]
fn file_locator_resolves_to_filesystem_backend() {
    let p = parse_locator(&"file:///tmp/repo".to_string()).unwrap();
    assert_eq!(p.kind, BackendKind::FileSystem);
    assert_eq!(p.compression, Compression::Plain);
    assert_eq!(p.host, "");
    assert_eq!(p.path, "/tmp/repo");
}

#[test]
fn flate_modifier_wraps_backend() {
    let p = parse_locator(&"file+flate:///data/repo".to_string()).unwrap();
    assert_eq!(p.kind, BackendKind::FileSystem);
    assert_eq!(p.compression, Compression::Flate);
    assert_eq!(p.path, "/data/repo");
}

#[test]
fn brotli_modifier_is_refused_as_unsupported() {
    // This engine build compiles the brotli adapter out; accepting the
    // scheme would silently yield an uncompressed backend.
    let e = parse_locator(&"memory+brotli://".to_string()).unwrap_err();
    assert!(matches!(e, ToolError::UnsupportedBackend));
}

#[test]
fn solid_locator_keeps_host_and_path() {
    let p = parse_locator(&"solid://pod.example.org/folder/repo".to_string()).unwrap();
    assert_eq!(p.kind, BackendKind::Solid);
    assert_eq!(p.host, "pod.example.org");
    assert_eq!(p.path, "/folder/repo");
}

#[test]
fn sqlite_locator_resolves() {
    let p = parse_locator(&"sqlite:///var/db".to_string()).unwrap();
    assert_eq!(p.kind, BackendKind::Sqlite);
}

#[test]
fn unknown_scheme_is_unsupported_backend() {
    let e = parse_locator(&"ftp://somewhere/else".to_string()).unwrap_err();
    assert!(matches!(e, ToolError::UnsupportedBackend));
}

#[test]
fn scheme_match_is_case_sensitive() {
    let e = parse_locator(&"Memory://".to_string()).unwrap_err();
    assert!(matches!(e, ToolError::UnsupportedBackend));
}

#[test]
fn missing_separator_is_invalid() {
    let e = parse_locator(&"memory".to_string()).unwrap_err();
    assert!(matches!(e, ToolError::InvalidLocator));
}

#[test]
fn empty_locator_is_invalid() {
    let e = parse_locator(&"".to_string()).unwrap_err();
    assert!(matches!(e, ToolError::InvalidLocator));
}

#[test]
fn space_in_path_is_invalid() {
    let e = parse_locator(&"memory://a b".to_string()).unwrap_err();
    assert!(matches!(e, ToolError::InvalidLocator));
}

#[test]
fn port_in_host_is_invalid() {
    let e = parse_locator(&"solid://host:8080/x".to_string()).unwrap_err();
    assert!(matches!(e, ToolError::InvalidLocator));
}

#[test]
fn file_locator_with_host_is_invalid() {
    let e = parse_locator(&"file://host/x".to_string()).unwrap_err();
    assert!(matches!(e, ToolError::InvalidLocator));
}

#[test]
fn startup_errors_share_an_exit_class() {
    assert_eq!(ToolError::InvalidLocator.exit_code(), 4);
    assert_eq!(ToolError::UnsupportedBackend.exit_code(), 4);
    assert_eq!(ToolError::NoConflict.exit_code(), 1);
    assert_eq!(ToolError::InvalidWinnerChoice.exit_code(), 2);
    assert_eq!(ToolError::ResolutionFailed("x".to_string()).exit_code(), 3);
    assert_eq!(ToolError::CommitFailed("x".to_string()).exit_code(), 3);
    assert_eq!(ToolError::UnknownObject("x".to_string()).exit_code(), 3);
    assert_eq!(ToolError::UnknownRevision("x".to_string()).exit_code(), 3);
}
