use ahafs::errors::FsError;
use ahafs::path_uri::{path_to_uri, uri_to_path, valid_connector};

#[test]
fn data_path_translates_to_uri() {
    assert_eq!(path_to_uri("/data/x/y"), Ok(String::from("data://x/y")));
}

#[test]
fn protocol_only_path_translates_to_bare_uri() {
    assert_eq!(path_to_uri("/data"), Ok(String::from("data://")));
}

#[test]
fn prefix_protocols_are_recognized() {
    assert_eq!(path_to_uri("/dropbox2/a/b"), Ok(String::from("dropbox2://a/b")));
    assert_eq!(path_to_uri("/s3/bucket/key"), Ok(String::from("s3://bucket/key")));
}

#[test]
fn unrecognized_protocol_fails_with_path_error() {
    assert_eq!(path_to_uri("/nope/x"), Err(FsError::PathError));
}

#[test]
fn empty_and_rootless_paths_fail_closed() {
    assert_eq!(path_to_uri(""), Err(FsError::PathError));
    assert_eq!(path_to_uri("/"), Err(FsError::PathError));
    assert_eq!(path_to_uri("/datalike"), Err(FsError::PathError));
}

#[test]
fn valid_connector_accepts_exact_data_and_prefixes() {
    assert!(valid_connector("/data"));
    assert!(valid_connector("/data/a"));
    assert!(valid_connector("/dropbox"));
    assert!(valid_connector("/dropbox-work/a"));
    assert!(valid_connector("/s3"));
    assert!(valid_connector("/s3east/a"));
}

#[test]
fn valid_connector_fails_closed() {
    assert!(!valid_connector("/nope/x"));
    assert!(!valid_connector("/database/x"));
    assert!(!valid_connector("/"));
    assert!(!valid_connector(""));
    assert!(!valid_connector("/dat/a"));
}

#[test]
fn uri_translates_back_to_path() {
    assert_eq!(uri_to_path("data://x/y"), String::from("/data/x/y"));
    assert_eq!(uri_to_path("data://"), String::from("/data"));
    assert_eq!(uri_to_path("plain"), String::from("/plain"));
}

#[test]
fn round_trip_preserves_paths() {
    for p in ["/data/x/y", "/data", "/dropbox2/a/b/c", "/s3/k", "/data/x://y", "/data//x"] {
        let uri = path_to_uri(p).expect("valid protocol segment");
        assert_eq!(uri_to_path(&uri), String::from(p));
    }
}

#[test]
fn errno_mapping_matches_posix_codes() {
    assert_eq!(FsError::NotFound.errno(), 2);
    assert_eq!(FsError::BackendFailure.errno(), 5);
    assert_eq!(FsError::PathError.errno(), 1);
    assert_eq!(FsError::UnsupportedOperation.errno(), 1);
}
