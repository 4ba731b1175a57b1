use ncs::entry::EntryStatus;
use ncs::errors::NcsError;
use ncs::webdav::{href_path, response_entry, response_path, strip_quotes, ListRetry, RetryStep};

const ROOT: &str = "/remote.php/dav/files/user";

#[test]
fn href_loses_root_and_escapes() {
    assert_eq!(href_path("/remote.php/dav/files/user/My%20Docs/a.md", ROOT), Some("/My Docs/a.md".to_string()));
    assert_eq!(href_path("/remote.php/dav/files/user/", ROOT), Some("/".to_string()));
    assert_eq!(href_path("/plain/path", ROOT), Some("/plain/path".to_string()));
    assert_eq!(href_path("/bad%FF", ROOT), None);
}

#[test]
fn etag_quotes_removed() {
    assert_eq!(strip_quotes("\"5f3a\""), "5f3a");
    assert_eq!(strip_quotes("abc"), "abc");
}

#[test]
fn responses_become_entries() {
    let f = response_entry("/remote.php/dav/files/user/docs/a%2Bb.txt", ROOT, Some("\"e1\""), Some("text/plain")).unwrap();
    assert!(f.is_file());
    assert_eq!(f.get_raw_name(), "a+b.txt");
    assert_eq!(f.entry_type().get_etag(), "e1");
    assert_eq!(f.status(), EntryStatus::NeedUpdate);
    let d = response_entry("/remote.php/dav/files/user/docs/", ROOT, Some("\"e2\""), Some("")).unwrap();
    assert!(d.is_dir());
    assert_eq!(d.get_raw_name(), "docs");
    assert!(response_entry("/remote.php/dav/files/user/docs/", ROOT, None, Some("")).is_none());
    assert!(response_entry("/remote.php/dav/files/user/docs/", ROOT, Some("e"), None).is_none());
}

#[test]
fn responses_give_paths() {
    assert_eq!(
        response_path("/remote.php/dav/files/user/docs/", ROOT, Some("")),
        Some(("/docs/".to_string(), true))
    );
    assert_eq!(
        response_path("/remote.php/dav/files/user/x.md", ROOT, Some("text/markdown")),
        Some(("/x.md".to_string(), false))
    );
    assert_eq!(response_path("/remote.php/dav/files/user/x.md", ROOT, None), None);
}

#[test]
fn listing_retries_three_times() {
    let mut r = ListRetry::new();
    assert!(matches!(r.on_status(false, 503), RetryStep::Retry));
    assert!(matches!(r.on_status(false, 503), RetryStep::Retry));
    assert!(matches!(r.on_status(false, 500), RetryStep::Fail(NcsError::BadStatusError(500))));
    let mut r = ListRetry::new();
    assert!(matches!(r.on_status(false, 503), RetryStep::Retry));
    assert!(matches!(r.on_status(true, 207), RetryStep::Done));
}
