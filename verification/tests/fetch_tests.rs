use imagevault::error::ImageError;
use imagevault::fetch::{probe_verdict, size_verdict, stream_step};
use imagevault::MAX_FILE_SIZE;

#[test]
fn probe_demands_a_success_status() {
    assert!(probe_verdict(200, None, None).is_ok());
    assert!(probe_verdict(299, None, None).is_ok());
    assert!(matches!(probe_verdict(404, None, None), Err(ImageError::StorageFailure)));
    assert!(matches!(probe_verdict(301, None, None), Err(ImageError::StorageFailure)));
    assert!(matches!(probe_verdict(199, None, None), Err(ImageError::StorageFailure)));
}

#[test]
fn probe_checks_the_declared_length() {
    assert!(probe_verdict(200, Some(MAX_FILE_SIZE), None).is_ok());
    assert!(matches!(
        probe_verdict(200, Some(MAX_FILE_SIZE + 1), None),
        Err(ImageError::FileTooLarge)
    ));
}

#[test]
fn probe_checks_the_declared_type() {
    let ct = "image/png".to_string();
    assert!(probe_verdict(200, None, Some(&ct)).is_ok());
    // Case and parameters are tolerated; the allow-list is a substring
    // match over the folded value.
    let ct = "IMAGE/JPEG; charset=binary".to_string();
    assert!(probe_verdict(200, None, Some(&ct)).is_ok());
    let ct = "binary/octet-stream".to_string();
    assert!(probe_verdict(200, None, Some(&ct)).is_ok());
    let ct = "text/html".to_string();
    assert!(matches!(
        probe_verdict(200, None, Some(&ct)),
        Err(ImageError::UnsupportedFormat)
    ));
    // A missing content type is tolerated at the probe.
    assert!(probe_verdict(200, None, None).is_ok());
}

#[test]
fn streaming_aborts_the_moment_the_ceiling_is_crossed() {
    let mut total: u64 = 0;
    total = stream_step(total, 4 * 1024 * 1024).unwrap();
    total = stream_step(total, 6 * 1024 * 1024).unwrap();
    assert_eq!(total, MAX_FILE_SIZE);
    assert!(matches!(stream_step(total, 1), Err(ImageError::FileTooLarge)));
}

#[test]
fn local_files_are_size_checked_before_reading() {
    assert!(size_verdict(MAX_FILE_SIZE).is_ok());
    assert!(matches!(size_verdict(MAX_FILE_SIZE + 1), Err(ImageError::FileTooLarge)));
}
