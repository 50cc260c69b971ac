use autocopy::error::AutoCopyError;
use autocopy::models::{CopyFailure, CopyRequest, Folder};

fn folder() -> Folder {
    Folder {
        id: 1,
        name: "docs".to_string(),
        location: "/home/me/docs".to_string(),
        destiny: "/mnt/backup".to_string(),
        interval: 5,
    }
}

#[test]
fn copy_with_both_paths_present() {
    let r = folder().do_copy(true, true);
    assert_eq!(
        r,
        Ok(CopyRequest {
            source: "/home/me/docs".to_string(),
            destination: "/mnt/backup".to_string(),
            overwrite: true,
            content_only: true,
        })
    );
}

#[test]
fn copy_with_missing_source_names_it() {
    let r = folder().do_copy(false, true);
    assert_eq!(r, Err(CopyFailure::SourceMissing("/home/me/docs".to_string())));
    assert_eq!(
        r.unwrap_err().description(),
        "Original path /home/me/docs do not exists!"
    );
}

#[test]
fn missing_source_is_reported_before_destination() {
    let r = folder().do_copy(false, false);
    assert_eq!(r, Err(CopyFailure::SourceMissing("/home/me/docs".to_string())));
}

#[test]
fn copy_with_missing_destination_names_it() {
    let r = folder().do_copy(true, false);
    assert_eq!(r, Err(CopyFailure::DestinationMissing("/mnt/backup".to_string())));
    assert_eq!(
        r.unwrap_err().description(),
        "Destiny path /mnt/backup do not exists!"
    );
}

#[test]
fn transfer_failure_keeps_its_text() {
    let e = CopyFailure::Transfer("Permission denied".to_string());
    assert_eq!(e.description(), "Permission denied");
}

#[test]
fn log_lines() {
    let f = folder();
    assert_eq!(f.copying_line("12:30:05"), "[12:30:05] Copying profile docs");
    let e = CopyFailure::DestinationMissing("/mnt/backup".to_string());
    assert_eq!(
        f.failure_line(&e),
        "Profile docs error: Destiny path /mnt/backup do not exists!"
    );
}

#[test]
fn duplicate_is_equal() {
    let f = folder();
    assert_eq!(f.duplicate(), f);
}

#[test]
fn error_description_is_its_message() {
    let e = AutoCopyError::ConfigFolderError("no home".to_string());
    assert_eq!(e.description(), "no home");
    let e = AutoCopyError::StdIOError("disk full".to_string());
    assert_eq!(e.description(), "disk full");
    assert_eq!(e.to_string(), "disk full");
}
