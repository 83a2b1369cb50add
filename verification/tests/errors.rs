use geminus::error::{failure_of, fault_of, system_words, FailureKind};
use geminus::sys::{linux, windows};
use geminus::{system_text, CmdError};

#[test]
fn the_runtimes_error_number_never_reaches_the_user() {
    let e = std::io::Error::from_raw_os_error(13);
    assert!(e.to_string().contains("os error"));
    assert!(!system_text(&e).contains("os error"));
    assert!(!system_text(&e).is_empty());
}

#[test]
fn a_key_that_already_names_the_cause_carries_no_tail() {
    let e = std::io::Error::from_raw_os_error(13);
    assert_eq!(CmdError::from_io("permission", &e).detail, "");
    assert!(!CmdError::from_io("delete_failed", &e).detail.is_empty());
}

#[test]
fn only_the_number_at_the_end_is_cut_off() {
    assert_eq!(system_words("Permission denied (os error 13)"), "Permission denied");
    assert_eq!(system_words("odd (os error 1) (os error 2)"), "odd (os error 1)");
    assert_eq!(system_words("odd (os error 1) indeed"), "odd (os error 1) indeed");
    assert_eq!(system_words("plain words (really)"), "plain words (really)");
    assert_eq!(system_words(""), "");
}

#[test]
fn keys_and_tails() {
    let e = CmdError::plain("code");
    assert_eq!((e.code.as_str(), e.detail.as_str()), ("code", ""));
    let e = CmdError::with_detail("code", "tail".to_string());
    assert_eq!((e.code.as_str(), e.detail.as_str()), ("code", "tail"));
    let e = CmdError::from_words("delete_failed", "no (os error 5)");
    assert_eq!((e.code.as_str(), e.detail.as_str()), ("delete_failed", "no"));
    for code in [
        "permission", "item_missing", "no_app_for_type", "not_a_web_address", "invalid_device",
        "no_physical_disk", "symlink_not_copyable", "source_kind_not_supported",
    ] {
        assert_eq!(CmdError::from_words(code, "words").detail, "");
    }
}

#[test]
fn an_error_of_the_system_is_read_as_plain_values() {
    let e = std::io::Error::from_raw_os_error(2);
    let f = fault_of(&e);
    assert_eq!(f.failure.kind, FailureKind::NotFound);
    assert_eq!(f.failure.raw, Some(2));
    assert_eq!(f.text, e.to_string());
    let e = std::io::Error::new(std::io::ErrorKind::PermissionDenied, "mine");
    assert_eq!(failure_of(&e).kind, FailureKind::PermissionDenied);
    assert_eq!(failure_of(&e).raw, None);
}

#[test]
fn why_an_operation_failed_on_either_system() {
    let e = |n: i32| std::io::Error::from_raw_os_error(n);
    assert_eq!(linux::cause_of(&e(13)), "permission");
    assert_eq!(linux::cause_of(&e(2)), "missing");
    assert_eq!(linux::cause_of(&e(5)), "io");
    assert_eq!(linux::cause_of(&e(28)), "nospace");
    assert_eq!(linux::cause_of(&e(30)), "readonly");
    assert_eq!(linux::cause_of(&e(6)), "device");
    assert_eq!(linux::cause_of(&e(19)), "device");
    assert_eq!(linux::cause_of(&e(11)), "other");
    assert_eq!(windows::cause_of(&e(32)), "inuse");
    assert_eq!(windows::cause_of(&e(33)), "inuse");
    assert_eq!(windows::cause_of(&e(112)), "nospace");
    assert_eq!(windows::cause_of(&e(19)), "readonly");
    assert_eq!(windows::cause_of(&e(1167)), "device");
    assert_eq!(windows::cause_of(&e(23)), "io");
    let denied = std::io::Error::from(std::io::ErrorKind::PermissionDenied);
    assert_eq!(windows::cause_of(&denied), "permission");
    let missing = std::io::Error::from(std::io::ErrorKind::NotFound);
    assert_eq!(windows::cause_of(&missing), "missing");
    let other = std::io::Error::from(std::io::ErrorKind::TimedOut);
    assert_eq!(windows::cause_of(&other), "other");
}
