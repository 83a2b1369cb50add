use geminus::error::{FailureKind, Fault, IoFailure};
use geminus::ops::browse::{browse_dir, open_url, sort_entries, BrowseEntry};
use geminus::ops::remove::{
    delete_done, delete_failed, delete_unseen, open_item, removal_of, Removal, Surviving, Survey,
};
use geminus::ops::submit_error_choice;
use geminus::ops::tree::EntryKind;
use geminus::sys::System;

fn fault(kind: FailureKind, text: &str) -> Fault<String> {
    Fault { failure: IoFailure { kind, raw: None }, text: text.to_string() }
}

#[test]
fn an_answer_needs_somebody_waiting_for_it() {
    assert!(submit_error_choice(true, true).is_ok());
    for (waited_for, heard) in [(true, false), (false, true), (false, false)] {
        let e = submit_error_choice(waited_for, heard).unwrap_err();
        assert_eq!((e.code.as_str(), e.detail.as_str()), ("answer_not_delivered", ""));
    }
}

#[test]
fn how_items_are_removed() {
    assert_eq!(removal_of(EntryKind::Link), Removal::Link);
    assert_eq!(removal_of(EntryKind::Folder), Removal::Folder);
    assert_eq!(removal_of(EntryKind::File), Removal::File);
    assert_eq!(removal_of(EntryKind::Other), Removal::File);
    let done = delete_done();
    assert!(done.removed && done.remaining.is_empty() && done.error.is_none());
}

#[test]
fn an_item_that_is_already_gone_still_leaves_the_view() {
    let gone = delete_unseen(&fault(FailureKind::NotFound, "gone")).unwrap();
    assert!(gone.removed);
    assert_eq!(gone.error.unwrap().code, "item_missing");
    let refused = delete_unseen(&fault(FailureKind::PermissionDenied, "no")).unwrap_err();
    assert_eq!((refused.code.as_str(), refused.detail.as_str()), ("permission", ""));
}

#[test]
fn what_survives_a_deletion_that_stopped_halfway() {
    let mut survey = Survey::new(System::Linux, "/r/top", "top", Ok(true));
    assert_eq!(survey.next_dir(), Some("/r/top"));
    survey.entry("/r/top/kept", Some("top/kept"), Ok(true));
    survey.entry("/r/top/f.txt", Some("top/f.txt"), Ok(false));
    survey.entry("/r/top/vanished", Some("top/vanished"), Err(FailureKind::NotFound));
    survey.entry("/elsewhere", None, Ok(true));
    assert_eq!(survey.next_dir(), Some("/r/top/kept"));
    survey.unreadable();
    assert_eq!(survey.next_dir(), None);
    let s = survey.finish();
    assert_eq!(s.seen, vec!["top".to_string(), "top/kept".to_string(), "top/f.txt".to_string()]);
    assert_eq!(s.unknown, vec!["top/kept".to_string()]);
    let out = delete_failed(&fault(FailureKind::Other, "busy (os error 16)"), s);
    assert!(!out.removed);
    assert_eq!(out.remaining.len(), 3);
    assert_eq!(out.unreadable, vec!["top/kept".to_string()]);
    let e = out.error.unwrap();
    assert_eq!((e.code.as_str(), e.detail.as_str()), ("delete_failed", "busy"));
}

#[test]
fn gone_means_that_nothing_is_reported() {
    let mut survey = Survey::new(System::Windows, 0, "never", Err(FailureKind::NotFound));
    assert_eq!(survey.next_dir(), None);
    let s = survey.finish();
    assert!(s.seen.is_empty() && s.unknown.is_empty());
    let none = Surviving { seen: Vec::new(), unknown: Vec::new() };
    let out = delete_failed(&fault(FailureKind::PermissionDenied, "no"), none);
    assert!(out.removed);
    assert_eq!(out.error.unwrap().code, "permission");
}

#[test]
fn positions_below_are_in_the_shared_form() {
    let mut survey = Survey::new(System::Windows, 1, "top", Ok(true));
    survey.next_dir();
    survey.entry(2, Some("top\\sub"), Ok(true));
    survey.next_dir();
    survey.unreadable();
    let s = survey.finish();
    assert_eq!(s.seen, vec!["top".to_string(), "top/sub".to_string()]);
    assert_eq!(s.unknown, vec!["top/sub".to_string()]);
}

#[test]
fn only_what_is_there_is_opened() {
    assert!(open_item(Ok(())).is_ok());
    let e = open_item(Err(fault(FailureKind::PermissionDenied, "no"))).unwrap_err();
    assert_eq!((e.code.as_str(), e.detail.as_str()), ("permission", ""));
    let e = open_item(Err(fault(FailureKind::Other, "no"))).unwrap_err();
    assert_eq!(e.code, "item_missing");
}

#[test]
fn only_web_addresses_leave_the_program() {
    assert!(open_url("https://example.org").is_ok());
    assert!(open_url("http://example.org").is_ok());
    for url in ["file:///etc/passwd", "ftp://x", "HTTPS://x", "", "javascript:x", " https://x"] {
        assert_eq!(open_url(url).unwrap_err().code, "not_a_web_address");
    }
}

fn entry(name: &str, kind: EntryKind) -> BrowseEntry {
    BrowseEntry::new(name.to_string(), format!("/d/{}", name), Some((kind, false)))
}

#[test]
fn folders_first_then_names_ignoring_case() {
    let list = vec![
        entry("beta", EntryKind::File),
        entry("Zeta", EntryKind::Folder),
        entry("Alpha", EntryKind::File),
        entry("alpha", EntryKind::Folder),
        entry("alpha", EntryKind::File),
        entry("\u{c9}t\u{e9}", EntryKind::File),
        entry("\u{e9}t\u{e9}", EntryKind::Link),
    ];
    let names: Vec<String> = sort_entries(&list).iter().map(|e| e.name.clone()).collect();
    assert_eq!(
        names,
        vec!["alpha", "Zeta", "Alpha", "alpha", "beta", "\u{c9}t\u{e9}", "\u{e9}t\u{e9}"]
    );
}

#[test]
fn entries_of_equal_rank_stay_as_they_came() {
    let mut first = entry("same", EntryKind::File);
    first.path = "1".to_string();
    let mut second = entry("same", EntryKind::File);
    second.path = "2".to_string();
    let sorted = sort_entries(&vec![first, second]);
    assert_eq!((sorted[0].path.as_str(), sorted[1].path.as_str()), ("1", "2"));
    let many: Vec<BrowseEntry> =
        (0..100).map(|i| entry(&format!("n{}", (i * 37) % 100), EntryKind::File)).collect();
    let names: Vec<String> = sort_entries(&many).iter().map(|e| e.name.clone()).collect();
    let mut expected = names.clone();
    expected.sort();
    assert_eq!(names, expected);
}

#[test]
fn everything_to_draw_a_folder() {
    let view = browse_dir(
        System::Linux,
        "/home/lucix".to_string(),
        Ok(vec![entry("b", EntryKind::File), entry("a", EntryKind::Folder)]),
    )
    .unwrap();
    assert_eq!(view.path, "/home/lucix");
    assert_eq!(view.parent, Some("/home".to_string()));
    assert_eq!(view.crumbs.len(), 3);
    assert_eq!(view.entries[0].name, "a");
    assert!(view.entries[0].is_dir && !view.entries[1].is_dir);
    let e = browse_dir(System::Linux, "/x".to_string(), Err(fault(FailureKind::Other, "no (os error 5)")));
    let e = e.unwrap_err();
    assert_eq!((e.code.as_str(), e.detail.as_str()), ("folder_not_readable", "no"));
}

#[test]
fn an_entry_that_cannot_be_looked_at_has_only_its_name() {
    let e = BrowseEntry::new("x".to_string(), "/x".to_string(), None);
    assert!(!e.is_dir && !e.is_symlink && !e.is_hidden);
    let e = BrowseEntry::new("x".to_string(), "/x".to_string(), Some((EntryKind::Link, true)));
    assert!(!e.is_dir && e.is_symlink && e.is_hidden);
}

#[test]
fn what_cannot_be_looked_at_is_not_taken_for_gone() {
    let mut survey = Survey::new(System::Linux, 0, "top", Ok(true));
    survey.next_dir();
    survey.entry(1, Some("top/veiled"), Err(FailureKind::PermissionDenied));
    survey.entry(2, Some("top/broken"), Err(FailureKind::Other));
    survey.unreadable();
    assert_eq!(survey.next_dir(), None);
    let s = survey.finish();
    assert_eq!(s.seen, vec!["top", "top/veiled", "top/broken"]);
    assert_eq!(s.unknown, vec!["top/veiled", "top/broken", "top"]);

    let mut survey = Survey::new(System::Linux, 0, "top", Err(FailureKind::PermissionDenied));
    assert_eq!(survey.next_dir(), None);
    let s = survey.finish();
    assert_eq!(s.seen, vec!["top"]);
    assert_eq!(s.unknown, vec!["top"]);
}

#[test]
fn a_plain_file_is_no_folder_that_could_not_be_looked_into() {
    let mut survey = Survey::new(System::Linux, 0, "f.txt", Ok(false));
    assert_eq!(survey.next_dir(), None);
    let s = survey.finish();
    assert_eq!(s.seen, vec!["f.txt"]);
    assert!(s.unknown.is_empty());
}
