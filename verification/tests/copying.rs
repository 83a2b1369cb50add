use geminus::error::{FailureKind, Fault, IoFailure};
use geminus::ops::file::{
    announce_file, ask_about_file, FileCopy, FileEnd, FileJob, FileStage, JobEnd, Reply,
};
use geminus::ops::item::{announce_way, make_way, outcome, CopyItem, ItemEnd, ItemReply, ItemStage};
use geminus::ops::temp::{
    aside_name, aside_path_for, is_orphan, temp_name, temp_path_for, Sweep, TempFile,
};
use geminus::ops::tree::{DirReply, DirStage, EntryKind, TreeCopy, TreeEnd};
use geminus::ops::{rel_child, CopyStats, DoneStatus, ErrorChoice, OpErr, Phase};
use geminus::sys::{parent_of, System};

fn fault(kind: FailureKind, raw: Option<i32>, text: &str) -> Fault<String> {
    Fault { failure: IoFailure { kind, raw }, text: text.to_string() }
}

fn other(text: &str) -> Fault<String> {
    fault(FailureKind::Other, None, text)
}

fn walk(copy: FileCopy<String>, replies: Vec<Reply<String>>) -> FileCopy<String> {
    let mut copy = copy;
    for reply in replies {
        assert!(copy.accepts(&reply), "{:?} at {:?}", reply, copy.stage);
        copy = copy.next(reply, false).0;
    }
    copy
}

fn written() -> Vec<Reply<String>> {
    vec![
        Reply::Size(3),
        Reply::Flag(false),
        Reply::Done,
        Reply::Done,
        Reply::Bytes(3),
        Reply::Done,
        Reply::Bytes(0),
        Reply::Done,
        Reply::Done,
    ]
}

#[test]
fn a_whole_file_takes_its_place() {
    let mut replies = written();
    replies.push(Reply::Done);
    let copy = walk(FileCopy::new(CopyStats::new()), replies);
    assert!(matches!(copy.stage, FileStage::Permit));
    assert!(!copy.armed);
    let (copy, report) = copy.next(Reply::Failed(other("no")), false);
    let report = report.unwrap();
    assert_eq!((report.bytes_done, report.bytes_total, report.current_index), (3, 3, 1));
    assert!(matches!(copy.stage, FileStage::Ended(FileEnd::Copied)));
    assert_eq!(copy.stats.files_copied, 1);
    match FileJob::settle(copy) {
        FileJob::Ended(end, stats) => {
            assert_eq!(end, JobEnd::Copied);
            assert_eq!(stats.files_copied, 1);
        }
        _ => panic!("the file arrived"),
    }
}

#[test]
fn giving_up_halfway_cleans_up() {
    let copy = walk(
        FileCopy::new(CopyStats::new()),
        vec![Reply::Size(9), Reply::Flag(true), Reply::Done, Reply::Done, Reply::Done, Reply::Bytes(4)],
    );
    let (copy, _) = copy.next(Reply::Failed(other("full")), false);
    assert!(matches!(copy.stage, FileStage::Cleanup(_)));
    let (copy, _) = copy.next(Reply::Done, false);
    match &copy.stage {
        FileStage::Ended(FileEnd::Failed(phase, f)) => {
            assert_eq!(*phase, Phase::Write);
            assert_eq!(f.text, "full");
        }
        _ => panic!("the copy failed"),
    }
    assert_eq!(copy.stats.files_copied, 0);
}

#[test]
fn a_cancelled_copy_is_no_failure() {
    let copy = walk(
        FileCopy::new(CopyStats::new()),
        vec![Reply::Size(9), Reply::Flag(false), Reply::Done],
    );
    let (copy, _) = copy.next(Reply::Done, true);
    let (copy, _) = copy.next(Reply::Done, true);
    assert!(matches!(copy.stage, FileStage::Ended(FileEnd::Stopped)));
    match FileJob::settle(copy) {
        FileJob::Ended(end, _) => {
            assert_eq!(end, JobEnd::Stopped);
            assert!(announce_file(end, "a", "b").is_none());
        }
        _ => panic!("the copy was cancelled"),
    }
}

#[test]
fn a_protected_destination_is_replaced_once_its_protection_is_off() {
    let mut replies = written();
    replies.push(Reply::Failed(fault(FailureKind::PermissionDenied, Some(5), "denied")));
    let copy = walk(FileCopy::new(CopyStats::new()), replies);
    assert!(matches!(copy.stage, FileStage::LookLink(_)));
    let copy = walk(copy, vec![Reply::Flag(false)]);
    assert!(matches!(copy.stage, FileStage::LookDst(_)));
    let copy = walk(copy, vec![Reply::Flag(true), Reply::Done]);
    assert!(matches!(copy.stage, FileStage::RenameAgain));
    let copy = walk(copy, vec![Reply::Done, Reply::Done]);
    assert!(matches!(copy.stage, FileStage::Ended(FileEnd::Copied)));
}

#[test]
fn a_protection_that_stays_leaves_the_first_error_standing() {
    let mut replies = written();
    replies.push(Reply::Failed(fault(FailureKind::PermissionDenied, Some(5), "first")));
    replies.push(Reply::Flag(false));
    replies.push(Reply::Flag(true));
    replies.push(Reply::Failed(other("second")));
    replies.push(Reply::Done);
    let copy = walk(FileCopy::new(CopyStats::new()), replies);
    match &copy.stage {
        FileStage::Ended(FileEnd::Failed(Phase::Write, f)) => assert_eq!(f.text, "first"),
        _ => panic!("the move was refused"),
    }
}

/// A whole file whose move onto a link was refused.
fn refused_by_link(first: Fault<String>) -> FileCopy<String> {
    let mut replies = written();
    replies.push(Reply::Failed(first));
    let copy = walk(FileCopy::new(CopyStats::new()), replies);
    assert!(matches!(copy.stage, FileStage::LookLink(_)));
    let copy = walk(copy, vec![Reply::Flag(true)]);
    assert!(matches!(copy.stage, FileStage::SetLinkAside));
    copy
}

fn denied() -> Fault<String> {
    fault(FailureKind::PermissionDenied, Some(5), "denied")
}

fn failed_to_write(copy: &FileCopy<String>) -> &str {
    assert!(!copy.armed);
    match &copy.stage {
        FileStage::Ended(FileEnd::Failed(Phase::Write, f)) => &f.text,
        _ => panic!("the copy failed"),
    }
}

#[test]
fn a_link_that_refuses_the_move_is_set_aside() {
    for first in [denied(), other("is a directory")] {
        let copy = walk(refused_by_link(first), vec![Reply::Done]);
        assert!(matches!(copy.stage, FileStage::RenameOver) && copy.armed);
        let copy = walk(copy, vec![Reply::Done]);
        assert!(matches!(copy.stage, FileStage::DropLink) && !copy.armed);
        let copy = walk(copy, vec![Reply::Done]);
        assert!(matches!(copy.stage, FileStage::Permit));
        let copy = walk(copy, vec![Reply::Done]);
        assert!(matches!(copy.stage, FileStage::Ended(FileEnd::Copied)));
        assert_eq!(copy.stats.files_copied, 1);
    }
}

#[test]
fn a_refused_move_where_no_link_is_in_the_way() {
    let mut replies = written();
    replies.push(Reply::Failed(other("gone")));
    replies.push(Reply::Flag(false));
    replies.push(Reply::Done);
    let copy = walk(FileCopy::new(CopyStats::new()), replies);
    assert_eq!(failed_to_write(&copy), "gone");
}

#[test]
fn a_link_that_cannot_be_replaced_stays() {
    let copy = walk(refused_by_link(denied()), vec![Reply::Failed(other("held")), Reply::Done]);
    assert_eq!(failed_to_write(&copy), "held");

    let copy = walk(refused_by_link(denied()), vec![Reply::Done, Reply::Failed(other("full"))]);
    assert!(matches!(copy.stage, FileStage::PutLinkBack(_)));
    let copy = walk(copy, vec![Reply::Done]);
    assert!(matches!(copy.stage, FileStage::Cleanup(_)));
    assert_eq!(failed_to_write(&walk(copy, vec![Reply::Done])), "full");
}

#[test]
fn a_link_that_does_not_go_back_is_asked_about() {
    let stuck = || {
        let replies = vec![
            Reply::Done,
            Reply::Failed(other("full")),
            Reply::Failed(other("stuck")),
        ];
        let copy = walk(refused_by_link(denied()), replies);
        match &copy.stage {
            FileStage::AskBack(f, _) => assert_eq!(f.text, "stuck"),
            _ => panic!("the link did not go back"),
        }
        assert!(!copy.accepts(&Reply::Done));
        copy
    };
    let again = walk(stuck(), vec![Reply::Choice(ErrorChoice::Retry)]);
    assert!(matches!(again.stage, FileStage::PutLinkBack(_)));
    assert_eq!(failed_to_write(&walk(again, vec![Reply::Done, Reply::Done])), "full");
    let left = walk(stuck(), vec![Reply::Choice(ErrorChoice::Skip), Reply::Done]);
    assert_eq!(failed_to_write(&left), "full");
    let over = walk(stuck(), vec![Reply::Choice(ErrorChoice::Abort), Reply::Done]);
    assert!(matches!(over.stage, FileStage::Ended(FileEnd::Stopped)));
}

#[test]
fn a_link_that_cannot_be_removed_is_asked_about() {
    let stuck = || {
        let replies = vec![Reply::Done, Reply::Done, Reply::Failed(other("stuck"))];
        let copy = walk(refused_by_link(denied()), replies);
        match &copy.stage {
            FileStage::AskDrop(f) => assert_eq!(f.text, "stuck"),
            _ => panic!("the link is still there"),
        }
        assert!(!copy.accepts(&Reply::Done));
        copy
    };
    let again = walk(stuck(), vec![Reply::Choice(ErrorChoice::Retry)]);
    assert!(matches!(again.stage, FileStage::DropLink));
    for choice in [ErrorChoice::Skip, ErrorChoice::Abort] {
        let left = walk(stuck(), vec![Reply::Choice(choice), Reply::Done]);
        assert!(matches!(left.stage, FileStage::Ended(FileEnd::Copied)));
    }
}

#[test]
fn progress_comes_with_every_megabyte() {
    let mut copy = walk(
        FileCopy::<String>::new(CopyStats::new()),
        vec![Reply::Size(3_000_000), Reply::Flag(false), Reply::Done, Reply::Done],
    );
    let mut reports = Vec::new();
    for _ in 0..40 {
        copy = copy.next(Reply::Bytes(65536), false).0;
        let (next, report) = copy.next(Reply::Done, false);
        copy = next;
        if let Some(p) = report {
            reports.push(p.bytes_done);
        }
    }
    assert_eq!(reports, vec![1_048_576, 2_097_152]);
}

#[test]
fn replies_out_of_turn_are_not_taken() {
    let copy = FileCopy::<String>::new(CopyStats::new());
    assert!(!copy.accepts(&Reply::Done));
    assert!(copy.accepts(&Reply::Size(1)));
    let full = CopyStats { files_copied: u64::MAX, ..CopyStats::new() };
    assert!(!FileCopy::<String>::new(full).accepts(&Reply::Size(1)));
}

#[test]
fn a_failed_file_asks_and_the_answer_decides() {
    let f = fault(FailureKind::Other, Some(28), "No space left (os error 28)");
    let q = ask_about_file(System::Linux, Phase::Write, &f, "a/x", "b/x");
    assert_eq!((q.src_rel.as_str(), q.dst_rel.as_str()), ("a/x", "b/x"));
    assert_eq!((q.phase.name(), q.cause.as_str(), q.reason.as_str()), ("write", "nospace", ""));
    let f = other("strange (os error 99)");
    let q = ask_about_file(System::Linux, Phase::Read, &f, "x", "x");
    assert_eq!((q.cause.as_str(), q.reason.as_str()), ("other", "strange"));
    assert!(!q.is_dir);

    let stats = CopyStats::new();
    assert!(matches!(
        FileJob::<String>::answer(ErrorChoice::Retry, stats),
        FileJob::Copying(_)
    ));
    match FileJob::<String>::answer(ErrorChoice::Skip, stats) {
        FileJob::Ended(JobEnd::Skipped, s) => assert_eq!(s.files_skipped, 1),
        _ => panic!("the file is left behind"),
    }
    assert!(matches!(
        FileJob::<String>::answer(ErrorChoice::Abort, stats),
        FileJob::Ended(JobEnd::Stopped, _)
    ));
    let done = announce_file(JobEnd::Skipped, "a", "b").unwrap();
    assert_eq!(done.status.name(), "skipped");
    assert_eq!(announce_file(JobEnd::Copied, "a", "b").unwrap().status, DoneStatus::Copied);
}

#[test]
fn errors_of_a_copy() {
    let e = OpErr::stopped();
    assert_eq!((e.phase.name(), e.cause, e.detail.as_str()), ("stopped", "stopped", ""));
    let e = OpErr::at(System::Windows, Phase::Mkdir, &fault(FailureKind::Other, Some(32), "busy"));
    assert_eq!((e.phase.name(), e.cause, e.detail.as_str()), ("mkdir", "inuse", ""));
    assert_eq!(Phase::Readdir.name(), "readdir");
    assert_eq!(rel_child("", "x"), "x");
    assert_eq!(rel_child("a/b", "x"), "a/b/x");
}

fn tree() -> TreeCopy {
    TreeCopy::new(System::Linux, "top", "top", CopyStats::new(), false)
}

fn opened() -> TreeCopy {
    let mut copy = tree();
    copy.next(DirReply::Flag(false), false);
    let out = copy.next(DirReply::Flag(false), false);
    assert!(out.announce.is_none());
    let out = copy.next(DirReply::Done, false);
    assert_eq!(out.announce.unwrap().status, DoneStatus::Created);
    copy.next(DirReply::Done, false);
    assert_eq!(copy.stage(), Some(DirStage::NextEntry));
    copy
}

fn copied(stats: CopyStats) -> CopyStats {
    CopyStats {
        files_copied: stats.files_copied + 1,
        current_index: stats.current_index + 1,
        ..stats
    }
}

#[test]
fn a_folder_with_everything_in_it() {
    let mut copy = opened();
    let out = copy.next(DirReply::Entry("f".to_string(), EntryKind::File), false);
    assert_eq!(out.file.unwrap(), ("top/f".to_string(), "top/f".to_string()));
    let stats = copied(copy.stats);
    copy.next(DirReply::File(JobEnd::Copied, stats), false);
    copy.next(DirReply::Entry("link".to_string(), EntryKind::Link), false);
    copy.next(DirReply::Entry("pipe".to_string(), EntryKind::Other), false);
    copy.next(DirReply::Entry("sub".to_string(), EntryKind::Folder), false);
    assert_eq!(copy.depth(), 2);
    copy.next(DirReply::Flag(false), false);
    let out = copy.next(DirReply::Flag(true), false);
    let created = out.announce.unwrap();
    assert_eq!(created.src_rel, "top/sub");
    assert_eq!(created.status, DoneStatus::Created);
    copy.next(DirReply::Done, false);
    // Nothing arrived in a folder that was there before: its attributes stay.
    let out = copy.next(DirReply::NoMore, false);
    assert_eq!(out.announce.unwrap().status, DoneStatus::Copied);
    assert_eq!(copy.stage(), Some(DirStage::NextEntry));
    copy.next(DirReply::NoMore, false);
    assert_eq!(copy.stage(), Some(DirStage::Attributes));
    let out = copy.next(DirReply::Done, false);
    let done = out.announce.unwrap();
    assert_eq!((done.src_rel.as_str(), done.status), ("top", DoneStatus::Copied));
    assert_eq!(copy.end, Some(TreeEnd::Done));
    assert_eq!(
        (copy.stats.files_copied, copy.stats.files_skipped, copy.stats.symlinks_skipped),
        (1, 1, 1)
    );
}

#[test]
fn a_folder_that_cannot_be_created_asks() {
    let mut copy = tree();
    copy.next(DirReply::Flag(false), false);
    copy.next(DirReply::Flag(false), false);
    let f = fault(FailureKind::PermissionDenied, Some(13), "Permission denied (os error 13)");
    let out = copy.next(DirReply::Failed(f), false);
    let q = out.ask.unwrap();
    assert_eq!((q.phase.name(), q.cause.as_str()), ("mkdir", "permission"));
    assert_eq!(q.reason, "Permission denied (os error 13)");
    assert!(q.is_dir);
    copy.next(DirReply::Choice(ErrorChoice::Retry), false);
    assert_eq!(copy.stage(), Some(DirStage::MakeFolder));
    copy.next(DirReply::Failed(other("again")), false);
    let out = copy.next(DirReply::Choice(ErrorChoice::Skip), false);
    assert_eq!(out.announce.unwrap().status, DoneStatus::Skipped);
    assert_eq!(copy.end, Some(TreeEnd::Done));
    assert_eq!(copy.stats.files_skipped, 1);
}

#[test]
fn an_entry_that_cannot_be_fetched_is_left_behind() {
    let mut copy = opened();
    copy.next(DirReply::EntryFailed(other("gone")), false);
    copy.next(DirReply::Choice(ErrorChoice::Retry), false);
    assert_eq!(copy.stats.files_skipped, 1);
    let out = copy.next(DirReply::KindFailed("x".to_string(), other("odd")), false);
    let q = out.ask.unwrap();
    assert_eq!((q.src_rel.as_str(), q.phase.name(), q.is_dir), ("top/x", "read", false));
    let out = copy.next(DirReply::Choice(ErrorChoice::Abort), false);
    assert!(out.cancel);
    assert_eq!(copy.end, Some(TreeEnd::Stopped));
}

#[test]
fn a_cancelled_folder_takes_no_further_entry() {
    let mut copy = opened();
    copy.next(DirReply::Entry("f".to_string(), EntryKind::File), true);
    assert_eq!(copy.end, Some(TreeEnd::Stopped));
    let never = TreeCopy::new(System::Linux, "a", "b", CopyStats::new(), true);
    assert_eq!(never.end, Some(TreeEnd::Stopped));
}

#[test]
fn a_link_at_the_destination_is_replaced() {
    let mut copy = tree();
    copy.next(DirReply::Flag(true), false);
    assert_eq!(copy.stage(), Some(DirStage::SetLinkAside));
    copy.next(DirReply::Failed(other("busy")), false);
    copy.next(DirReply::Choice(ErrorChoice::Retry), false);
    assert_eq!(copy.stage(), Some(DirStage::LookLink));
    copy.next(DirReply::Flag(true), false);
    copy.next(DirReply::Done, false);
    assert_eq!(copy.stage(), Some(DirStage::LookFolder));
    copy.next(DirReply::Flag(false), false);
    copy.next(DirReply::Done, false);
    assert_eq!(copy.stage(), Some(DirStage::DropLink));
    let out = copy.next(DirReply::Done, false);
    assert_eq!(out.announce.unwrap().status, DoneStatus::Created);
    assert_eq!(copy.stage(), Some(DirStage::OpenFolder));
    assert!(copy.frames[0].created && !copy.frames[0].aside);
}

#[test]
fn a_link_comes_back_where_no_folder_can_take_its_place() {
    let mut copy = tree();
    copy.next(DirReply::Flag(true), false);
    copy.next(DirReply::Done, false);
    copy.next(DirReply::Flag(false), false);
    let out = copy.next(DirReply::Failed(other("full")), false);
    assert_eq!(out.ask.unwrap().phase.name(), "mkdir");
    assert_eq!(copy.stage(), Some(DirStage::PutLinkBack));
    copy.next(DirReply::Done, false);
    assert_eq!(copy.stage(), Some(DirStage::AskLink));
    assert!(!copy.frames[0].aside);
    let out = copy.next(DirReply::Choice(ErrorChoice::Skip), false);
    assert_eq!(out.announce.unwrap().status, DoneStatus::Skipped);
    assert_eq!(copy.end, Some(TreeEnd::Done));
}

#[test]
fn a_folder_goes_on_once_the_user_answered_for_its_link() {
    let stuck = || {
        let mut copy = tree();
        copy.next(DirReply::Flag(true), false);
        copy.next(DirReply::Done, false);
        copy.next(DirReply::Flag(false), false);
        copy.next(DirReply::Done, false);
        let out = copy.next(DirReply::Failed(other("stuck")), false);
        let question = out.ask.unwrap();
        assert_eq!((question.phase.name(), question.reason.as_str()), ("mkdir", "stuck"));
        assert_eq!(copy.stage(), Some(DirStage::AskDrop));
        assert!(copy.frames[0].aside);
        copy
    };
    let mut again = stuck();
    again.next(DirReply::Choice(ErrorChoice::Retry), false);
    assert_eq!(again.stage(), Some(DirStage::DropLink));
    let mut left = stuck();
    let out = left.next(DirReply::Choice(ErrorChoice::Skip), false);
    assert_eq!(out.announce.unwrap().status, DoneStatus::Created);
    assert_eq!(left.stage(), Some(DirStage::OpenFolder));
    assert!(left.frames[0].created && !left.frames[0].aside);
    assert_eq!(left.stats.files_skipped, 0);
    let mut over = stuck();
    assert!(over.next(DirReply::Choice(ErrorChoice::Abort), false).cancel);
    assert_eq!(over.end, Some(TreeEnd::Stopped));
}

#[test]
fn a_link_that_did_not_go_back_stays_aside_only_by_choice() {
    let stuck = || {
        let mut copy = tree();
        copy.next(DirReply::Flag(true), false);
        copy.next(DirReply::Done, false);
        copy.next(DirReply::Flag(false), false);
        copy.next(DirReply::Failed(other("full")), false);
        let out = copy.next(DirReply::Failed(other("stuck")), false);
        assert_eq!(out.ask.unwrap().reason, "stuck");
        assert_eq!(copy.stage(), Some(DirStage::AskBack));
        copy
    };
    let mut again = stuck();
    again.next(DirReply::Choice(ErrorChoice::Retry), false);
    assert_eq!(again.stage(), Some(DirStage::LookFolder));
    assert!(again.frames[0].aside);
    again.next(DirReply::Flag(false), false);
    again.next(DirReply::Done, false);
    assert_eq!(again.stage(), Some(DirStage::DropLink));
    let mut left = stuck();
    let out = left.next(DirReply::Choice(ErrorChoice::Skip), false);
    assert_eq!(out.announce.unwrap().status, DoneStatus::Skipped);
    assert_eq!(left.stats.files_skipped, 1);
}

#[test]
fn the_way_to_a_position_is_made_level_by_level() {
    assert_eq!(make_way("a/b/c.txt"), vec!["a".to_string(), "a/b".to_string()]);
    assert!(make_way("c.txt").is_empty());
    assert!(make_way("").is_empty());
    let done = announce_way("a/b");
    assert_eq!((done.src_rel.as_str(), done.dst_rel.as_str()), ("a/b", "a/b"));
    assert!(done.is_dir);
    assert_eq!(done.status.name(), "created");
}

fn item(move_mode: bool, replies: Vec<ItemReply<String>>) -> CopyItem<String> {
    let mut job = CopyItem::new(move_mode, 1);
    for reply in replies {
        assert!(job.accepts(&reply), "{:?} at {:?}", reply, job.stage);
        job = job.next(reply).0;
    }
    job
}

fn result_of(job: CopyItem<String>) -> Result<geminus::ops::item::OpResult, geminus::CmdError> {
    match job.stage {
        ItemStage::Ended(end) => outcome(end, "/dst/x".to_string()),
        _ => panic!("the operation is not over"),
    }
}

fn to_file() -> Vec<ItemReply<String>> {
    vec![ItemReply::Kind(EntryKind::File), ItemReply::Flag(true), ItemReply::Done]
}

#[test]
fn a_file_is_copied_or_moved() {
    let stats = copied(CopyStats::new());
    let mut replies = to_file();
    replies.push(ItemReply::File(JobEnd::Copied, stats));
    let r = result_of(item(false, replies)).unwrap();
    assert_eq!((r.status.as_str(), r.final_dst.as_str(), r.files_copied), ("copied", "/dst/x", 1));

    let mut replies = to_file();
    replies.push(ItemReply::File(JobEnd::Copied, stats));
    let job = item(true, replies);
    assert!(matches!(job.stage, ItemStage::RemoveFile(_)));
    let r = result_of(job.next(ItemReply::Done).0).unwrap();
    assert_eq!(r.status, "moved");

    let mut replies = to_file();
    replies.push(ItemReply::File(JobEnd::Copied, stats));
    replies.push(ItemReply::Failed(other("busy (os error 16)")));
    let e = result_of(item(true, replies)).unwrap_err();
    assert_eq!((e.code.as_str(), e.detail.as_str()), ("move_source_not_removed", "busy"));

    let mut replies = to_file();
    replies.push(ItemReply::File(JobEnd::Skipped, CopyStats { files_skipped: 1, ..stats }));
    let r = result_of(item(true, replies)).unwrap();
    assert_eq!((r.status.as_str(), r.files_copied, r.files_skipped), ("skipped", 0, 1));

    let mut replies = to_file();
    replies.push(ItemReply::File(JobEnd::Stopped, stats));
    assert_eq!(result_of(item(true, replies)).unwrap().status, "stopped");
}

#[test]
fn folders_on_the_way_are_created_and_announced() {
    let job = item(false, vec![ItemReply::Kind(EntryKind::File), ItemReply::Flag(false)]);
    assert!(matches!(job.stage, ItemStage::MakeWay(0)));
    let (job, made) = job.next(ItemReply::Done);
    assert_eq!(made, Some(0));
    assert!(matches!(job.stage, ItemStage::SweepBeside));
    let e = result_of(item(
        false,
        vec![
            ItemReply::Kind(EntryKind::File),
            ItemReply::Flag(false),
            ItemReply::Failed(other("denied")),
        ],
    ))
    .unwrap_err();
    assert_eq!((e.code.as_str(), e.detail.as_str()), ("folder_not_created", "denied"));
}

#[test]
fn what_cannot_be_copied_is_refused() {
    let e = result_of(item(false, vec![ItemReply::Kind(EntryKind::Link)])).unwrap_err();
    assert_eq!(e.code, "symlink_not_copyable");
    let e = result_of(item(false, vec![ItemReply::Kind(EntryKind::Other), ItemReply::Done])).unwrap_err();
    assert_eq!(e.code, "source_kind_not_supported");
    let e = result_of(item(false, vec![ItemReply::Failed(other("gone (os error 2)"))])).unwrap_err();
    assert_eq!((e.code.as_str(), e.detail.as_str()), ("source_unreadable", "gone"));
}

fn folder(move_mode: bool, end: TreeEnd, stats: CopyStats) -> CopyItem<String> {
    item(
        move_mode,
        vec![ItemReply::Kind(EntryKind::Folder), ItemReply::Done, ItemReply::Folder(end, stats)],
    )
}

#[test]
fn a_moved_folder_goes_only_if_nothing_stayed_behind() {
    let clean = CopyStats::new();
    let job = folder(true, TreeEnd::Done, clean);
    assert!(matches!(job.stage, ItemStage::RemoveFolder(_)));
    assert_eq!(result_of(job.next(ItemReply::Done).0).unwrap().status, "moved");
    let linked = CopyStats { symlinks_skipped: 1, ..clean };
    assert_eq!(result_of(folder(true, TreeEnd::Done, linked)).unwrap().status, "partial");
    let skipped = CopyStats { files_skipped: 1, ..clean };
    assert_eq!(result_of(folder(true, TreeEnd::Done, skipped)).unwrap().status, "partial");
    assert_eq!(result_of(folder(false, TreeEnd::Done, skipped)).unwrap().status, "partial");
    assert_eq!(result_of(folder(false, TreeEnd::Done, linked)).unwrap().status, "copied");
    assert_eq!(result_of(folder(true, TreeEnd::Stopped, clean)).unwrap().status, "stopped");
    assert!(matches!(
        folder(false, TreeEnd::Done, clean).stage,
        ItemStage::Ended(ItemEnd::Finished(_, _))
    ));
}

#[test]
fn names_of_working_files() {
    assert_eq!(temp_name(12, 7), ".geminus-part-12-7");
    assert!(temp_name(1, 1).starts_with(geminus::diff::COPY_TEMP_PREFIX));
    assert_ne!(temp_name(12, 7), temp_name(12, 8));
    assert!(!is_orphan(".geminus-part-12-7", 12));
    assert!(is_orphan(".geminus-part-12-7", 1));
    assert!(is_orphan(".geminus-part-1-7", 12));
    assert!(is_orphan(".geminus-part-999999-1", 12));
    assert!(!is_orphan("documento.txt", 12));
}

#[test]
fn the_working_file_sits_beside_its_destination() {
    let dst = "/tmp/geminus-test/sub/file.txt";
    let tmp = temp_path_for(System::Linux, dst, 12, 7);
    assert_eq!(parent_of(System::Linux, &tmp), parent_of(System::Linux, dst));
    assert_eq!(tmp, "/tmp/geminus-test/sub/.geminus-part-12-7");
    for (dst, beside) in [("file", ".geminus-part-1-2"), ("/file", "/.geminus-part-1-2")] {
        assert_eq!(temp_path_for(System::Linux, dst, 1, 2), beside);
    }
    for (dst, beside) in [
        ("C:\\x\\f", "C:\\x\\.geminus-part-1-2"),
        ("C:f", "C:.geminus-part-1-2"),
        ("\\\\server\\share\\f", "\\\\server\\share\\.geminus-part-1-2"),
        ("\\\\?\\C:\\x\\f", "\\\\?\\C:\\x\\.geminus-part-1-2"),
        ("\\\\\\x\\f", "\\\\\\x\\.geminus-part-1-2"),
    ] {
        let tmp = temp_path_for(System::Windows, dst, 1, 2);
        assert_eq!(tmp, beside);
        assert_eq!(parent_of(System::Windows, &tmp), parent_of(System::Windows, dst));
    }
    let dst = "\\\\?\\C:\\x\\\\y\\f";
    let tmp = temp_path_for(System::Windows, dst, 1, 2);
    assert_eq!(tmp, "\\\\?\\C:\\x\\y\\.geminus-part-1-2");
    assert_eq!(parent_of(System::Windows, &tmp), Some("\\\\?\\C:\\x\\y".to_string()));
    assert_eq!(parent_of(System::Windows, dst), Some("\\\\?\\C:\\x\\\\y".to_string()));
}

#[test]
fn a_name_that_becomes_a_share_is_no_name_in_the_folder() {
    let tmp = temp_path_for(System::Windows, "\\\\x\\\\y", 1, 2);
    assert_eq!(tmp, "\\\\x\\.geminus-part-1-2");
    assert_eq!(parent_of(System::Windows, &tmp), None);
    assert_ne!(tmp, temp_path_for(System::Windows, "\\\\x\\\\y", 1, 3));
}

#[test]
fn names_of_links_that_were_set_aside() {
    assert_eq!(aside_name(12, 7), ".geminus-link-12-7");
    assert!(!aside_name(12, 7).starts_with(geminus::diff::COPY_TEMP_PREFIX));
    assert!(!is_orphan(&aside_name(12, 7), 1));
    let dst = "/a/b";
    assert_eq!(aside_path_for(System::Linux, dst, 12, 7), "/a/.geminus-link-12-7");
    assert_eq!(aside_path_for(System::Windows, "C:\\a\\b", 1, 2), "C:\\a\\.geminus-link-1-2");
    assert_ne!(
        aside_path_for(System::Linux, dst, 12, 7),
        aside_path_for(System::Linux, dst, 12, 8)
    );
    assert_ne!(aside_path_for(System::Linux, dst, 12, 7), temp_path_for(System::Linux, dst, 12, 7));
}

#[test]
fn two_working_files_never_share_a_name() {
    let dst = "/tmp/geminus-test/file.txt";
    assert_ne!(temp_path_for(System::Linux, dst, 12, 7), temp_path_for(System::Linux, dst, 12, 8));
}

#[test]
fn a_working_file_is_cleaned_up_unless_it_was_placed() {
    let mut file = TempFile::new("/tmp/x".to_string());
    assert_eq!(file.leftover(), Some(&"/tmp/x".to_string()));
    file.placed();
    assert_eq!(file.leftover(), None);
}

#[test]
fn a_sweep_goes_below_and_takes_only_leftovers() {
    let mut sweep = Sweep::new("/d", 12);
    assert_eq!(sweep.next_dir(), Some("/d"));
    assert_eq!(sweep.entry("/d/sub", Some("sub"), Some(true)), None);
    assert_eq!(
        sweep.entry("/d/.geminus-part-9-1", Some(".geminus-part-9-1"), Some(false)),
        Some("/d/.geminus-part-9-1")
    );
    assert_eq!(sweep.entry("/d/.geminus-part-12-1", Some(".geminus-part-12-1"), Some(false)), None);
    assert_eq!(sweep.entry("/d/doc", Some("doc"), Some(false)), None);
    assert_eq!(sweep.entry("/d/odd", None, Some(true)), None);
    assert_eq!(sweep.entry("/d/gone", Some(".geminus-part-9-2"), None), None);
    assert_eq!(sweep.next_dir(), Some("/d/sub"));
    assert_eq!(sweep.next_dir(), None);
}
