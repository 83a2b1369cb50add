//! One item, dragged from one side to the other: copied or moved, a file or a
//! whole folder.
use vstd::prelude::*;

use super::file::JobEnd;
use super::tree::{
    entries_of, entries_unread, files_ended, folders_announced, items_left, links_left, tree_log,
    tree_run, tree_start, EntryKind, TreeEnd, TreeLog,
};
use super::{child_of, rel_child, CopyStats, DoneStatus, OpFileDone};
use crate::error::{lemma_words_wanted, without_number, CmdError, Fault};
use crate::sys::System;
use crate::text::search::{
    find, join, law_pieces_make_up_the_text, lemma_find_from, lemma_split_len, split, split_on,
};
use crate::text::{chars_of, string_of, texts};

verus! {

/// How an operation is reported once it is over.
#[derive(Debug, Clone, Copy, PartialEq, Eq, Structural)]
pub enum OpStatus {
    /// Everything arrived and the source is gone.
    Moved,
    /// Everything arrived.
    Copied,
    /// Something stayed behind.
    Partial,
    /// The one file was left behind.
    Skipped,
    /// The operation was cancelled.
    Stopped,
}

/// The name under which a status travels.
pub open spec fn op_name(status: OpStatus) -> Seq<char> {
    match status {
        OpStatus::Moved => "moved"@,
        OpStatus::Copied => "copied"@,
        OpStatus::Partial => "partial"@,
        OpStatus::Skipped => "skipped"@,
        OpStatus::Stopped => "stopped"@,
    }
}

impl OpStatus {
    /// The name of the status.
    pub fn name(self) -> (r: &'static str)
        ensures
            r@ == op_name(self),
    {
        match self {
            OpStatus::Moved => "moved",
            OpStatus::Copied => "copied",
            OpStatus::Partial => "partial",
            OpStatus::Skipped => "skipped",
            OpStatus::Stopped => "stopped",
        }
    }
}

/// What an operation hands back.
#[derive(Debug, Clone)]
pub struct OpResult {
    /// "moved", "copied", "partial", "skipped" or "stopped".
    pub status: String,
    /// Where the item went.
    pub final_dst: String,
    /// Files that arrived whole.
    pub files_copied: u64,
    /// Files and folders left behind.
    pub files_skipped: u64,
    /// Links left behind.
    pub symlinks_skipped: u64,
}

/// How an operation ended.
#[derive(Debug)]
pub enum ItemEnd<S> {
    /// It was gone through, with this status and these counters.
    Finished(OpStatus, CopyStats),
    /// The source could not be looked at.
    Unreadable(Fault<S>),
    /// The source is a link, and links are not copied.
    Link,
    /// The source is neither a file nor a folder.
    OtherKind,
    /// A folder on the way to the destination could not be created.
    NoWay(Fault<S>),
    /// The copy is there, but the source could not be removed.
    SourceStays(Fault<S>),
}

/// What is to be done next.
#[derive(Debug)]
pub enum ItemStage<S> {
    /// Look at the source, not through a link.
    Look,
    /// Ask whether this folder on the way is there, counted from the top.
    LookWay(usize),
    /// Create this folder on the way.
    MakeWay(usize),
    /// Sweep what a copy that never finished left behind, everywhere below the
    /// destination.
    SweepBelow,
    /// Sweep what a copy that never finished left behind in the folder around
    /// the destination.
    SweepBeside,
    /// Copy the file.
    CopyFile,
    /// Copy the folder.
    CopyFolder,
    /// Remove the source file.
    RemoveFile(CopyStats),
    /// Remove the source folder and everything in it.
    RemoveFolder(CopyStats),
    /// Nothing: the operation is over.
    Ended(ItemEnd<S>),
}

/// What the operation hears.
#[derive(Debug)]
pub enum ItemReply<S> {
    /// The call went through.
    Done,
    /// The call failed.
    Failed(Fault<S>),
    /// The source is of this kind.
    Kind(EntryKind),
    /// The answer to a question.
    Flag(bool),
    /// The file was done with.
    File(JobEnd, CopyStats),
    /// The folder was done with.
    Folder(TreeEnd, CopyStats),
}

/// One item on its way.
#[derive(Debug)]
pub struct CopyItem<S> {
    /// What is to be done next.
    pub stage: ItemStage<S>,
    /// The source is a file; otherwise it may be a folder or something else.
    pub kind: EntryKind,
    /// The source is to go once everything has arrived.
    pub move_mode: bool,
    /// How many folders lie on the way to the destination.
    pub ways: usize,
}

/// The folder on the way that has `k + 1` names, from the names of the
/// position.
pub open spec fn way_at(parts: Seq<Seq<char>>, k: int) -> Seq<char>
    decreases k + 1,
{
    if k < 0 {
        Seq::empty()
    } else {
        child_of(way_at(parts, k - 1), parts[k])
    }
}

/// The folders on the way to a position, from the top: every name but the last
/// closes one.
pub open spec fn way_to(rel: Seq<char>) -> Seq<Seq<char>> {
    let parts = split(rel, "/"@);
    Seq::new((parts.len() - 1) as nat, |k: int| way_at(parts, k))
}

/// The folders on the way to a position, from the top.
pub fn make_way(rel: &str) -> (r: Vec<String>)
    ensures
        texts(r@) == way_to(rel@),
{
    let chars = chars_of(rel);
    let slash = chars_of("/");
    proof {
        reveal_strlit("/");
        lemma_split_len(rel@, "/"@);
    }
    let parts = split_on(&chars, &slash);
    let ghost names = split(rel@, "/"@);
    let mut out: Vec<String> = Vec::new();
    let mut so_far = String::new();
    let n: usize = parts.len() - 1;
    assert(so_far@ =~= way_at(names, -1));
    for i in 0..n
        invariant
            n == parts@.len() - 1,
            crate::text::views(parts@) == names,
            so_far@ == way_at(names, i - 1),
            out@.len() == i,
            forall|k: int| 0 <= k < i ==> #[trigger] out@[k]@ == way_at(names, k),
    {
        let part = string_of(parts[i]);
        assert(part@ == names[i as int]);
        so_far = rel_child(&so_far, &part);
        out.push(so_far.clone());
    }
    assert(texts(out@) =~= way_to(rel@));
    out
}

/// The announcement of a folder that was created on the way.
pub fn announce_way(so_far: &str) -> (r: OpFileDone<String>)
    ensures
        r.model() == (OpFileDone {
            src_rel: so_far@,
            dst_rel: so_far@,
            is_dir: true,
            status: DoneStatus::Created,
        }),
{
    OpFileDone {
        src_rel: so_far.to_owned(),
        dst_rel: so_far.to_owned(),
        is_dir: true,
        status: DoneStatus::Created,
    }
}

/// The same operation at another stage.
pub open spec fn item_at<S>(m: CopyItem<S>, stage: ItemStage<S>) -> CopyItem<S> {
    CopyItem { stage, ..m }
}

/// The operation is over.
pub open spec fn item_ended<S>(m: CopyItem<S>, end: ItemEnd<S>) -> CopyItem<S> {
    item_at(m, ItemStage::Ended(end))
}

/// The folders on the way from number `i` on: the next one, or the sweep when
/// there are none left.
pub open spec fn on_the_way<S>(m: CopyItem<S>, i: int) -> CopyItem<S> {
    if i < m.ways {
        item_at(m, ItemStage::LookWay(i as usize))
    } else {
        item_at(m, ItemStage::SweepBeside)
    }
}

/// The source was looked at.
pub open spec fn looked<S>(m: CopyItem<S>, kind: EntryKind) -> CopyItem<S> {
    let known = CopyItem { kind, ..m };
    match kind {
        EntryKind::Link => item_ended(known, ItemEnd::Link),
        EntryKind::File => on_the_way(known, 0),
        EntryKind::Folder => item_at(known, ItemStage::SweepBelow),
        EntryKind::Other => item_at(known, ItemStage::SweepBeside),
    }
}

/// The file was done with.
pub open spec fn file_done<S>(m: CopyItem<S>, end: JobEnd, stats: CopyStats) -> CopyItem<S> {
    match end {
        JobEnd::Copied => if m.move_mode {
            item_at(m, ItemStage::RemoveFile(stats))
        } else {
            item_ended(m, ItemEnd::Finished(OpStatus::Copied, stats))
        },
        JobEnd::Skipped => item_ended(
            m,
            ItemEnd::Finished(
                OpStatus::Skipped,
                CopyStats { files_copied: 0, symlinks_skipped: 0, ..stats },
            ),
        ),
        JobEnd::Stopped => item_ended(m, ItemEnd::Finished(OpStatus::Stopped, stats)),
    }
}

/// The folder was done with. The source folder goes only if nothing stayed
/// behind. A link left behind counts as much as a file: it is never copied, so
/// removing the source would delete the only copy of it.
pub open spec fn folder_done<S>(m: CopyItem<S>, end: TreeEnd, stats: CopyStats) -> CopyItem<S> {
    match end {
        TreeEnd::Done => if m.move_mode && !stats.left_behind() {
            item_at(m, ItemStage::RemoveFolder(stats))
        } else if m.move_mode || stats.files_skipped > 0 {
            item_ended(m, ItemEnd::Finished(OpStatus::Partial, stats))
        } else {
            item_ended(m, ItemEnd::Finished(OpStatus::Copied, stats))
        },
        TreeEnd::Stopped => item_ended(m, ItemEnd::Finished(OpStatus::Stopped, stats)),
    }
}

/// The operation after a reply, and the folder on the way that was just created.
pub open spec fn item_next<S>(m: CopyItem<S>, reply: ItemReply<S>) -> (CopyItem<S>, Option<usize>) {
    match m.stage {
        ItemStage::Look => match reply {
            ItemReply::Kind(kind) => (looked(m, kind), None),
            ItemReply::Failed(f) => (item_ended(m, ItemEnd::Unreadable(f)), None),
            _ => (m, None),
        },
        ItemStage::LookWay(i) => if reply == ItemReply::<S>::Flag(true) {
            (on_the_way(m, i + 1), None)
        } else {
            (item_at(m, ItemStage::MakeWay(i)), None)
        },
        ItemStage::MakeWay(i) => match reply {
            ItemReply::Failed(f) => (item_ended(m, ItemEnd::NoWay(f)), None),
            _ => (on_the_way(m, i + 1), Some(i)),
        },
        ItemStage::SweepBelow => (item_at(m, ItemStage::CopyFolder), None),
        ItemStage::SweepBeside => if m.kind == EntryKind::File {
            (item_at(m, ItemStage::CopyFile), None)
        } else {
            (item_ended(m, ItemEnd::OtherKind), None)
        },
        ItemStage::CopyFile => match reply {
            ItemReply::File(end, stats) => (file_done(m, end, stats), None),
            _ => (m, None),
        },
        ItemStage::CopyFolder => match reply {
            ItemReply::Folder(end, stats) => (folder_done(m, end, stats), None),
            _ => (m, None),
        },
        ItemStage::RemoveFile(stats) | ItemStage::RemoveFolder(stats) => match reply {
            ItemReply::Failed(f) => (item_ended(m, ItemEnd::SourceStays(f)), None),
            _ => (item_ended(m, ItemEnd::Finished(OpStatus::Moved, stats)), None),
        },
        ItemStage::Ended(_) => (m, None),
    }
}

/// The first stage of an operation.
pub open spec fn item_start<S>(move_mode: bool, ways: usize) -> CopyItem<S> {
    CopyItem { stage: ItemStage::Look, kind: EntryKind::Other, move_mode, ways }
}

impl<S> CopyItem<S> {
    /// A folder on the way that is being asked for is one of them.
    pub open spec fn wf(self) -> bool {
        match self.stage {
            ItemStage::LookWay(i) | ItemStage::MakeWay(i) => i < self.ways,
            _ => true,
        }
    }

    /// The reply answers what was asked.
    pub open spec fn takes(self, reply: ItemReply<S>) -> bool {
        &&& self.wf()
        &&& match self.stage {
            ItemStage::Look => reply is Kind || reply is Failed,
            ItemStage::LookWay(_) => reply is Flag,
            ItemStage::SweepBelow | ItemStage::SweepBeside => reply is Done,
            ItemStage::CopyFile => reply is File,
            ItemStage::CopyFolder => reply is Folder,
            ItemStage::Ended(_) => false,
            _ => reply is Done || reply is Failed,
        }
    }

    /// An operation that is to begin: `ways` folders lie on the way to its
    /// destination.
    pub fn new(move_mode: bool, ways: usize) -> (r: Self)
        ensures
            r == item_start::<S>(move_mode, ways),
            r.wf(),
    {
        CopyItem { stage: ItemStage::Look, kind: EntryKind::Other, move_mode, ways }
    }

    /// Whether a reply answers what was asked.
    pub fn accepts(&self, reply: &ItemReply<S>) -> (r: bool)
        requires
            self.wf(),
        ensures
            r == self.takes(*reply),
    {
        match &self.stage {
            ItemStage::Look => matches!(reply, ItemReply::Kind(_)) || matches!(
                reply,
                ItemReply::Failed(_)
            ),
            ItemStage::LookWay(_) => matches!(reply, ItemReply::Flag(_)),
            ItemStage::SweepBelow | ItemStage::SweepBeside => matches!(reply, ItemReply::Done),
            ItemStage::CopyFile => matches!(reply, ItemReply::File(_, _)),
            ItemStage::CopyFolder => matches!(reply, ItemReply::Folder(_, _)),
            ItemStage::Ended(_) => false,
            _ => matches!(reply, ItemReply::Done) || matches!(reply, ItemReply::Failed(_)),
        }
    }

    /// The same operation at another stage.
    fn to_stage(self, stage: ItemStage<S>) -> (r: Self)
        ensures
            r == item_at(self, stage),
    {
        let mut m = self;
        m.stage = stage;
        m
    }

    /// The operation is over.
    fn end(self, end: ItemEnd<S>) -> (r: Self)
        ensures
            r == item_ended(self, end),
    {
        self.to_stage(ItemStage::Ended(end))
    }

    /// The next folder on the way, or the sweep.
    fn go_way(self, i: usize) -> (r: Self)
        ensures
            r == on_the_way(self, i as int),
    {
        if i < self.ways {
            self.to_stage(ItemStage::LookWay(i))
        } else {
            self.to_stage(ItemStage::SweepBeside)
        }
    }

    /// The source was looked at.
    fn see(self, kind: EntryKind) -> (r: Self)
        ensures
            r == looked(self, kind),
    {
        let mut known = self;
        known.kind = kind;
        match kind {
            EntryKind::Link => known.end(ItemEnd::Link),
            EntryKind::File => known.go_way(0),
            EntryKind::Folder => known.to_stage(ItemStage::SweepBelow),
            EntryKind::Other => known.to_stage(ItemStage::SweepBeside),
        }
    }

    /// The file was done with.
    fn end_file(self, end: JobEnd, stats: CopyStats) -> (r: Self)
        ensures
            r == file_done(self, end, stats),
    {
        match end {
            JobEnd::Copied => if self.move_mode {
                self.to_stage(ItemStage::RemoveFile(stats))
            } else {
                self.end(ItemEnd::Finished(OpStatus::Copied, stats))
            },
            JobEnd::Skipped => {
                let mut s = stats;
                s.files_copied = 0;
                s.symlinks_skipped = 0;
                self.end(ItemEnd::Finished(OpStatus::Skipped, s))
            },
            JobEnd::Stopped => self.end(ItemEnd::Finished(OpStatus::Stopped, stats)),
        }
    }

    /// The folder was done with.
    fn end_folder(self, end: TreeEnd, stats: CopyStats) -> (r: Self)
        ensures
            r == folder_done(self, end, stats),
    {
        let left_behind = stats.files_skipped > 0 || stats.symlinks_skipped > 0;
        match end {
            TreeEnd::Done => if self.move_mode && !left_behind {
                self.to_stage(ItemStage::RemoveFolder(stats))
            } else if self.move_mode || stats.files_skipped > 0 {
                self.end(ItemEnd::Finished(OpStatus::Partial, stats))
            } else {
                self.end(ItemEnd::Finished(OpStatus::Copied, stats))
            },
            TreeEnd::Stopped => self.end(ItemEnd::Finished(OpStatus::Stopped, stats)),
        }
    }

    /// The operation after a reply, and the number of the folder on the way that
    /// was just created: it is announced.
    pub fn next(self, reply: ItemReply<S>) -> (r: (Self, Option<usize>))
        requires
            self.takes(reply),
        ensures
            r == item_next(self, reply),
            r.0.wf(),
    {
        let CopyItem { stage, kind, move_mode, ways } = self;
        let m = CopyItem { stage: ItemStage::Look, kind, move_mode, ways };
        match stage {
            ItemStage::Look => match reply {
                ItemReply::Kind(kind) => (m.see(kind), None),
                ItemReply::Failed(f) => (m.end(ItemEnd::Unreadable(f)), None),
                _ => (m, None),
            },
            ItemStage::LookWay(i) => if matches!(reply, ItemReply::Flag(true)) {
                (m.go_way(i + 1), None)
            } else {
                (m.to_stage(ItemStage::MakeWay(i)), None)
            },
            ItemStage::MakeWay(i) => match reply {
                ItemReply::Failed(f) => (m.end(ItemEnd::NoWay(f)), None),
                _ => (m.go_way(i + 1), Some(i)),
            },
            ItemStage::SweepBelow => (m.to_stage(ItemStage::CopyFolder), None),
            ItemStage::SweepBeside => if matches!(kind, EntryKind::File) {
                (m.to_stage(ItemStage::CopyFile), None)
            } else {
                (m.end(ItemEnd::OtherKind), None)
            },
            ItemStage::CopyFile => match reply {
                ItemReply::File(end, stats) => (m.end_file(end, stats), None),
                _ => (m, None),
            },
            ItemStage::CopyFolder => match reply {
                ItemReply::Folder(end, stats) => (m.end_folder(end, stats), None),
                _ => (m, None),
            },
            ItemStage::RemoveFile(stats) | ItemStage::RemoveFolder(stats) => match reply {
                ItemReply::Failed(f) => (m.end(ItemEnd::SourceStays(f)), None),
                _ => (m.end(ItemEnd::Finished(OpStatus::Moved, stats)), None),
            },
            ItemStage::Ended(end) => (m.end(end), None),
        }
    }
}

/// The key of a refused operation, and its words.
pub open spec fn refusal(end: ItemEnd<Seq<char>>) -> Option<(Seq<char>, Seq<char>)> {
    match end {
        ItemEnd::Finished(_, _) => None,
        ItemEnd::Unreadable(f) => Some(("source_unreadable"@, without_number(f.text))),
        ItemEnd::Link => Some(("symlink_not_copyable"@, Seq::empty())),
        ItemEnd::OtherKind => Some(("source_kind_not_supported"@, Seq::empty())),
        ItemEnd::NoWay(f) => Some(("folder_not_created"@, without_number(f.text))),
        ItemEnd::SourceStays(f) => Some(("move_source_not_removed"@, without_number(f.text))),
    }
}

impl ItemEnd<String> {
    /// The end with its words as sequences of characters.
    pub open spec fn model(self) -> ItemEnd<Seq<char>> {
        match self {
            ItemEnd::Finished(status, stats) => ItemEnd::Finished(status, stats),
            ItemEnd::Unreadable(f) => ItemEnd::Unreadable(f.model()),
            ItemEnd::Link => ItemEnd::Link,
            ItemEnd::OtherKind => ItemEnd::OtherKind,
            ItemEnd::NoWay(f) => ItemEnd::NoWay(f.model()),
            ItemEnd::SourceStays(f) => ItemEnd::SourceStays(f.model()),
        }
    }
}

/// What an operation hands back: its result once it was gone through, or the key
/// and the words of what was in its way.
pub fn outcome(end: ItemEnd<String>, final_dst: String) -> (r: Result<OpResult, CmdError>)
    ensures
        match r {
            Ok(v) => end matches ItemEnd::Finished(status, stats) && v.status@ == op_name(status)
                && v.final_dst@ == final_dst@ && v.files_copied == stats.files_copied
                && v.files_skipped == stats.files_skipped && v.symlinks_skipped
                == stats.symlinks_skipped,
            Err(e) => refusal(end.model()) matches Some(why) && e.says(why.0, why.1),
        },
{
    proof {
        reveal_strlit("source_unreadable");
        reveal_strlit("folder_not_created");
        reveal_strlit("move_source_not_removed");
        lemma_words_wanted("source_unreadable"@);
        lemma_words_wanted("folder_not_created"@);
        lemma_words_wanted("move_source_not_removed"@);
    }
    match end {
        ItemEnd::Finished(status, stats) => Ok(
            OpResult {
                status: status.name().to_owned(),
                final_dst,
                files_copied: stats.files_copied,
                files_skipped: stats.files_skipped,
                symlinks_skipped: stats.symlinks_skipped,
            },
        ),
        ItemEnd::Unreadable(f) => Err(CmdError::from_words("source_unreadable", &f.text)),
        ItemEnd::Link => Err(CmdError::plain("symlink_not_copyable")),
        ItemEnd::OtherKind => Err(CmdError::plain("source_kind_not_supported")),
        ItemEnd::NoWay(f) => Err(CmdError::from_words("folder_not_created", &f.text)),
        ItemEnd::SourceStays(f) => Err(CmdError::from_words("move_source_not_removed", &f.text)),
    }
}

/// The operation after everything in a log.
pub open spec fn item_run<S>(m: CopyItem<S>, log: Seq<ItemReply<S>>) -> CopyItem<S>
    decreases log.len(),
{
    if log.len() == 0 {
        m
    } else {
        item_next(item_run(m, log.drop_last()), log.last()).0
    }
}

/// Everything in the log answers what was asked at its time.
pub open spec fn item_log<S>(m: CopyItem<S>, log: Seq<ItemReply<S>>) -> bool
    decreases log.len(),
{
    log.len() == 0 || (item_log(m, log.drop_last()) && item_run(m, log.drop_last()).takes(
        log.last(),
    ))
}

/// The source may go: it is a file that arrived whole, or a folder that was gone
/// through with nothing left behind.
pub open spec fn may_go<S>(heard: ItemReply<S>) -> bool {
    match heard {
        ItemReply::File(end, _) => end == JobEnd::Copied,
        ItemReply::Folder(end, stats) => end == TreeEnd::Done && !stats.left_behind(),
        _ => false,
    }
}

/// The source is removed only by a move, and only after everything in it has
/// arrived; and it is reported as moved only once the source is gone.
pub proof fn law_the_source_goes_only_when_nothing_stayed_behind<S>(
    move_mode: bool,
    ways: usize,
    log: Seq<ItemReply<S>>,
)
    requires
        item_log(item_start::<S>(move_mode, ways), log),
    ensures
        ({
            let m = item_run(item_start::<S>(move_mode, ways), log);
            &&& m.stage is RemoveFile || m.stage is RemoveFolder ==> move_mode && log.len() > 0
                && may_go(log.last())
            &&& m.stage matches ItemStage::Ended(ItemEnd::Finished(OpStatus::Moved, _)) ==> move_mode
                && log.len() > 1 && log.last() is Done && may_go(log[log.len() - 2])
        }),
    decreases log.len(),
{
    if log.len() > 0 {
        law_the_source_goes_only_when_nothing_stayed_behind(move_mode, ways, log.drop_last());
        lemma_item_keeps_mode(item_start::<S>(move_mode, ways), log);
        lemma_item_keeps_mode(item_start::<S>(move_mode, ways), log.drop_last());
        if log.len() > 1 {
            assert(log.drop_last().last() == log[log.len() - 2]);
        }
    }
}

proof fn lemma_item_keeps_mode<S>(m: CopyItem<S>, log: Seq<ItemReply<S>>)
    ensures
        item_run(m, log).move_mode == m.move_mode,
        item_run(m, log).ways == m.ways,
    decreases log.len(),
{
    if log.len() > 0 {
        lemma_item_keeps_mode(m, log.drop_last());
    }
}

/// A folder that may go after a move was copied without a single file, folder or
/// link left behind.
pub proof fn law_a_folder_that_may_go_arrived_whole(
    system: System,
    src_rel: Seq<char>,
    dst_rel: Seq<char>,
    stop: bool,
    log: TreeLog,
)
    requires
        ({
            let start = tree_start(system, src_rel, dst_rel, no_stats(), stop);
            &&& tree_log(start, log)
            &&& tree_run(start, log).end matches Some(end) && may_go(
                ItemReply::<Seq<char>>::Folder(end, tree_run(start, log).stats),
            )
        }),
    ensures
        items_left(tree_start(system, src_rel, dst_rel, no_stats(), stop), log) == 0,
        links_left(tree_start(system, src_rel, dst_rel, no_stats(), stop), log) == 0,
{
    super::tree::law_the_counters_tell_the_truth(
        tree_start(system, src_rel, dst_rel, no_stats(), stop),
        log,
    );
}

/// The counters of an operation that has just begun.
pub open spec fn no_stats() -> CopyStats {
    CopyStats { files_copied: 0, files_skipped: 0, symlinks_skipped: 0, current_index: 0 }
}

/// A moved folder loses nothing: where its copy ends so that the source may go, every
/// folder that was heard of was gone through, every file arrived, and there was no link,
/// nothing of another kind and nothing that could not be read.
pub proof fn law_a_moved_folder_loses_nothing(
    system: System,
    src_rel: Seq<char>,
    dst_rel: Seq<char>,
    log: TreeLog,
)
    requires
        ({
            let start = tree_start(system, src_rel, dst_rel, no_stats(), false);
            let end = tree_run(start, log);
            &&& tree_log(start, log)
            &&& end.end == Some(TreeEnd::Done)
            &&& item_next(
                CopyItem::<Seq<char>> {
                    stage: ItemStage::CopyFolder,
                    kind: EntryKind::Folder,
                    move_mode: true,
                    ways: 0,
                },
                ItemReply::Folder(TreeEnd::Done, end.stats),
            ).0.stage is RemoveFolder
        }),
    ensures
        ({
            let start = tree_start(system, src_rel, dst_rel, no_stats(), false);
            &&& entries_of(log, EntryKind::Folder) + 1 == folders_announced(
                start,
                log,
                DoneStatus::Copied,
            )
            &&& entries_of(log, EntryKind::File) == files_ended(log, JobEnd::Copied)
            &&& entries_of(log, EntryKind::Link) == 0
            &&& entries_of(log, EntryKind::Other) == 0
            &&& entries_unread(log) == 0
        }),
{
    super::tree::law_nothing_is_passed_over(system, src_rel, dst_rel, no_stats(), log);
}

/// What the source is decides the way: a file is copied once the folders on its way are
/// there, a folder as a folder, and a link or anything else is refused. A source that
/// cannot be looked at is refused with the system's words.
pub proof fn law_the_kind_decides_the_way<S>(m: CopyItem<S>, f: Fault<S>)
    requires
        m.stage is Look,
    ensures
        ({
            let file = item_next(m, ItemReply::Kind(EntryKind::File)).0;
            let folder = item_next(m, ItemReply::Kind(EntryKind::Folder)).0;
            let other = item_next(m, ItemReply::Kind(EntryKind::Other)).0;
            &&& m.ways > 0 ==> file.stage == ItemStage::<S>::LookWay(0)
            &&& m.ways == 0 ==> file.stage is SweepBeside
            &&& file.kind == EntryKind::File && file.move_mode == m.move_mode
            &&& folder.stage is SweepBelow && folder.move_mode == m.move_mode
            &&& item_next(folder, ItemReply::Done).0.stage is CopyFolder
            &&& item_next(
                CopyItem { stage: ItemStage::SweepBeside, ..file },
                ItemReply::Done,
            ).0.stage is CopyFile
            &&& item_next(m, ItemReply::Kind(EntryKind::Link)).0.stage == ItemStage::<S>::Ended(
                ItemEnd::Link,
            )
            &&& other.stage is SweepBeside && item_next(other, ItemReply::Done).0.stage
                == ItemStage::<S>::Ended(ItemEnd::OtherKind)
            &&& item_next(m, ItemReply::Failed(f)).0.stage == ItemStage::Ended(
                ItemEnd::Unreadable(f),
            )
        }),
{
}

/// The folders on the way come one after the other: one that is there is passed by, one
/// that is not is created and announced, and one that cannot be ends the operation.
pub proof fn law_the_way_is_made_in_order<S>(m: CopyItem<S>, i: usize, f: Fault<S>)
    requires
        i < m.ways,
    ensures
        ({
            let after = if i + 1 < m.ways {
                ItemStage::LookWay((i + 1) as usize)
            } else {
                ItemStage::SweepBeside
            };
            &&& m.stage == ItemStage::<S>::LookWay(i) ==> item_next(m, ItemReply::Flag(true)) == (
                CopyItem { stage: after, ..m },
                None::<usize>,
            ) && item_next(m, ItemReply::Flag(false)).0.stage == ItemStage::<S>::MakeWay(i)
            &&& m.stage == ItemStage::<S>::MakeWay(i) ==> item_next(m, ItemReply::Done) == (
                CopyItem { stage: after, ..m },
                Some(i),
            ) && item_next(m, ItemReply::Failed(f)).0.stage == ItemStage::Ended(ItemEnd::NoWay(f))
        }),
{
}

/// A file that arrived is copied, or leaves its source in a move; one that was left behind
/// or stopped never does.
pub proof fn law_what_becomes_of_a_file<S>(m: CopyItem<S>, end: JobEnd, stats: CopyStats)
    requires
        m.stage is CopyFile,
    ensures
        ({
            let next = item_next(m, ItemReply::File(end, stats)).0;
            &&& end == JobEnd::Copied && m.move_mode ==> next.stage == ItemStage::<S>::RemoveFile(
                stats,
            )
            &&& end == JobEnd::Copied && !m.move_mode ==> next.stage == ItemStage::<S>::Ended(
                ItemEnd::Finished(OpStatus::Copied, stats),
            )
            &&& end == JobEnd::Skipped ==> (next.stage matches ItemStage::Ended(
                ItemEnd::Finished(status, now),
            ) && status == OpStatus::Skipped && now.files_copied == 0 && now.symlinks_skipped == 0
                && now.files_skipped == stats.files_skipped)
            &&& end == JobEnd::Stopped ==> next.stage == ItemStage::<S>::Ended(
                ItemEnd::Finished(OpStatus::Stopped, stats),
            )
        }),
{
}

/// A folder leaves its source only in a move that left nothing behind, neither a file nor
/// a link. A move that left something, and a copy that left a file, are partial; links
/// alone do not make a copy partial. A stopped one is stopped, whatever was left.
pub proof fn law_what_becomes_of_a_folder<S>(m: CopyItem<S>, end: TreeEnd, stats: CopyStats)
    requires
        m.stage is CopyFolder,
    ensures
        ({
            let next = item_next(m, ItemReply::Folder(end, stats)).0;
            let clean = stats.files_skipped == 0 && stats.symlinks_skipped == 0;
            let status = if end == TreeEnd::Stopped {
                OpStatus::Stopped
            } else if m.move_mode || stats.files_skipped > 0 {
                OpStatus::Partial
            } else {
                OpStatus::Copied
            };
            &&& end == TreeEnd::Done && m.move_mode && clean <==> next.stage
                == ItemStage::<S>::RemoveFolder(stats)
            &&& !(end == TreeEnd::Done && m.move_mode && clean) <==> next.stage
                == ItemStage::<S>::Ended(ItemEnd::Finished(status, stats))
        }),
{
}

/// A source that is to go is moved once it is gone; where it cannot be removed, that is
/// what the user hears.
pub proof fn law_a_move_ends_with_its_source<S>(m: CopyItem<S>, stats: CopyStats, f: Fault<S>)
    requires
        m.stage == ItemStage::<S>::RemoveFile(stats) || m.stage == ItemStage::<S>::RemoveFolder(
            stats,
        ),
    ensures
        item_next(m, ItemReply::Done).0.stage == ItemStage::<S>::Ended(
            ItemEnd::Finished(OpStatus::Moved, stats),
        ),
        item_next(m, ItemReply::Failed(f)).0.stage == ItemStage::Ended(ItemEnd::SourceStays(f)),
{
}

/// An operation that did not begin or could not end says why, by a name of its own for
/// each reason.
pub proof fn law_every_refusal_has_its_name(f: Fault<Seq<char>>, status: OpStatus, stats: CopyStats)
    ensures
        refusal(ItemEnd::Finished(status, stats)) is None,
        refusal(ItemEnd::Unreadable(f)) matches Some(w) && w.0 == "source_unreadable"@ && w.1
            == without_number(f.text),
        refusal(ItemEnd::Link) == Some(("symlink_not_copyable"@, Seq::<char>::empty())),
        refusal(ItemEnd::OtherKind) == Some(("source_kind_not_supported"@, Seq::<char>::empty())),
        refusal(ItemEnd::NoWay(f)) matches Some(w) && w.0 == "folder_not_created"@ && w.1
            == without_number(f.text),
        refusal(ItemEnd::SourceStays(f)) matches Some(w) && w.0 == "move_source_not_removed"@
            && w.1 == without_number(f.text),
{
}

/// The way to a position is every position around it, from the outermost: each of them, a
/// slash and something more make up the position, and there are as many as slashes.
pub proof fn law_the_way_leads_to_the_position(rel: Seq<char>, k: int)
    requires
        0 <= k < way_to(rel).len(),
        rel.len() > 0 && rel[0] != '/',
    ensures
        (way_to(rel)[k] + seq!['/']).is_prefix_of(rel),
        way_to(rel).len() == split(rel, seq!['/']).len() - 1,
        k > 0 ==> (way_to(rel)[k - 1] + seq!['/']).is_prefix_of(way_to(rel)[k]),
{
    let sep = "/"@;
    reveal_strlit("/");
    assert(sep =~= seq!['/']);
    let parts = split(rel, sep);
    law_pieces_make_up_the_text(rel, sep);
    assert(parts[0].len() > 0) by {
        lemma_find_from(rel, sep, 0);
        if let Some(i) = find(rel, sep) {
            assert(rel.subrange(i, i + 1)[0] == rel[i]);
        }
    }
    lemma_way_joins(parts, k);
    lemma_joined_front(parts, k + 1);
    let w = way_to(rel)[k];
    assert((w + sep).is_prefix_of(rel)) by {
        assert(rel =~= w + sep + join(parts.skip(k + 1), sep));
        assert(rel.take((w + sep).len() as int) =~= w + sep);
    }
    if k > 0 {
        lemma_way_joins(parts, k - 1);
        let v = way_to(rel)[k - 1];
        assert(v.len() > 0);
        assert(w =~= v + sep + parts[k]);
        assert(w.take((v + sep).len() as int) =~= v + sep);
    }
}

proof fn lemma_way_joins(parts: Seq<Seq<char>>, k: int)
    requires
        0 <= k < parts.len(),
        parts[0].len() > 0,
    ensures
        way_at(parts, k) == join(parts.take(k + 1), "/"@),
        way_at(parts, k).len() > 0,
    decreases k,
{
    reveal_strlit("/");
    let front = parts.take(k + 1);
    assert(way_at(parts, -1) == Seq::<char>::empty());
    if k == 0 {
        assert(front =~= seq![parts[0]]);
    } else {
        lemma_way_joins(parts, k - 1);
        assert(front.drop_last() =~= parts.take(k));
        assert(front.last() == parts[k]);
    }
}

proof fn lemma_joined_front(parts: Seq<Seq<char>>, k: int)
    requires
        0 < k < parts.len(),
    ensures
        join(parts, "/"@) == join(parts.take(k), "/"@) + "/"@ + join(parts.skip(k), "/"@),
    decreases parts.len(),
{
    let sep = "/"@;
    let rest = parts.skip(k);
    if k == parts.len() - 1 {
        assert(parts.take(k) =~= parts.drop_last());
        assert(rest =~= seq![parts.last()]);
        assert(join(rest, sep) == rest[0]);
    } else {
        lemma_joined_front(parts.drop_last(), k);
        assert(parts.drop_last().take(k) =~= parts.take(k));
        assert(parts.drop_last().skip(k) =~= rest.drop_last());
        assert(rest.last() == parts.last());
        assert(join(parts, sep) =~= join(parts.take(k), sep) + sep + join(rest, sep));
    }
}

/// Whatever can come is taken: what the source is or why it cannot be looked at, whether a
/// folder on the way is there, that a call went through or failed, and what became of the
/// copy.
pub proof fn law_whatever_comes_is_taken<S>(
    m: CopyItem<S>,
    kind: EntryKind,
    flag: bool,
    f: Fault<S>,
    file: JobEnd,
    folder: TreeEnd,
    stats: CopyStats,
)
    requires
        m.stage matches ItemStage::LookWay(i) ==> i < m.ways,
        m.stage matches ItemStage::MakeWay(i) ==> i < m.ways,
    ensures
        m.stage is Look ==> m.takes(ItemReply::Kind(kind)) && m.takes(ItemReply::Failed(f)),
        m.stage is LookWay ==> m.takes(ItemReply::Flag(flag)),
        m.stage is SweepBelow || m.stage is SweepBeside ==> m.takes(ItemReply::Done),
        m.stage is CopyFile ==> m.takes(ItemReply::File(file, stats)),
        m.stage is CopyFolder ==> m.takes(ItemReply::Folder(folder, stats)),
        m.stage is MakeWay || m.stage is RemoveFile || m.stage is RemoveFolder ==> m.takes(
            ItemReply::Done,
        ) && m.takes(ItemReply::Failed(f)),
{
}

/// The words under which an operation reports its end.
pub proof fn law_the_words_for_an_end()
    ensures
        op_name(OpStatus::Moved) == "moved"@,
        op_name(OpStatus::Copied) == "copied"@,
        op_name(OpStatus::Partial) == "partial"@,
        op_name(OpStatus::Skipped) == "skipped"@,
        op_name(OpStatus::Stopped) == "stopped"@,
{
}

} // verus!
