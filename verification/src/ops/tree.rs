//! A whole folder, merged into its destination level by level.
//!
//! Links of the source are counted and left behind. A link at the destination is
//! replaced, never followed: it is set aside until the folder is there in its place,
//! and put back where the folder cannot be created. Every failure asks the user, so the end
//! is either that everything was gone through or that the operation was
//! cancelled. The attributes of a folder are applied after its contents, so a
//! protected source folder does not block writing its children.
use vstd::prelude::*;

use super::file::{counted, JobEnd};
use super::{child_of, rel_child, CopyStats, DoneStatus, ErrorChoice, OpFileDone, OpFileError, Phase};
use crate::error::Fault;
use crate::sys::System;

verus! {

/// What an entry of a folder is.
#[derive(Debug, Clone, Copy, PartialEq, Eq, Structural)]
pub enum EntryKind {
    /// A link, whatever it points at.
    Link,
    /// A folder.
    Folder,
    /// A plain file.
    File,
    /// A device, a pipe, a socket.
    Other,
}

/// What is to be done next for the folder that is being copied.
#[derive(Debug, Clone, Copy, PartialEq, Eq, Structural)]
pub enum DirStage {
    /// Ask whether the destination is a link.
    LookLink,
    /// Move that link to a name of its own beside the destination, without touching
    /// what it points at.
    SetLinkAside,
    /// Wait for the answer about that link, or about the folder that could not be
    /// created in its place.
    AskLink,
    /// Ask whether the destination is there.
    LookFolder,
    /// Create the destination.
    MakeFolder,
    /// Put the link back that was set aside.
    PutLinkBack,
    /// Wait for the answer about a link that did not go back. Trying again begins
    /// with the folder; leaving the folder behind keeps the link where it was set
    /// aside.
    AskBack,
    /// Remove the link that was set aside, without touching what it points at.
    DropLink,
    /// Wait for the answer about a link that was set aside and cannot be removed.
    /// Leaving it keeps it there, beside the folder.
    AskDrop,
    /// Wait for the answer about the destination.
    AskMake,
    /// Open the source folder.
    OpenFolder,
    /// Wait for the answer about the source folder.
    AskOpen,
    /// Fetch the next entry of the source folder.
    NextEntry,
    /// Wait for the answer about an entry that could not be fetched.
    AskEntry,
    /// Wait for the answer about an entry whose kind could not be read.
    AskKind,
    /// Copy a file of the folder.
    InFile,
    /// A folder inside this one is being copied.
    InFolder,
    /// Give the destination the attributes of the source, if the system lets
    /// it.
    Attributes,
}

/// A folder that is being copied.
#[derive(Debug)]
pub struct Frame<S> {
    /// Position on the source side.
    pub src_rel: S,
    /// Position on the destination side.
    pub dst_rel: S,
    /// A link that stood at the destination is set aside, and what becomes of it is
    /// not settled yet.
    pub aside: bool,
    /// This copy brought the destination into being.
    pub created: bool,
    /// Files copied before the first entry of this folder.
    pub copied_before: u64,
    /// What is to be done next.
    pub stage: DirStage,
}

/// How the copy of a folder ended.
#[derive(Debug, Clone, Copy, PartialEq, Eq, Structural)]
pub enum TreeEnd {
    /// Everything was gone through.
    Done,
    /// The operation was cancelled.
    Stopped,
}

/// What the copy of a folder hears.
#[derive(Debug)]
pub enum DirReply<S> {
    /// The call went through.
    Done,
    /// The call failed.
    Failed(Fault<S>),
    /// The answer to a question.
    Flag(bool),
    /// An entry, by name and kind.
    Entry(S, EntryKind),
    /// An entry could not be fetched.
    EntryFailed(Fault<S>),
    /// The kind of a named entry could not be read.
    KindFailed(S, Fault<S>),
    /// There are no more entries.
    NoMore,
    /// A file was done with, and these are the counters after it.
    File(JobEnd, CopyStats),
    /// The user answered.
    Choice(ErrorChoice),
}

/// What goes out after a step.
#[derive(Debug)]
pub struct TreeOut<S> {
    /// A finished item to announce.
    pub announce: Option<OpFileDone<S>>,
    /// A question for the user, to be asked when an answer is next waited for.
    pub ask: Option<OpFileError<S>>,
    /// The file to copy now, by its position on either side.
    pub file: Option<(S, S)>,
    /// The whole operation is cancelled from here on.
    pub cancel: bool,
}

/// The copy of a folder: the folders on the way down, and the counters.
#[derive(Debug)]
pub struct TreeCopy {
    /// The folders that are being copied, the innermost last.
    pub frames: Vec<Frame<String>>,
    /// The counters of the whole operation.
    pub stats: CopyStats,
    /// How it ended, once it has.
    pub end: Option<TreeEnd>,
    /// The system it runs on.
    pub system: System,
}

/// The copy of a folder as a mathematical value.
pub struct TreeModel {
    /// The folders that are being copied, the innermost last.
    pub frames: Seq<Frame<Seq<char>>>,
    /// The counters of the whole operation.
    pub stats: CopyStats,
    /// How it ended, once it has.
    pub end: Option<TreeEnd>,
    /// The system it runs on.
    pub system: System,
}

impl Frame<String> {
    /// The frame with its texts as sequences of characters.
    pub open spec fn model(self) -> Frame<Seq<char>> {
        Frame {
            src_rel: self.src_rel@,
            dst_rel: self.dst_rel@,
            aside: self.aside,
            created: self.created,
            copied_before: self.copied_before,
            stage: self.stage,
        }
    }
}

impl DirReply<String> {
    /// What was heard, with its texts as sequences of characters.
    pub open spec fn model(self) -> DirReply<Seq<char>> {
        match self {
            DirReply::Done => DirReply::Done,
            DirReply::Failed(f) => DirReply::Failed(f.model()),
            DirReply::Flag(b) => DirReply::Flag(b),
            DirReply::Entry(name, kind) => DirReply::Entry(name@, kind),
            DirReply::EntryFailed(f) => DirReply::EntryFailed(f.model()),
            DirReply::KindFailed(name, f) => DirReply::KindFailed(name@, f.model()),
            DirReply::NoMore => DirReply::NoMore,
            DirReply::File(end, stats) => DirReply::File(end, stats),
            DirReply::Choice(c) => DirReply::Choice(c),
        }
    }
}

impl TreeOut<String> {
    /// What goes out, with its texts as sequences of characters.
    pub open spec fn model(self) -> TreeOut<Seq<char>> {
        TreeOut {
            announce: match self.announce {
                Some(d) => Some(d.model()),
                None => None,
            },
            ask: match self.ask {
                Some(e) => Some(e.model()),
                None => None,
            },
            file: match self.file {
                Some(f) => Some((f.0@, f.1@)),
                None => None,
            },
            cancel: self.cancel,
        }
    }
}

/// Nothing goes out.
pub open spec fn silent() -> TreeOut<Seq<char>> {
    TreeOut { announce: None, ask: None, file: None, cancel: false }
}

/// A folder is announced.
pub open spec fn announcing(top: Frame<Seq<char>>, status: DoneStatus) -> TreeOut<Seq<char>> {
    TreeOut {
        announce: Some(
            OpFileDone { src_rel: top.src_rel, dst_rel: top.dst_rel, is_dir: true, status },
        ),
        ..silent()
    }
}

/// The user is asked about a failure, with the system's words as they came.
pub open spec fn asking(
    system: System,
    src_rel: Seq<char>,
    dst_rel: Seq<char>,
    is_dir: bool,
    phase: Phase,
    fault: Fault<Seq<char>>,
) -> TreeOut<Seq<char>> {
    TreeOut {
        ask: Some(
            OpFileError {
                src_rel,
                dst_rel,
                is_dir,
                phase,
                cause: crate::sys::cause(system, fault.failure),
                reason: fault.text,
            },
        ),
        ..silent()
    }
}

/// The innermost folder replaced by another state of it.
pub open spec fn with_top(m: TreeModel, top: Frame<Seq<char>>) -> TreeModel {
    TreeModel { frames: m.frames.drop_last().push(top), ..m }
}

/// The innermost folder at another stage.
pub open spec fn to_stage(m: TreeModel, stage: DirStage) -> TreeModel {
    with_top(m, Frame { stage, ..m.frames.last() })
}

/// The operation was cancelled.
pub open spec fn stopped(m: TreeModel) -> TreeModel {
    TreeModel { end: Some(TreeEnd::Stopped), ..m }
}

/// The innermost folder is done with: the one around it goes on, and without
/// one the copy is over.
pub open spec fn leave(m: TreeModel) -> TreeModel {
    let rest = m.frames.drop_last();
    if rest.len() == 0 {
        TreeModel { frames: rest, end: Some(TreeEnd::Done), ..m }
    } else {
        to_stage(TreeModel { frames: rest, ..m }, DirStage::NextEntry)
    }
}

/// The innermost folder is left behind.
pub open spec fn skip_folder(m: TreeModel) -> (TreeModel, TreeOut<Seq<char>>) {
    (
        leave(TreeModel { stats: m.stats.skipped_one(), ..m }),
        announcing(m.frames.last(), DoneStatus::Skipped),
    )
}

/// The innermost folder went through.
pub open spec fn finish_folder(m: TreeModel) -> (TreeModel, TreeOut<Seq<char>>) {
    (leave(m), announcing(m.frames.last(), DoneStatus::Copied))
}

/// An answer about the innermost folder as a whole: try again, leave the folder
/// behind, or stop everything.
pub open spec fn folder_choice(m: TreeModel, choice: ErrorChoice, again: DirStage) -> (
    TreeModel,
    TreeOut<Seq<char>>,
) {
    match choice {
        ErrorChoice::Retry => (to_stage(m, again), silent()),
        ErrorChoice::Skip => skip_folder(m),
        ErrorChoice::Abort => (stopped(m), TreeOut { cancel: true, ..silent() }),
    }
}

/// An answer about an entry that is already gone by: trying again can only mean
/// leaving it behind.
pub open spec fn entry_choice(m: TreeModel, choice: ErrorChoice) -> (
    TreeModel,
    TreeOut<Seq<char>>,
) {
    match choice {
        ErrorChoice::Abort => (stopped(m), TreeOut { cancel: true, ..silent() }),
        _ => (
            to_stage(TreeModel { stats: m.stats.skipped_one(), ..m }, DirStage::NextEntry),
            silent(),
        ),
    }
}

/// The destination folder is there: it is announced at once, so that a copy
/// stopped halfway is known to have made it.
pub open spec fn folder_there(m: TreeModel, created: bool) -> (TreeModel, TreeOut<Seq<char>>) {
    let top = m.frames.last();
    (
        with_top(
            m,
            Frame {
                created,
                copied_before: m.stats.files_copied,
                stage: DirStage::OpenFolder,
                ..top
            },
        ),
        announcing(top, DoneStatus::Created),
    )
}

/// An answer about a link that was set aside and cannot be removed: try again, leave
/// it there and go on with the folder, or stop everything.
pub open spec fn drop_choice(m: TreeModel, choice: ErrorChoice) -> (
    TreeModel,
    TreeOut<Seq<char>>,
) {
    match choice {
        ErrorChoice::Retry => (to_stage(m, DirStage::DropLink), silent()),
        ErrorChoice::Skip => folder_there(
            with_top(m, Frame { aside: false, ..m.frames.last() }),
            m.frames.last().created,
        ),
        ErrorChoice::Abort => (stopped(m), TreeOut { cancel: true, ..silent() }),
    }
}

/// The destination folder is in place: a link that was set aside for it is no longer
/// needed.
pub open spec fn folder_made(m: TreeModel, created: bool) -> (TreeModel, TreeOut<Seq<char>>) {
    if m.frames.last().aside {
        (with_top(m, Frame { created, stage: DirStage::DropLink, ..m.frames.last() }), silent())
    } else {
        folder_there(m, created)
    }
}

/// This copy made the folder or put something inside it.
pub open spec fn touched(m: TreeModel) -> bool {
    m.frames.last().created || m.stats.files_copied > m.frames.last().copied_before
}

/// A folder at its first stage.
pub open spec fn entering(src_rel: Seq<char>, dst_rel: Seq<char>) -> Frame<Seq<char>> {
    Frame {
        src_rel,
        dst_rel,
        aside: false,
        created: false,
        copied_before: 0,
        stage: DirStage::LookLink,
    }
}

/// The copy after an entry of the innermost folder.
pub open spec fn entry_next(m: TreeModel, name: Seq<char>, kind: EntryKind) -> (
    TreeModel,
    TreeOut<Seq<char>>,
) {
    let top = m.frames.last();
    let src = child_of(top.src_rel, name);
    let dst = child_of(top.dst_rel, name);
    match kind {
        EntryKind::Link => (TreeModel { stats: m.stats.link_skipped(), ..m }, silent()),
        EntryKind::Other => (TreeModel { stats: m.stats.skipped_one(), ..m }, silent()),
        EntryKind::File => (
            to_stage(m, DirStage::InFile),
            TreeOut { file: Some((src, dst)), ..silent() },
        ),
        EntryKind::Folder => {
            let around = to_stage(m, DirStage::InFolder);
            (TreeModel { frames: around.frames.push(entering(src, dst)), ..around }, silent())
        },
    }
}

/// The copy after the source folder was asked for its next entry.
pub open spec fn listing_next(m: TreeModel, reply: DirReply<Seq<char>>, stop: bool) -> (
    TreeModel,
    TreeOut<Seq<char>>,
) {
    let top = m.frames.last();
    match reply {
        DirReply::NoMore => if touched(m) {
            (to_stage(m, DirStage::Attributes), silent())
        } else {
            finish_folder(m)
        },
        _ => if stop {
            (stopped(m), silent())
        } else {
            match reply {
                DirReply::EntryFailed(f) => (
                    to_stage(m, DirStage::AskEntry),
                    asking(m.system, top.src_rel, top.dst_rel, true, Phase::Readdir, f),
                ),
                DirReply::KindFailed(name, f) => (
                    to_stage(m, DirStage::AskKind),
                    asking(
                        m.system,
                        child_of(top.src_rel, name),
                        child_of(top.dst_rel, name),
                        false,
                        Phase::Read,
                        f,
                    ),
                ),
                DirReply::Entry(name, kind) => entry_next(m, name, kind),
                _ => (m, silent()),
            }
        },
    }
}

/// The copy after what it heard, and what goes out with it.
pub open spec fn tree_next(m: TreeModel, reply: DirReply<Seq<char>>, stop: bool) -> (
    TreeModel,
    TreeOut<Seq<char>>,
) {
    let top = m.frames.last();
    match top.stage {
        DirStage::LookLink => if reply == DirReply::<Seq<char>>::Flag(true) {
            (to_stage(m, DirStage::SetLinkAside), silent())
        } else {
            (to_stage(m, DirStage::LookFolder), silent())
        },
        DirStage::SetLinkAside => match reply {
            DirReply::Failed(f) => (
                to_stage(m, DirStage::AskLink),
                asking(m.system, top.src_rel, top.dst_rel, true, Phase::Mkdir, f),
            ),
            _ => (
                with_top(m, Frame { aside: true, stage: DirStage::LookFolder, ..top }),
                silent(),
            ),
        },
        DirStage::LookFolder => if reply == DirReply::<Seq<char>>::Flag(true) {
            folder_made(m, false)
        } else {
            (to_stage(m, DirStage::MakeFolder), silent())
        },
        DirStage::MakeFolder => match reply {
            DirReply::Failed(f) => (
                to_stage(
                    m,
                    if top.aside {
                        DirStage::PutLinkBack
                    } else {
                        DirStage::AskMake
                    },
                ),
                asking(m.system, top.src_rel, top.dst_rel, true, Phase::Mkdir, f),
            ),
            _ => folder_made(m, true),
        },
        DirStage::PutLinkBack => match reply {
            DirReply::Failed(f) => (
                to_stage(m, DirStage::AskBack),
                asking(m.system, top.src_rel, top.dst_rel, true, Phase::Mkdir, f),
            ),
            _ => (
                with_top(m, Frame { aside: false, stage: DirStage::AskLink, ..top }),
                silent(),
            ),
        },
        DirStage::DropLink => match reply {
            DirReply::Failed(f) => (
                to_stage(m, DirStage::AskDrop),
                asking(m.system, top.src_rel, top.dst_rel, true, Phase::Mkdir, f),
            ),
            _ => folder_there(with_top(m, Frame { aside: false, ..top }), top.created),
        },
        DirStage::OpenFolder => match reply {
            DirReply::Failed(f) => (
                to_stage(m, DirStage::AskOpen),
                asking(m.system, top.src_rel, top.dst_rel, true, Phase::Readdir, f),
            ),
            _ => (to_stage(m, DirStage::NextEntry), silent()),
        },
        DirStage::AskLink => match reply {
            DirReply::Choice(c) => folder_choice(m, c, DirStage::LookLink),
            _ => (m, silent()),
        },
        DirStage::AskMake => match reply {
            DirReply::Choice(c) => folder_choice(m, c, DirStage::MakeFolder),
            _ => (m, silent()),
        },
        DirStage::AskBack => match reply {
            DirReply::Choice(c) => folder_choice(m, c, DirStage::LookFolder),
            _ => (m, silent()),
        },
        DirStage::AskDrop => match reply {
            DirReply::Choice(c) => drop_choice(m, c),
            _ => (m, silent()),
        },
        DirStage::AskOpen => match reply {
            DirReply::Choice(c) => folder_choice(m, c, DirStage::OpenFolder),
            _ => (m, silent()),
        },
        DirStage::AskEntry | DirStage::AskKind => match reply {
            DirReply::Choice(c) => entry_choice(m, c),
            _ => (m, silent()),
        },
        DirStage::NextEntry => listing_next(m, reply, stop),
        DirStage::InFile => match reply {
            DirReply::File(end, stats) => {
                let after = TreeModel { stats, ..m };
                if end is Stopped {
                    (stopped(after), silent())
                } else {
                    (to_stage(after, DirStage::NextEntry), silent())
                }
            },
            _ => (m, silent()),
        },
        DirStage::Attributes => finish_folder(m),
        DirStage::InFolder => (m, silent()),
    }
}

/// What was heard answers what was asked, and the counters have room for it.
pub open spec fn tree_takes(m: TreeModel, reply: DirReply<Seq<char>>) -> bool {
    &&& m.end is None
    &&& m.frames.len() > 0
    &&& m.stats.room()
    &&& match m.frames.last().stage {
        DirStage::LookLink | DirStage::LookFolder => reply is Flag,
        DirStage::SetLinkAside
        | DirStage::MakeFolder
        | DirStage::PutLinkBack
        | DirStage::DropLink
        | DirStage::OpenFolder
        | DirStage::Attributes => reply is Done || reply is Failed,
        DirStage::AskLink
        | DirStage::AskMake
        | DirStage::AskBack
        | DirStage::AskDrop
        | DirStage::AskOpen
        | DirStage::AskEntry
        | DirStage::AskKind => reply is Choice,
        DirStage::NextEntry => reply is Entry || reply is EntryFailed || reply is KindFailed
            || reply is NoMore,
        DirStage::InFile => match reply {
            DirReply::File(end, stats) => counted(m.stats, end, stats),
            _ => false,
        },
        DirStage::InFolder => false,
    }
}

/// The copy of a folder at its start; cancelled at once where the operation
/// already is.
pub open spec fn tree_start(
    system: System,
    src_rel: Seq<char>,
    dst_rel: Seq<char>,
    stats: CopyStats,
    stop: bool,
) -> TreeModel {
    TreeModel {
        frames: seq![entering(src_rel, dst_rel)],
        stats,
        end: if stop {
            Some(TreeEnd::Stopped)
        } else {
            None
        },
        system,
    }
}

/// Nothing goes out.
fn nothing() -> (r: TreeOut<String>)
    ensures
        r.model() == silent(),
{
    TreeOut { announce: None, ask: None, file: None, cancel: false }
}

/// Announces a folder.
fn announce(src_rel: &str, dst_rel: &str, status: DoneStatus) -> (r: TreeOut<String>)
    ensures
        r.model() == (TreeOut {
            announce: Some(OpFileDone { src_rel: src_rel@, dst_rel: dst_rel@, is_dir: true, status }),
            ..silent()
        }),
{
    TreeOut {
        announce: Some(
            OpFileDone {
                src_rel: src_rel.to_owned(),
                dst_rel: dst_rel.to_owned(),
                is_dir: true,
                status,
            },
        ),
        ask: None,
        file: None,
        cancel: false,
    }
}

/// Asks about a failure.
fn ask(
    system: System,
    src_rel: &str,
    dst_rel: &str,
    is_dir: bool,
    phase: Phase,
    fault: Fault<String>,
) -> (r: TreeOut<String>)
    ensures
        r.model() == asking(system, src_rel@, dst_rel@, is_dir, phase, fault.model()),
{
    let cause = crate::sys::cause_on(system, fault.failure);
    TreeOut {
        announce: None,
        ask: Some(
            OpFileError {
                src_rel: src_rel.to_owned(),
                dst_rel: dst_rel.to_owned(),
                is_dir,
                phase,
                cause: cause.to_owned(),
                reason: fault.text,
            },
        ),
        file: None,
        cancel: false,
    }
}

/// Cancels everything.
fn cancel_all() -> (r: TreeOut<String>)
    ensures
        r.model() == (TreeOut { cancel: true, ..silent() }),
{
    TreeOut { announce: None, ask: None, file: None, cancel: true }
}

impl TreeCopy {
    /// The copy as a mathematical value.
    pub open spec fn model(self) -> TreeModel {
        TreeModel {
            frames: Seq::new(self.frames@.len(), |i: int| self.frames@[i].model()),
            stats: self.stats,
            end: self.end,
            system: self.system,
        }
    }

    /// The copy of a folder at its start.
    pub fn new(system: System, src_rel: &str, dst_rel: &str, stats: CopyStats, stop: bool) -> (r:
        Self)
        ensures
            r.model() == tree_start(system, src_rel@, dst_rel@, stats, stop),
    {
        let mut frames: Vec<Frame<String>> = Vec::new();
        frames.push(
            Frame {
                src_rel: src_rel.to_owned(),
                dst_rel: dst_rel.to_owned(),
                aside: false,
                created: false,
                copied_before: 0,
                stage: DirStage::LookLink,
            },
        );
        let end = if stop {
            Some(TreeEnd::Stopped)
        } else {
            None
        };
        let r = TreeCopy { frames, stats, end, system };
        assert(r.model().frames =~= seq![entering(src_rel@, dst_rel@)]);
        r
    }

    /// How deep the folder lies that is being copied.
    pub fn depth(&self) -> (r: usize)
        ensures
            r == self.model().frames.len(),
    {
        self.frames.len()
    }

    /// What is to be done next, until the end.
    pub fn stage(&self) -> (r: Option<DirStage>)
        ensures
            r == (if self.model().end is None && self.model().frames.len() > 0 {
                Some(self.model().frames.last().stage)
            } else {
                None
            }),
    {
        if self.end.is_some() || self.frames.len() == 0 {
            return None;
        }
        Some(self.frames[self.frames.len() - 1].stage)
    }

    /// Puts the innermost folder back.
    fn put(&mut self, top: Frame<String>)
        ensures
            final(self).model() == (TreeModel {
                frames: old(self).model().frames.push(top.model()),
                ..old(self).model()
            }),
    {
        let ghost before = self.model().frames;
        self.frames.push(top);
        assert(self.model().frames =~= before.push(top.model()));
    }

    /// Takes the innermost folder out.
    fn take(&mut self) -> (r: Frame<String>)
        requires
            old(self).model().frames.len() > 0,
        ensures
            r.model() == old(self).model().frames.last(),
            final(self).model() == (TreeModel {
                frames: old(self).model().frames.drop_last(),
                ..old(self).model()
            }),
    {
        let ghost before = self.model().frames;
        let top = self.frames.pop();
        assert(self.model().frames =~= before.drop_last());
        top.unwrap()
    }

    /// Moves the innermost folder to another stage.
    fn go(&mut self, stage: DirStage)
        requires
            old(self).model().frames.len() > 0,
        ensures
            final(self).model() == to_stage(old(self).model(), stage),
    {
        let mut top = self.take();
        top.stage = stage;
        self.put(top);
    }

    /// Ends the copy as cancelled.
    fn stop(&mut self)
        ensures
            final(self).model() == stopped(old(self).model()),
    {
        self.end = Some(TreeEnd::Stopped);
    }

    /// Leaves the innermost folder, announcing what became of it.
    fn leave_with(&mut self, status: DoneStatus) -> (r: TreeOut<String>)
        requires
            old(self).model().frames.len() > 0,
        ensures
            final(self).model() == leave(old(self).model()),
            r.model() == announcing(old(self).model().frames.last(), status),
    {
        let top = self.take();
        if self.frames.len() == 0 {
            self.end = Some(TreeEnd::Done);
        } else {
            self.go(DirStage::NextEntry);
        }
        announce(&top.src_rel, &top.dst_rel, status)
    }

    /// The destination folder is there.
    fn there(&mut self, created: bool) -> (r: TreeOut<String>)
        requires
            old(self).model().frames.len() > 0,
        ensures
            (final(self).model(), r.model()) == folder_there(old(self).model(), created),
    {
        let mut top = self.take();
        let out = announce(&top.src_rel, &top.dst_rel, DoneStatus::Created);
        top.created = created;
        top.copied_before = self.stats.files_copied;
        top.stage = DirStage::OpenFolder;
        self.put(top);
        out
    }

    /// The destination folder is in place.
    fn made(&mut self, created: bool) -> (r: TreeOut<String>)
        requires
            old(self).model().frames.len() > 0,
        ensures
            (final(self).model(), r.model()) == folder_made(old(self).model(), created),
    {
        let mut top = self.take();
        let aside = top.aside;
        if aside {
            top.created = created;
            top.stage = DirStage::DropLink;
            self.put(top);
            nothing()
        } else {
            self.put(top);
            assert(self.model().frames =~= old(self).model().frames);
            self.there(created)
        }
    }

    /// The link that was set aside is so, or is no longer; the folder goes on from
    /// another stage.
    fn link(&mut self, aside: bool, stage: DirStage)
        requires
            old(self).model().frames.len() > 0,
        ensures
            final(self).model() == with_top(
                old(self).model(),
                Frame { aside, stage, ..old(self).model().frames.last() },
            ),
    {
        let mut top = self.take();
        top.aside = aside;
        top.stage = stage;
        self.put(top);
    }

    /// Asks about the innermost folder.
    fn ask_folder(&mut self, stage: DirStage, phase: Phase, fault: Fault<String>) -> (r: TreeOut<
        String,
    >)
        requires
            old(self).model().frames.len() > 0,
        ensures
            final(self).model() == to_stage(old(self).model(), stage),
            r.model() == asking(
                old(self).model().system,
                old(self).model().frames.last().src_rel,
                old(self).model().frames.last().dst_rel,
                true,
                phase,
                fault.model(),
            ),
    {
        let mut top = self.take();
        let out = ask(self.system, &top.src_rel, &top.dst_rel, true, phase, fault);
        top.stage = stage;
        self.put(top);
        out
    }

    /// An answer about the innermost folder.
    fn answer_folder(&mut self, choice: ErrorChoice, again: DirStage) -> (r: TreeOut<String>)
        requires
            old(self).model().frames.len() > 0,
            old(self).model().stats.room(),
        ensures
            (final(self).model(), r.model()) == folder_choice(old(self).model(), choice, again),
    {
        match choice {
            ErrorChoice::Retry => {
                self.go(again);
                nothing()
            },
            ErrorChoice::Skip => {
                self.stats.files_skipped = self.stats.files_skipped + 1;
                self.leave_with(DoneStatus::Skipped)
            },
            ErrorChoice::Abort => {
                self.stop();
                cancel_all()
            },
        }
    }

    /// An answer about a link that cannot be removed.
    fn answer_drop(&mut self, choice: ErrorChoice) -> (r: TreeOut<String>)
        requires
            old(self).model().frames.len() > 0,
            old(self).model().frames.last().stage is AskDrop,
        ensures
            (final(self).model(), r.model()) == drop_choice(old(self).model(), choice),
    {
        match choice {
            ErrorChoice::Retry => {
                self.go(DirStage::DropLink);
                nothing()
            },
            ErrorChoice::Skip => {
                let created = self.frames[self.frames.len() - 1].created;
                assert(created == self.model().frames.last().created);
                self.link(false, DirStage::AskDrop);
                assert(self.model().frames.last().stage == DirStage::AskDrop);
                self.there(created)
            },
            ErrorChoice::Abort => {
                self.stop();
                cancel_all()
            },
        }
    }

    /// An answer about an entry.
    fn answer_entry(&mut self, choice: ErrorChoice) -> (r: TreeOut<String>)
        requires
            old(self).model().frames.len() > 0,
            old(self).model().stats.room(),
        ensures
            (final(self).model(), r.model()) == entry_choice(old(self).model(), choice),
    {
        match choice {
            ErrorChoice::Abort => {
                self.stop();
                cancel_all()
            },
            _ => {
                self.stats.files_skipped = self.stats.files_skipped + 1;
                self.go(DirStage::NextEntry);
                nothing()
            },
        }
    }

    /// An entry of the innermost folder.
    fn entry(&mut self, name: String, kind: EntryKind) -> (r: TreeOut<String>)
        requires
            old(self).model().frames.len() > 0,
            old(self).model().stats.room(),
        ensures
            (final(self).model(), r.model()) == entry_next(old(self).model(), name@, kind),
    {
        match kind {
            EntryKind::Link => {
                self.stats.symlinks_skipped = self.stats.symlinks_skipped + 1;
                nothing()
            },
            EntryKind::Other => {
                self.stats.files_skipped = self.stats.files_skipped + 1;
                nothing()
            },
            EntryKind::File => {
                let mut top = self.take();
                let src = rel_child(&top.src_rel, &name);
                let dst = rel_child(&top.dst_rel, &name);
                top.stage = DirStage::InFile;
                self.put(top);
                TreeOut { announce: None, ask: None, file: Some((src, dst)), cancel: false }
            },
            EntryKind::Folder => {
                let mut top = self.take();
                let src = rel_child(&top.src_rel, &name);
                let dst = rel_child(&top.dst_rel, &name);
                top.stage = DirStage::InFolder;
                self.put(top);
                self.put(
                    Frame {
                        src_rel: src,
                        dst_rel: dst,
                        aside: false,
                        created: false,
                        copied_before: 0,
                        stage: DirStage::LookLink,
                    },
                );
                nothing()
            },
        }
    }

    /// The next entry of the source folder, or what came instead.
    fn listing(&mut self, reply: DirReply<String>, stop: bool) -> (r: TreeOut<String>)
        requires
            old(self).model().frames.len() > 0,
            old(self).model().stats.room(),
        ensures
            (final(self).model(), r.model()) == listing_next(
                old(self).model(),
                reply.model(),
                stop,
            ),
    {
        match reply {
            DirReply::NoMore => {
                let top = self.take();
                let touched = top.created || self.stats.files_copied > top.copied_before;
                self.put(top);
                assert(self.model().frames =~= old(self).model().frames);
                if touched {
                    self.go(DirStage::Attributes);
                    nothing()
                } else {
                    self.leave_with(DoneStatus::Copied)
                }
            },
            _ => {
                if stop {
                    self.stop();
                    return nothing();
                }
                match reply {
                    DirReply::EntryFailed(f) => self.ask_folder(
                        DirStage::AskEntry,
                        Phase::Readdir,
                        f,
                    ),
                    DirReply::KindFailed(name, f) => {
                        let mut top = self.take();
                        let src = rel_child(&top.src_rel, &name);
                        let dst = rel_child(&top.dst_rel, &name);
                        top.stage = DirStage::AskKind;
                        self.put(top);
                        ask(self.system, &src, &dst, false, Phase::Read, f)
                    },
                    DirReply::Entry(name, kind) => self.entry(name, kind),
                    _ => nothing(),
                }
            },
        }
    }

    /// The copy after what it heard. `stop` says whether the operation was
    /// cancelled by then. What comes back goes out at once.
    pub fn next(&mut self, reply: DirReply<String>, stop: bool) -> (r: TreeOut<String>)
        requires
            tree_takes(old(self).model(), reply.model()),
        ensures
            (final(self).model(), r.model()) == tree_next(old(self).model(), reply.model(), stop),
    {
        let stage = self.frames[self.frames.len() - 1].stage;
        assert(stage == self.model().frames.last().stage);
        match stage {
            DirStage::LookLink => {
                match reply {
                    DirReply::Flag(true) => self.go(DirStage::SetLinkAside),
                    _ => self.go(DirStage::LookFolder),
                }
                nothing()
            },
            DirStage::SetLinkAside => match reply {
                DirReply::Failed(f) => self.ask_folder(DirStage::AskLink, Phase::Mkdir, f),
                _ => {
                    self.link(true, DirStage::LookFolder);
                    nothing()
                },
            },
            DirStage::LookFolder => match reply {
                DirReply::Flag(true) => self.made(false),
                _ => {
                    self.go(DirStage::MakeFolder);
                    nothing()
                },
            },
            DirStage::MakeFolder => match reply {
                DirReply::Failed(f) => {
                    let top = &self.frames[self.frames.len() - 1];
                    let then = if top.aside {
                        DirStage::PutLinkBack
                    } else {
                        DirStage::AskMake
                    };
                    assert(top.aside == self.model().frames.last().aside);
                    self.ask_folder(then, Phase::Mkdir, f)
                },
                _ => self.made(true),
            },
            DirStage::PutLinkBack => match reply {
                DirReply::Failed(f) => self.ask_folder(DirStage::AskBack, Phase::Mkdir, f),
                _ => {
                    self.link(false, DirStage::AskLink);
                    nothing()
                },
            },
            DirStage::DropLink => match reply {
                DirReply::Failed(f) => self.ask_folder(DirStage::AskDrop, Phase::Mkdir, f),
                _ => {
                    let created = self.frames[self.frames.len() - 1].created;
                    assert(created == self.model().frames.last().created);
                    self.link(false, DirStage::DropLink);
                    assert(self.model().frames.last().stage == DirStage::DropLink);
                    self.there(created)
                },
            },
            DirStage::OpenFolder => match reply {
                DirReply::Failed(f) => self.ask_folder(DirStage::AskOpen, Phase::Readdir, f),
                _ => {
                    self.go(DirStage::NextEntry);
                    nothing()
                },
            },
            DirStage::AskLink => match reply {
                DirReply::Choice(c) => self.answer_folder(c, DirStage::LookLink),
                _ => nothing(),
            },
            DirStage::AskMake => match reply {
                DirReply::Choice(c) => self.answer_folder(c, DirStage::MakeFolder),
                _ => nothing(),
            },
            DirStage::AskBack => match reply {
                DirReply::Choice(c) => self.answer_folder(c, DirStage::LookFolder),
                _ => nothing(),
            },
            DirStage::AskDrop => match reply {
                DirReply::Choice(c) => self.answer_drop(c),
                _ => nothing(),
            },
            DirStage::AskOpen => match reply {
                DirReply::Choice(c) => self.answer_folder(c, DirStage::OpenFolder),
                _ => nothing(),
            },
            DirStage::AskEntry | DirStage::AskKind => match reply {
                DirReply::Choice(c) => self.answer_entry(c),
                _ => nothing(),
            },
            DirStage::NextEntry => self.listing(reply, stop),
            DirStage::InFile => match reply {
                DirReply::File(end, stats) => {
                    self.stats = stats;
                    match end {
                        JobEnd::Stopped => self.stop(),
                        _ => self.go(DirStage::NextEntry),
                    }
                    nothing()
                },
                _ => nothing(),
            },
            DirStage::Attributes => self.leave_with(DoneStatus::Copied),
            DirStage::InFolder => nothing(),
        }
    }

    /// Whether what was heard answers what was asked, and the counters have
    /// room for it.
    pub fn accepts(&self, reply: &DirReply<String>) -> (r: bool)
        ensures
            r == tree_takes(self.model(), reply.model()),
    {
        if self.end.is_some() || self.frames.len() == 0 || !self.stats.has_room() {
            return false;
        }
        let stage = self.frames[self.frames.len() - 1].stage;
        assert(stage == self.model().frames.last().stage);
        match stage {
            DirStage::LookLink | DirStage::LookFolder => matches!(reply, DirReply::Flag(_)),
            DirStage::SetLinkAside
            | DirStage::MakeFolder
            | DirStage::PutLinkBack
            | DirStage::DropLink
            | DirStage::OpenFolder
            | DirStage::Attributes => matches!(reply, DirReply::Done) || matches!(
                reply,
                DirReply::Failed(_)
            ),
            DirStage::AskLink
            | DirStage::AskMake
            | DirStage::AskBack
            | DirStage::AskDrop
            | DirStage::AskOpen
            | DirStage::AskEntry
            | DirStage::AskKind => matches!(reply, DirReply::Choice(_)),
            DirStage::NextEntry => matches!(reply, DirReply::Entry(_, _)) || matches!(
                reply,
                DirReply::EntryFailed(_)
            ) || matches!(reply, DirReply::KindFailed(_, _)) || matches!(reply, DirReply::NoMore),
            DirStage::InFile => match reply {
                DirReply::File(end, after) => {
                    let up: u64 = match end {
                        JobEnd::Copied => 1,
                        _ => 0,
                    };
                    let left: u64 = match end {
                        JobEnd::Skipped => 1,
                        _ => 0,
                    };
                    after.files_copied == self.stats.files_copied + up && after.files_skipped
                        == self.stats.files_skipped + left && after.symlinks_skipped
                        == self.stats.symlinks_skipped
                },
                _ => false,
            },
            DirStage::InFolder => false,
        }
    }
}

/// What was heard over time, each time with whether the operation was cancelled
/// by then.
pub type TreeLog = Seq<(DirReply<Seq<char>>, bool)>;

/// The copy after everything in a log.
pub open spec fn tree_run(m: TreeModel, log: TreeLog) -> TreeModel
    decreases log.len(),
{
    if log.len() == 0 {
        m
    } else {
        tree_next(tree_run(m, log.drop_last()), log.last().0, log.last().1).0
    }
}

/// Everything in the log answers what was asked at its time.
pub open spec fn tree_log(m: TreeModel, log: TreeLog) -> bool
    decreases log.len(),
{
    log.len() == 0 || (tree_log(m, log.drop_last()) && tree_takes(
        tree_run(m, log.drop_last()),
        log.last().0,
    ))
}

/// A file or a folder is left behind at this moment.
pub open spec fn leaves_item(m: TreeModel, reply: DirReply<Seq<char>>, stop: bool) -> bool {
    match m.frames.last().stage {
        DirStage::AskLink | DirStage::AskMake | DirStage::AskBack | DirStage::AskOpen => reply
            == DirReply::<Seq<char>>::Choice(ErrorChoice::Skip),
        DirStage::AskEntry | DirStage::AskKind => reply != DirReply::<Seq<char>>::Choice(
            ErrorChoice::Abort,
        ),
        DirStage::NextEntry => !stop && (reply matches DirReply::Entry(_, EntryKind::Other)),
        DirStage::InFile => reply matches DirReply::File(JobEnd::Skipped, _),
        _ => false,
    }
}

/// A link is left behind at this moment.
pub open spec fn leaves_link(m: TreeModel, reply: DirReply<Seq<char>>, stop: bool) -> bool {
    m.frames.last().stage is NextEntry && !stop && (reply matches DirReply::Entry(
        _,
        EntryKind::Link,
    ))
}

/// A file arrives at this moment.
pub open spec fn brings_file(m: TreeModel, reply: DirReply<Seq<char>>) -> bool {
    m.frames.last().stage is InFile && (reply matches DirReply::File(JobEnd::Copied, _))
}

/// How many files and folders were left behind.
pub open spec fn items_left(m: TreeModel, log: TreeLog) -> nat
    decreases log.len(),
{
    if log.len() == 0 {
        0
    } else {
        items_left(m, log.drop_last()) + (if leaves_item(
            tree_run(m, log.drop_last()),
            log.last().0,
            log.last().1,
        ) {
            1nat
        } else {
            0
        })
    }
}

/// How many links were left behind.
pub open spec fn links_left(m: TreeModel, log: TreeLog) -> nat
    decreases log.len(),
{
    if log.len() == 0 {
        0
    } else {
        links_left(m, log.drop_last()) + (if leaves_link(
            tree_run(m, log.drop_last()),
            log.last().0,
            log.last().1,
        ) {
            1nat
        } else {
            0
        })
    }
}

/// How many files arrived.
pub open spec fn files_brought(m: TreeModel, log: TreeLog) -> nat
    decreases log.len(),
{
    if log.len() == 0 {
        0
    } else {
        files_brought(m, log.drop_last()) + (if brings_file(
            tree_run(m, log.drop_last()),
            log.last().0,
        ) {
            1nat
        } else {
            0
        })
    }
}

/// The counters of a folder copy tell the truth: they have gone up by exactly
/// what arrived, what was left behind, and the links among it.
pub proof fn law_the_counters_tell_the_truth(m: TreeModel, log: TreeLog)
    requires
        tree_log(m, log),
    ensures
        tree_run(m, log).stats.files_skipped == m.stats.files_skipped + items_left(m, log),
        tree_run(m, log).stats.symlinks_skipped == m.stats.symlinks_skipped + links_left(m, log),
        tree_run(m, log).stats.files_copied == m.stats.files_copied + files_brought(m, log),
    decreases log.len(),
{
    if log.len() > 0 {
        law_the_counters_tell_the_truth(m, log.drop_last());
    }
}

/// Only the innermost folder waits for something; those around it wait for it.
pub open spec fn nested(m: TreeModel) -> bool {
    &&& forall|i: int|
        0 <= i < m.frames.len() - 1 ==> (#[trigger] m.frames[i]).stage is InFolder
    &&& m.end is None ==> m.frames.len() > 0 && !(m.frames.last().stage is InFolder)
    &&& m.end == Some(TreeEnd::Done) ==> m.frames.len() == 0
}

/// A folder copy never gets stuck: as long as it has not ended there is
/// something to be done, and when everything was gone through no folder is left
/// open.
pub proof fn law_a_copy_never_gets_stuck(
    system: System,
    src_rel: Seq<char>,
    dst_rel: Seq<char>,
    stats: CopyStats,
    stop: bool,
    log: TreeLog,
)
    requires
        tree_log(tree_start(system, src_rel, dst_rel, stats, stop), log),
    ensures
        nested(tree_run(tree_start(system, src_rel, dst_rel, stats, stop), log)),
    decreases log.len(),
{
    let m = tree_start(system, src_rel, dst_rel, stats, stop);
    if log.len() > 0 {
        law_a_copy_never_gets_stuck(system, src_rel, dst_rel, stats, stop, log.drop_last());
        let before = tree_run(m, log.drop_last());
        let after = tree_run(m, log);
        assert forall|i: int| 0 <= i < after.frames.len() - 1 implies (
        #[trigger] after.frames[i]).stage is InFolder by {
            if i < before.frames.len() - 1 {
                assert(before.frames[i].stage is InFolder);
            }
        }
    }
}

/// A folder is announced as copied only when its source has no more entries.
pub proof fn law_copied_means_gone_through(m: TreeModel, reply: DirReply<Seq<char>>, stop: bool)
    requires
        tree_takes(m, reply),
        tree_next(m, reply, stop).1.announce matches Some(d) && d.status is Copied,
    ensures
        m.frames.last().stage is Attributes || (m.frames.last().stage is NextEntry && reply
            is NoMore),
{
}

/// The attributes of a folder follow the source only when this copy made the
/// folder or put something inside it.
pub proof fn law_an_untouched_folder_keeps_its_attributes(
    m: TreeModel,
    reply: DirReply<Seq<char>>,
    stop: bool,
)
    requires
        tree_takes(m, reply),
        tree_next(m, reply, stop).0.end is None,
        tree_next(m, reply, stop).0.frames.last().stage is Attributes,
    ensures
        reply is NoMore,
        touched(m),
{
}

/// A link at the destination goes only for a folder that is in its place. Where the
/// folder cannot be created the link is put back before the user is asked about it.
/// Every failure on the way is asked about, and a link stays where it was set aside
/// only if the user wants no other try.
pub proof fn law_a_link_goes_only_for_a_folder(
    m: TreeModel,
    reply: DirReply<Seq<char>>,
    stop: bool,
)
    requires
        tree_takes(m, reply),
    ensures
        ({
            let before = m.frames.last();
            let (next, out) = tree_next(m, reply, stop);
            let after = next.frames.last();
            &&& next.end is None && after.stage is DropLink ==> (before.aside && (
            before.stage is LookFolder && reply == DirReply::<Seq<char>>::Flag(true)
                || before.stage is MakeFolder && reply is Done)) || before.stage is AskDrop
            &&& before.stage is MakeFolder && reply is Failed && before.aside ==> after.stage
                is PutLinkBack
            &&& before.stage is MakeFolder && after.stage is AskMake ==> !after.aside
            &&& (before.stage is PutLinkBack || before.stage is DropLink) && reply is Failed
                ==> after == (Frame { stage: after.stage, ..before }) && (after.stage is AskBack
                || after.stage is AskDrop) && out.ask is Some
            &&& before.aside && next.frames.len() == m.frames.len() && !after.aside ==> (reply
                is Done && (before.stage is PutLinkBack || before.stage is DropLink)) || (
            before.stage is AskDrop && reply == DirReply::<Seq<char>>::Choice(ErrorChoice::Skip))
        }),
{
}

/// The stages at which a link may be set aside.
pub open spec fn sees_to_link(stage: DirStage) -> bool {
    stage is LookFolder || stage is MakeFolder || stage is PutLinkBack || stage is AskBack || stage
        is DropLink || stage is AskDrop
}

/// No link is forgotten: a folder whose link is set aside is never past the stages
/// that see to that link, so its contents wait until the link is removed or the user
/// has answered for it.
pub proof fn law_no_link_is_forgotten(
    system: System,
    src_rel: Seq<char>,
    dst_rel: Seq<char>,
    stats: CopyStats,
    stop: bool,
    log: TreeLog,
)
    requires
        tree_log(tree_start(system, src_rel, dst_rel, stats, stop), log),
    ensures
        ({
            let m = tree_run(tree_start(system, src_rel, dst_rel, stats, stop), log);
            forall|i: int|
                0 <= i < m.frames.len() && (#[trigger] m.frames[i]).aside ==> sees_to_link(
                    m.frames[i].stage,
                )
        }),
    decreases log.len(),
{
    let m = tree_start(system, src_rel, dst_rel, stats, stop);
    if log.len() > 0 {
        law_no_link_is_forgotten(system, src_rel, dst_rel, stats, stop, log.drop_last());
        law_a_copy_never_gets_stuck(system, src_rel, dst_rel, stats, stop, log.drop_last());
        let before = tree_run(m, log.drop_last());
        let after = tree_run(m, log);
        assert(before.frames[before.frames.len() - 1] == before.frames.last());
        assert forall|i: int|
            0 <= i < after.frames.len() && (#[trigger] after.frames[i]).aside implies sees_to_link(
            after.frames[i].stage,
        ) by {
            if i < before.frames.len() {
                assert(before.frames[i].aside ==> sees_to_link(before.frames[i].stage));
            }
        }
    }
}

/// Every folder on the way has the same position on both sides.
pub open spec fn mirrored(m: TreeModel) -> bool {
    forall|i: int|
        0 <= i < m.frames.len() ==> (#[trigger] m.frames[i]).src_rel == m.frames[i].dst_rel
}

/// What lands on the other side lands in its mirror position: a copy that
/// starts at the same position on both sides names the same position on both
/// sides in everything that it announces, asks and copies.
pub proof fn law_mirror_position(m: TreeModel, reply: DirReply<Seq<char>>, stop: bool)
    requires
        tree_takes(m, reply),
        mirrored(m),
    ensures
        mirrored(tree_next(m, reply, stop).0),
        tree_next(m, reply, stop).1.announce matches Some(d) ==> d.src_rel == d.dst_rel,
        tree_next(m, reply, stop).1.ask matches Some(e) ==> e.src_rel == e.dst_rel,
        tree_next(m, reply, stop).1.file matches Some(f) ==> f.0 == f.1,
{
    let top = m.frames.last();
    assert(m.frames[m.frames.len() - 1] == top);
    assert(top.src_rel == top.dst_rel);
    let rest = m.frames.drop_last();
    assert forall|i: int| 0 <= i < rest.len() implies (#[trigger] rest[i]).src_rel
        == rest[i].dst_rel by {
        assert(rest[i] == m.frames[i]);
    }
    if rest.len() > 0 {
        assert(rest.last() == rest[rest.len() - 1]);
    }
    let after = tree_next(m, reply, stop).0;
    assert forall|i: int| 0 <= i < after.frames.len() implies (#[trigger] after.frames[i]).src_rel
        == after.frames[i].dst_rel by {
        if i < rest.len() {
            assert(rest[i] == m.frames[i]);
        }
    }
}

/// Cancelling is heeded: an aborted question ends the copy and cancels the whole
/// operation, and a cancelled operation takes no further entry.
pub proof fn law_cancelling_is_heeded(m: TreeModel, reply: DirReply<Seq<char>>, stop: bool)
    requires
        tree_takes(m, reply),
    ensures
        reply == DirReply::<Seq<char>>::Choice(ErrorChoice::Abort) ==> tree_next(m, reply, stop).0.end
            == Some(TreeEnd::Stopped) && tree_next(m, reply, stop).1.cancel,
        stop && m.frames.last().stage is NextEntry && !(reply is NoMore) ==> tree_next(
            m,
            reply,
            stop,
        ).0.end == Some(TreeEnd::Stopped),
{
}

/// Every folder that is heard of is gone into, at any depth: unless the operation was
/// cancelled by then, a new innermost folder begins at its first stage, at the position
/// of the child on either side, and the folder around it waits for it. Nothing is
/// counted, asked or announced yet.
pub proof fn law_every_folder_is_gone_into(m: TreeModel, name: Seq<char>)
    requires
        tree_takes(m, DirReply::Entry(name, EntryKind::Folder)),
    ensures
        ({
            let (next, out) = tree_next(m, DirReply::Entry(name, EntryKind::Folder), false);
            let top = m.frames.last();
            let n = m.frames.len() as int;
            let inner = next.frames.last();
            &&& next.end is None && next.stats == m.stats && next.system == m.system
            &&& next.frames.len() == n + 1
            &&& next.frames.take(n - 1) == m.frames.take(n - 1)
            &&& next.frames[n - 1] == (Frame { stage: DirStage::InFolder, ..top })
            &&& inner.stage == DirStage::LookLink && !inner.aside && !inner.created
            &&& top.src_rel.len() == 0 ==> inner.src_rel == name
            &&& top.src_rel.len() > 0 ==> inner.src_rel == top.src_rel + seq!['/'] + name
            &&& top.dst_rel.len() == 0 ==> inner.dst_rel == name
            &&& top.dst_rel.len() > 0 ==> inner.dst_rel == top.dst_rel + seq!['/'] + name
            &&& out.announce is None && out.ask is None && out.file is None && !out.cancel
        }),
{
    reveal_strlit("/");
    assert("/"@ =~= seq!['/']);
    let next = tree_next(m, DirReply::Entry(name, EntryKind::Folder), false).0;
    assert(next.frames.take(m.frames.len() - 1) =~= m.frames.take(m.frames.len() - 1));
}

/// Every file that is heard of is copied: unless the operation was cancelled by then, it
/// is the next thing to be done, from and to the position of the child.
pub proof fn law_every_file_is_copied(m: TreeModel, name: Seq<char>)
    requires
        tree_takes(m, DirReply::Entry(name, EntryKind::File)),
    ensures
        ({
            let (next, out) = tree_next(m, DirReply::Entry(name, EntryKind::File), false);
            let top = m.frames.last();
            &&& next.end is None && next.stats == m.stats
            &&& next.frames.len() == m.frames.len()
            &&& next.frames.drop_last() == m.frames.drop_last()
            &&& next.frames.last() == (Frame { stage: DirStage::InFile, ..top })
            &&& out.announce is None && out.ask is None && !out.cancel
            &&& out.file matches Some(f) && f.0 == (if top.src_rel.len() == 0 {
                name
            } else {
                top.src_rel + seq!['/'] + name
            }) && f.1 == (if top.dst_rel.len() == 0 {
                name
            } else {
                top.dst_rel + seq!['/'] + name
            })
        }),
{
    reveal_strlit("/");
    assert("/"@ =~= seq!['/']);
    let next = tree_next(m, DirReply::Entry(name, EntryKind::File), false).0;
    assert(next.frames.drop_last() =~= m.frames.drop_last());
}

/// What is neither a file nor a folder is left behind and counted, a link among the
/// links and anything else among the files, and the folder goes on.
pub proof fn law_what_is_not_copied_is_counted(m: TreeModel, name: Seq<char>, kind: EntryKind)
    requires
        tree_takes(m, DirReply::Entry(name, kind)),
        kind == EntryKind::Link || kind == EntryKind::Other,
    ensures
        ({
            let next = tree_next(m, DirReply::Entry(name, kind), false).0;
            &&& next.end is None && next.frames == m.frames
            &&& next.stats.files_copied == m.stats.files_copied
            &&& next.stats.symlinks_skipped == m.stats.symlinks_skipped + (if kind
                == EntryKind::Link {
                1int
            } else {
                0
            })
            &&& next.stats.files_skipped == m.stats.files_skipped + (if kind == EntryKind::Other {
                1int
            } else {
                0
            })
        }),
{
}

/// How many of the replies are entries of one kind.
pub open spec fn entries_of(log: TreeLog, kind: EntryKind) -> nat
    decreases log.len(),
{
    if log.len() == 0 {
        0
    } else {
        entries_of(log.drop_last(), kind) + (match log.last().0 {
            DirReply::Entry(_, k) => if k == kind {
                1nat
            } else {
                0
            },
            _ => 0,
        })
    }
}

/// How many of the replies say that an entry, or the kind of one, could not be read.
pub open spec fn entries_unread(log: TreeLog) -> nat
    decreases log.len(),
{
    if log.len() == 0 {
        0
    } else {
        entries_unread(log.drop_last()) + (if log.last().0 is EntryFailed || log.last().0
            is KindFailed {
            1nat
        } else {
            0
        })
    }
}

/// How many of the replies say that a file ended in this way.
pub open spec fn files_ended(log: TreeLog, end: JobEnd) -> nat
    decreases log.len(),
{
    if log.len() == 0 {
        0
    } else {
        files_ended(log.drop_last(), end) + (match log.last().0 {
            DirReply::File(e, _) => if e == end {
                1nat
            } else {
                0
            },
            _ => 0,
        })
    }
}

/// How many folders were announced with this status.
pub open spec fn folders_announced(m: TreeModel, log: TreeLog, status: DoneStatus) -> nat
    decreases log.len(),
{
    if log.len() == 0 {
        0
    } else {
        folders_announced(m, log.drop_last(), status) + (match tree_next(
            tree_run(m, log.drop_last()),
            log.last().0,
            log.last().1,
        ).1.announce {
            Some(d) => if d.is_dir && d.status == status {
                1nat
            } else {
                0
            },
            None => 0,
        })
    }
}

/// The innermost folder is at one of these stages.
spec fn waits_at(m: TreeModel, one: DirStage, other: DirStage) -> nat {
    if m.end is None && m.frames.len() > 0 && (m.frames.last().stage == one
        || m.frames.last().stage == other) {
        1
    } else {
        0
    }
}

#[verifier::spinoff_prover]
#[verifier::rlimit(40)]
proof fn lemma_all_accounted_for(
    system: System,
    src_rel: Seq<char>,
    dst_rel: Seq<char>,
    stats: CopyStats,
    log: TreeLog,
)
    requires
        tree_log(tree_start(system, src_rel, dst_rel, stats, false), log),
    ensures
        ({
            let m = tree_start(system, src_rel, dst_rel, stats, false);
            let now = tree_run(m, log);
            &&& now.end == Some(TreeEnd::Stopped) || {
                &&& entries_of(log, EntryKind::Folder) + 1 == folders_announced(
                    m,
                    log,
                    DoneStatus::Copied,
                ) + folders_announced(m, log, DoneStatus::Skipped) + now.frames.len()
                &&& entries_of(log, EntryKind::File) == files_ended(log, JobEnd::Copied)
                    + files_ended(log, JobEnd::Skipped) + waits_at(
                    now,
                    DirStage::InFile,
                    DirStage::InFile,
                )
                &&& files_ended(log, JobEnd::Stopped) == 0
                &&& now.stats.symlinks_skipped == stats.symlinks_skipped + entries_of(
                    log,
                    EntryKind::Link,
                )
                &&& now.stats.files_copied == stats.files_copied + files_ended(log, JobEnd::Copied)
                &&& now.stats.files_skipped + waits_at(now, DirStage::AskEntry, DirStage::AskKind)
                    == stats.files_skipped + files_ended(log, JobEnd::Skipped) + entries_of(
                    log,
                    EntryKind::Other,
                ) + entries_unread(log) + folders_announced(m, log, DoneStatus::Skipped)
            }
        }),
    decreases log.len(),
{
    let m = tree_start(system, src_rel, dst_rel, stats, false);
    if log.len() > 0 {
        lemma_all_accounted_for(system, src_rel, dst_rel, stats, log.drop_last());
        law_a_copy_never_gets_stuck(system, src_rel, dst_rel, stats, false, log.drop_last());
        let before = tree_run(m, log.drop_last());
        assert(tree_takes(before, log.last().0));
        // What the folder waited for decides which of the numbers move.
        match before.frames.last().stage {
            DirStage::NextEntry => {},
            DirStage::InFile => {},
            DirStage::AskEntry | DirStage::AskKind => {},
            _ => {},
        }
    }
}

/// Nothing is passed over: when a copy ends as done, every folder that was heard of was
/// gone through or left behind by choice, every file was copied or left behind, and the
/// counters hold one for each link, each file and each folder that was left behind, each
/// entry of another kind and each that could not be read. So where they stand at nought,
/// everything that was heard of has arrived.
pub proof fn law_nothing_is_passed_over(
    system: System,
    src_rel: Seq<char>,
    dst_rel: Seq<char>,
    stats: CopyStats,
    log: TreeLog,
)
    requires
        tree_log(tree_start(system, src_rel, dst_rel, stats, false), log),
        tree_run(tree_start(system, src_rel, dst_rel, stats, false), log).end == Some(
            TreeEnd::Done,
        ),
    ensures
        ({
            let m = tree_start(system, src_rel, dst_rel, stats, false);
            let now = tree_run(m, log).stats;
            let left = folders_announced(m, log, DoneStatus::Skipped);
            &&& entries_of(log, EntryKind::Folder) + 1 == folders_announced(
                m,
                log,
                DoneStatus::Copied,
            ) + left
            &&& entries_of(log, EntryKind::File) == files_ended(log, JobEnd::Copied) + files_ended(
                log,
                JobEnd::Skipped,
            )
            &&& now.files_copied == stats.files_copied + files_ended(log, JobEnd::Copied)
            &&& now.symlinks_skipped == stats.symlinks_skipped + entries_of(log, EntryKind::Link)
            &&& now.files_skipped == stats.files_skipped + files_ended(log, JobEnd::Skipped)
                + entries_of(log, EntryKind::Other) + entries_unread(log) + left
        }),
{
    lemma_all_accounted_for(system, src_rel, dst_rel, stats, log);
    law_a_copy_never_gets_stuck(system, src_rel, dst_rel, stats, false, log);
}

/// Every failure is asked about, with the position of what failed on either side, the
/// step that failed and the system's words; the answer is waited for next, and no
/// counter moves before it comes.
pub proof fn law_every_failure_is_asked_about(m: TreeModel, f: Fault<Seq<char>>, stop: bool)
    requires
        tree_takes(m, DirReply::Failed(f)),
        m.frames.last().stage != DirStage::Attributes,
    ensures
        ({
            let (next, out) = tree_next(m, DirReply::Failed(f), stop);
            let top = m.frames.last();
            let after = next.frames.last();
            &&& next.end is None && next.stats == m.stats && next.frames.len() == m.frames.len()
            &&& out.ask matches Some(q) && q.is_dir && q.src_rel == top.src_rel && q.dst_rel
                == top.dst_rel && q.reason == f.text && q.cause == crate::sys::cause(
                m.system,
                f.failure,
            ) && q.phase == (if top.stage == DirStage::OpenFolder {
                Phase::Readdir
            } else {
                Phase::Mkdir
            })
            &&& top.stage == DirStage::SetLinkAside ==> after.stage == DirStage::AskLink
            &&& top.stage == DirStage::MakeFolder && !top.aside ==> after.stage
                == DirStage::AskMake
            &&& top.stage == DirStage::OpenFolder ==> after.stage == DirStage::AskOpen
            &&& top.stage == DirStage::PutLinkBack ==> after.stage == DirStage::AskBack
            &&& top.stage == DirStage::DropLink ==> after.stage == DirStage::AskDrop
        }),
{
}

/// An entry that cannot be read is asked about too: by the position of the folder where
/// the entry itself did not come, and by its own where only its kind is unknown.
pub proof fn law_an_unread_entry_is_asked_about(
    m: TreeModel,
    name: Seq<char>,
    f: Fault<Seq<char>>,
)
    requires
        tree_takes(m, DirReply::EntryFailed(f)),
    ensures
        ({
            let (next, out) = tree_next(m, DirReply::EntryFailed(f), false);
            let top = m.frames.last();
            &&& next.end is None && next.stats == m.stats
            &&& next.frames.last().stage == DirStage::AskEntry
            &&& out.ask matches Some(q) && q.is_dir && q.src_rel == top.src_rel && q.dst_rel
                == top.dst_rel && q.phase == Phase::Readdir && q.reason == f.text
        }),
        ({
            let (next, out) = tree_next(m, DirReply::KindFailed(name, f), false);
            let top = m.frames.last();
            &&& next.end is None && next.stats == m.stats
            &&& next.frames.last().stage == DirStage::AskKind
            &&& out.ask matches Some(q) && !q.is_dir && q.src_rel == (if top.src_rel.len() == 0 {
                name
            } else {
                top.src_rel + seq!['/'] + name
            }) && q.dst_rel == (if top.dst_rel.len() == 0 {
                name
            } else {
                top.dst_rel + seq!['/'] + name
            }) && q.phase == Phase::Read && q.reason == f.text
        }),
{
    reveal_strlit("/");
    assert("/"@ =~= seq!['/']);
}

/// The answer is done as it was given. About a folder, trying again repeats the step that
/// failed, with nothing counted; leaving it behind counts it once, says so and goes on
/// around it; stopping ends the copy. About an entry that has gone by, everything but
/// stopping leaves it behind and counts it once.
pub proof fn law_the_answer_is_done(m: TreeModel, choice: ErrorChoice, stop: bool)
    requires
        tree_takes(m, DirReply::Choice(choice)),
    ensures
        ({
            let (next, out) = tree_next(m, DirReply::Choice(choice), stop);
            let top = m.frames.last();
            let after = next.frames.last();
            let stage = top.stage;
            let n = m.frames.len();
            let entry = stage == DirStage::AskEntry || stage == DirStage::AskKind;
            &&& choice == ErrorChoice::Abort ==> next.end == Some(TreeEnd::Stopped) && out.cancel
                && next.stats == m.stats
            &&& choice != ErrorChoice::Abort ==> !out.cancel && next.stats.files_copied
                == m.stats.files_copied && next.stats.symlinks_skipped == m.stats.symlinks_skipped
            &&& entry && choice != ErrorChoice::Abort ==> next.end is None
                && next.stats.files_skipped == m.stats.files_skipped + 1 && next.frames.len() == n
                && after == (Frame { stage: DirStage::NextEntry, ..top })
            &&& !entry && choice == ErrorChoice::Retry ==> next.end is None && next.stats == m.stats
                && next.frames.len() == n && after == (Frame { stage: after.stage, ..top })
                && after.stage == (match stage {
                DirStage::AskLink => DirStage::LookLink,
                DirStage::AskMake => DirStage::MakeFolder,
                DirStage::AskBack => DirStage::LookFolder,
                DirStage::AskDrop => DirStage::DropLink,
                _ => DirStage::OpenFolder,
            })
            &&& !entry && choice == ErrorChoice::Skip && stage != DirStage::AskDrop
                ==> next.stats.files_skipped == m.stats.files_skipped + 1 && next.frames.len() == n
                - 1 && (n == 1 ==> next.end == Some(TreeEnd::Done)) && (n > 1 ==> next.end is None
                && after.stage == DirStage::NextEntry) && (out.announce matches Some(d) && d.is_dir
                && d.status == DoneStatus::Skipped && d.src_rel == top.src_rel && d.dst_rel
                == top.dst_rel)
            &&& stage == DirStage::AskDrop && choice == ErrorChoice::Skip ==> next.stats == m.stats
                && next.end is None && after.stage == DirStage::OpenFolder
        }),
{
}

/// A folder is announced as created once it is there and before anything goes into it,
/// and whether this copy made it, and how many files there were by then, is kept for
/// later.
pub proof fn law_a_folder_is_there_before_its_contents(
    m: TreeModel,
    reply: DirReply<Seq<char>>,
    stop: bool,
)
    requires
        tree_takes(m, reply),
        tree_next(m, reply, stop).0.end is None,
        tree_next(m, reply, stop).0.frames.last().stage == DirStage::OpenFolder,
        m.frames.last().stage != DirStage::AskOpen,
    ensures
        ({
            let (next, out) = tree_next(m, reply, stop);
            let top = m.frames.last();
            let after = next.frames.last();
            &&& top.stage == DirStage::LookFolder && reply == DirReply::<Seq<char>>::Flag(true)
                || top.stage == DirStage::MakeFolder && reply is Done || top.stage
                == DirStage::DropLink && reply is Done || top.stage == DirStage::AskDrop
            &&& out.announce matches Some(d) && d.is_dir && d.status == DoneStatus::Created
                && d.src_rel == top.src_rel && d.dst_rel == top.dst_rel
            &&& after.copied_before == m.stats.files_copied && !after.aside
            &&& top.stage == DirStage::LookFolder ==> !after.created
            &&& top.stage == DirStage::MakeFolder ==> after.created
        }),
{
}

/// A folder is gone through in order: first whether a link stands at its destination,
/// which is set aside, then whether the destination is there, which is created if not,
/// then the source is opened and its entries come one after the other.
pub proof fn law_a_folder_goes_step_by_step(m: TreeModel, flag: bool, stop: bool)
    requires
        m.end is None,
        m.frames.len() > 0,
        m.stats.room(),
    ensures
        ({
            let at = m.frames.last().stage;
            let told = tree_next(m, DirReply::Flag(flag), stop).0;
            let done = tree_next(m, DirReply::Done, stop).0;
            let top = told.frames.last();
            &&& at == DirStage::LookLink ==> told.end is None && top.stage == (if flag {
                DirStage::SetLinkAside
            } else {
                DirStage::LookFolder
            })
            &&& at == DirStage::LookFolder && !flag ==> told.end is None && top.stage
                == DirStage::MakeFolder
            &&& at == DirStage::SetLinkAside ==> done.frames.last().stage == DirStage::LookFolder
                && done.frames.last().aside
            &&& at == DirStage::OpenFolder ==> done.frames.last().stage == DirStage::NextEntry
        }),
{
}

/// A source without further entries ends the folder: by way of its attributes where this
/// copy made the folder or brought a file since it was there, and at once otherwise. An
/// operation that was cancelled by then does not keep a folder from its end.
pub proof fn law_a_folder_ends_with_its_entries(m: TreeModel, stop: bool)
    requires
        tree_takes(m, DirReply::NoMore),
    ensures
        ({
            let (next, out) = tree_next(m, DirReply::NoMore, stop);
            let top = m.frames.last();
            let n = m.frames.len();
            &&& next.stats == m.stats
            &&& top.created || m.stats.files_copied > top.copied_before ==> next.end is None
                && next.frames.len() == n && next.frames.last() == (Frame {
                stage: DirStage::Attributes,
                ..top
            })
            &&& !top.created && m.stats.files_copied <= top.copied_before ==> next.frames.len() == n
                - 1 && (n == 1 <==> next.end == Some(TreeEnd::Done)) && (n > 1
                ==> next.frames.last().stage == DirStage::NextEntry) && (out.announce matches Some(
                d,
            ) && d.is_dir && d.status == DoneStatus::Copied && d.src_rel == top.src_rel
                && d.dst_rel == top.dst_rel)
        }),
{
}

/// A file that was seen to brings its counters, and the folder goes on unless the file
/// was stopped, which stops the folder.
pub proof fn law_a_file_brings_its_counters(
    m: TreeModel,
    end: JobEnd,
    stats: CopyStats,
    stop: bool,
)
    requires
        tree_takes(m, DirReply::File(end, stats)),
    ensures
        ({
            let next = tree_next(m, DirReply::File(end, stats), stop).0;
            &&& next.stats == stats
            &&& end == JobEnd::Stopped ==> next.end == Some(TreeEnd::Stopped)
            &&& end != JobEnd::Stopped ==> next.end is None && next.frames.len() == m.frames.len()
                && next.frames.last() == (Frame {
                stage: DirStage::NextEntry,
                ..m.frames.last()
            })
        }),
{
}

/// Whatever can come is taken, as long as no counter is at its end: every entry, at any
/// depth, and that there are no more; every answer to a question; that a call went
/// through, and that it failed; and what became of a file.
pub proof fn law_whatever_comes_is_taken(
    m: TreeModel,
    name: Seq<char>,
    kind: EntryKind,
    f: Fault<Seq<char>>,
    choice: ErrorChoice,
    flag: bool,
    end: JobEnd,
    stats: CopyStats,
)
    requires
        m.end is None,
        m.frames.len() > 0,
        m.stats.files_copied < u64::MAX,
        m.stats.files_skipped < u64::MAX,
        m.stats.symlinks_skipped < u64::MAX,
        m.stats.current_index < u64::MAX,
    ensures
        ({
            let at = m.frames.last().stage;
            let calls = at == DirStage::SetLinkAside || at == DirStage::MakeFolder || at
                == DirStage::PutLinkBack || at == DirStage::DropLink || at == DirStage::OpenFolder
                || at == DirStage::Attributes;
            let asks = at == DirStage::AskLink || at == DirStage::AskMake || at == DirStage::AskBack
                || at == DirStage::AskDrop || at == DirStage::AskOpen || at == DirStage::AskEntry
                || at == DirStage::AskKind;
            &&& at == DirStage::NextEntry ==> tree_takes(m, DirReply::Entry(name, kind))
                && tree_takes(m, DirReply::EntryFailed(f)) && tree_takes(
                m,
                DirReply::KindFailed(name, f),
            ) && tree_takes(m, DirReply::NoMore)
            &&& asks ==> tree_takes(m, DirReply::Choice(choice))
            &&& calls ==> tree_takes(m, DirReply::Done) && tree_takes(m, DirReply::Failed(f))
            &&& at == DirStage::LookLink || at == DirStage::LookFolder ==> tree_takes(
                m,
                DirReply::Flag(flag),
            )
            &&& at == DirStage::InFile && stats.symlinks_skipped == m.stats.symlinks_skipped
                && stats.files_copied == m.stats.files_copied + (if end == JobEnd::Copied {
                1int
            } else {
                0
            }) && stats.files_skipped == m.stats.files_skipped + (if end == JobEnd::Skipped {
                1int
            } else {
                0
            }) ==> tree_takes(m, DirReply::File(end, stats))
        }),
{
}

/// A copy begins with its folder at the first stage, at the positions that were given, and
/// is over at once where the operation was cancelled before.
pub proof fn law_a_copy_begins_at_its_folder(
    system: System,
    src_rel: Seq<char>,
    dst_rel: Seq<char>,
    stats: CopyStats,
    stop: bool,
)
    ensures
        ({
            let m = tree_start(system, src_rel, dst_rel, stats, stop);
            let top = m.frames.last();
            &&& m.frames.len() == 1 && m.stats == stats && m.system == system
            &&& top.src_rel == src_rel && top.dst_rel == dst_rel && top.stage == DirStage::LookLink
            &&& !top.aside && !top.created
            &&& stop <==> m.end == Some(TreeEnd::Stopped)
            &&& !stop <==> m.end is None
        }),
{
}

} // verus!
