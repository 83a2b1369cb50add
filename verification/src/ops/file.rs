//! One file, start to finish.
//!
//! A half-written file must never take the place of a good one: the copy goes
//! to a working file next to the destination and steps into place only once it
//! is whole. Cancelling, failing or dying halfway leaves the destination as it
//! was. Nothing is written through a link that stands there. Moving onto it does
//! not follow it; where the system refuses that, the link is set aside, and goes
//! for good only once the file is in place.
use vstd::prelude::*;

use super::{CopyStats, DoneStatus, ErrorChoice, OpErr, OpFileDone, OpFileError, Phase};
use crate::error::{FailureKind, Fault};
use crate::sys::System;

verus! {

/// How many bytes are read at a time.
pub const COPY_BUF_SIZE: u64 = 64 * 1024;

/// How many bytes pass between two progress reports.
pub const PROGRESS_EVERY_BYTES: u64 = 1024 * 1024;

/// What the disk answered, or the user where one is asked.
#[derive(Debug)]
pub enum Reply<S> {
    /// The call went through.
    Done,
    /// The call failed.
    Failed(Fault<S>),
    /// The size of the source.
    Size(u64),
    /// How many bytes were read; none at the end of the file.
    Bytes(u64),
    /// Whether something is so.
    Flag(bool),
    /// What the user wants to be done.
    Choice(ErrorChoice),
}

/// How an attempt ended.
#[derive(Debug)]
pub enum FileEnd<S> {
    /// The whole file is in place.
    Copied,
    /// Something failed.
    Failed(Phase, Fault<S>),
    /// The operation was cancelled.
    Stopped,
}

/// What is to be done next.
#[derive(Debug)]
pub enum FileStage<S> {
    /// Ask for the size of the source, through a link if it is one.
    Stat,
    /// Ask whether the folder around the destination is still to be created.
    Parent,
    /// Create that folder, and those above it.
    MakeParent,
    /// Open the source.
    Open,
    /// Create the working file.
    Create,
    /// Read the next chunk.
    Read,
    /// Write the chunk that was read, all of it.
    Write(u64),
    /// Flush what was written.
    Flush,
    /// Give the working file the time of the source, if the system lets it.
    Stamp,
    /// Move the working file onto the destination, a link there not followed.
    Rename,
    /// Ask whether the destination is a link, the move having been refused.
    LookLink(Fault<S>),
    /// Move that link to a name of its own beside the destination.
    SetLinkAside,
    /// Move the working file to where the link was.
    RenameOver,
    /// Move the link back, the attempt being about to end.
    PutLinkBack(FileEnd<S>),
    /// Ask the user about a link that did not go back. Leaving it keeps it where it
    /// was set aside.
    AskBack(Fault<S>, FileEnd<S>),
    /// Remove the link that was set aside, the file being in place.
    DropLink,
    /// Ask the user about a link that was set aside and cannot be removed. Leaving
    /// it keeps it there, beside the file.
    AskDrop(Fault<S>),
    /// Ask whether the destination is there, the move having been refused.
    LookDst(Fault<S>),
    /// Take the write protection off the destination.
    Unprotect(Fault<S>),
    /// Move the working file onto the destination, once more.
    RenameAgain,
    /// Give the destination the permissions of the source, if the system lets
    /// it.
    Permit,
    /// Remove the working file.
    Cleanup(FileEnd<S>),
    /// Nothing: the attempt is over.
    Ended(FileEnd<S>),
}

/// A progress report.
#[derive(Debug, Clone, Copy, PartialEq, Eq, Structural)]
pub struct Progress {
    /// Bytes written so far.
    pub bytes_done: u64,
    /// Bytes that the source had when the copy began.
    pub bytes_total: u64,
    /// Which attempt this is.
    pub current_index: u64,
}

/// An attempt to copy one file.
#[derive(Debug)]
pub struct FileCopy<S> {
    /// What is to be done next.
    pub stage: FileStage<S>,
    /// There may be a working file to clean up.
    pub armed: bool,
    /// Bytes that the source had when the copy began.
    pub bytes_total: u64,
    /// Bytes written so far.
    pub bytes_done: u64,
    /// Bytes written since the last progress report.
    pub since_emit: u64,
    /// The counters of the whole operation.
    pub stats: CopyStats,
}

/// The same attempt at another stage.
pub open spec fn at_stage<S>(m: FileCopy<S>, stage: FileStage<S>) -> FileCopy<S> {
    FileCopy { stage, ..m }
}

/// The attempt ends: by way of removing the working file where there is one.
pub open spec fn ending<S>(m: FileCopy<S>, end: FileEnd<S>) -> FileCopy<S> {
    if m.armed {
        at_stage(m, FileStage::Cleanup(end))
    } else {
        at_stage(m, FileStage::Ended(end))
    }
}

/// The folder is there: the attempt is counted and the source opened.
pub open spec fn opening<S>(m: FileCopy<S>) -> FileCopy<S> {
    FileCopy {
        stage: FileStage::Open,
        stats: CopyStats { current_index: (m.stats.current_index + 1) as u64, ..m.stats },
        ..m
    }
}

/// The next chunk, unless the operation was cancelled.
pub open spec fn reading<S>(m: FileCopy<S>, stop: bool) -> FileCopy<S> {
    if stop {
        ending(m, FileEnd::Stopped)
    } else {
        at_stage(m, FileStage::Read)
    }
}

/// The working file took the place of the destination: there is nothing left to
/// clean up.
pub open spec fn placed<S>(m: FileCopy<S>) -> FileCopy<S> {
    FileCopy { stage: FileStage::Permit, armed: false, ..m }
}

/// What the attempt has to report.
pub open spec fn report<S>(m: FileCopy<S>) -> Progress {
    Progress {
        bytes_done: m.bytes_done,
        bytes_total: m.bytes_total,
        current_index: m.stats.current_index,
    }
}

/// A failure ends the attempt; any other reply leads on.
pub open spec fn unless_failed<S>(
    m: FileCopy<S>,
    reply: Reply<S>,
    phase: Phase,
    on: FileCopy<S>,
) -> FileCopy<S> {
    match reply {
        Reply::Failed(f) => ending(m, FileEnd::Failed(phase, f)),
        _ => on,
    }
}

/// A chunk was written: the counters go up, and a progress report is due when
/// enough has been written since the last one.
pub open spec fn written<S>(m: FileCopy<S>, n: u64) -> (FileCopy<S>, Option<Progress>) {
    let done = FileCopy { bytes_done: (m.bytes_done + n) as u64, ..m };
    if m.since_emit + n >= PROGRESS_EVERY_BYTES {
        (FileCopy { since_emit: 0, ..done }, Some(report(done)))
    } else {
        (FileCopy { since_emit: (m.since_emit + n) as u64, ..done }, None)
    }
}

/// The attempt after a reply, while there is nothing but preparation.
pub open spec fn prepare_next<S>(m: FileCopy<S>, reply: Reply<S>, stop: bool) -> FileCopy<S> {
    match m.stage {
        FileStage::Stat => match reply {
            Reply::Size(n) => FileCopy { stage: FileStage::Parent, bytes_total: n, ..m },
            Reply::Failed(f) => ending(m, FileEnd::Failed(Phase::Read, f)),
            _ => m,
        },
        FileStage::Parent => if reply == Reply::<S>::Flag(true) {
            at_stage(m, FileStage::MakeParent)
        } else {
            opening(m)
        },
        FileStage::MakeParent => unless_failed(m, reply, Phase::Mkdir, opening(m)),
        FileStage::Open => unless_failed(
            m,
            reply,
            Phase::Read,
            FileCopy { stage: FileStage::Create, armed: true, ..m },
        ),
        _ => unless_failed(m, reply, Phase::Write, reading(m, stop)),
    }
}

/// The attempt after a reply, once the whole file is written.
pub open spec fn place_next<S>(m: FileCopy<S>, reply: Reply<S>) -> FileCopy<S> {
    match m.stage {
        FileStage::Flush => unless_failed(m, reply, Phase::Write, at_stage(m, FileStage::Stamp)),
        FileStage::Stamp => at_stage(m, FileStage::Rename),
        FileStage::Rename => match reply {
            Reply::Failed(f) => at_stage(m, FileStage::LookLink(f)),
            _ => placed(m),
        },
        FileStage::LookLink(first) => if reply == Reply::<S>::Flag(true) {
            at_stage(m, FileStage::SetLinkAside)
        } else if first.failure.kind == FailureKind::PermissionDenied {
            at_stage(m, FileStage::LookDst(first))
        } else {
            ending(m, FileEnd::Failed(Phase::Write, first))
        },
        FileStage::LookDst(first) => if reply == Reply::<S>::Flag(true) {
            at_stage(m, FileStage::Unprotect(first))
        } else {
            ending(m, FileEnd::Failed(Phase::Write, first))
        },
        FileStage::Unprotect(first) => if reply is Failed {
            ending(m, FileEnd::Failed(Phase::Write, first))
        } else {
            at_stage(m, FileStage::RenameAgain)
        },
        _ => unless_failed(m, reply, Phase::Write, placed(m)),
    }
}

/// The attempt after a reply, while a link stands in the way of the whole file or
/// has been set aside for it.
pub open spec fn link_next<S>(m: FileCopy<S>, reply: Reply<S>) -> FileCopy<S> {
    match m.stage {
        FileStage::SetLinkAside => unless_failed(
            m,
            reply,
            Phase::Write,
            at_stage(m, FileStage::RenameOver),
        ),
        FileStage::RenameOver => match reply {
            Reply::Failed(f) => at_stage(
                m,
                FileStage::PutLinkBack(FileEnd::Failed(Phase::Write, f)),
            ),
            _ => FileCopy { stage: FileStage::DropLink, armed: false, ..m },
        },
        FileStage::PutLinkBack(end) => match reply {
            Reply::Failed(f) => at_stage(m, FileStage::AskBack(f, end)),
            _ => ending(m, end),
        },
        FileStage::AskBack(_, end) => match reply {
            Reply::Choice(ErrorChoice::Retry) => at_stage(m, FileStage::PutLinkBack(end)),
            Reply::Choice(ErrorChoice::Abort) => ending(m, FileEnd::Stopped),
            _ => ending(m, end),
        },
        FileStage::DropLink => match reply {
            Reply::Failed(f) => at_stage(m, FileStage::AskDrop(f)),
            _ => at_stage(m, FileStage::Permit),
        },
        _ => match reply {
            Reply::Choice(ErrorChoice::Retry) => at_stage(m, FileStage::DropLink),
            _ => at_stage(m, FileStage::Permit),
        },
    }
}

/// The stages of a link that stands in the way.
pub open spec fn about_link<S>(stage: FileStage<S>) -> bool {
    stage is SetLinkAside || stage is RenameOver || stage is PutLinkBack || stage is AskBack
        || stage is DropLink || stage is AskDrop
}

/// The attempt after a reply, and the progress report that goes out with it.
pub open spec fn file_next<S>(m: FileCopy<S>, reply: Reply<S>, stop: bool) -> (
    FileCopy<S>,
    Option<Progress>,
) {
    match m.stage {
        FileStage::Read => match reply {
            Reply::Bytes(0) => (at_stage(m, FileStage::Flush), None),
            Reply::Bytes(n) => (at_stage(m, FileStage::Write(n)), None),
            _ => (unless_failed(m, reply, Phase::Read, m), None),
        },
        FileStage::Write(n) => match reply {
            Reply::Failed(f) => (ending(m, FileEnd::Failed(Phase::Write, f)), None),
            _ => (reading(written(m, n).0, stop), written(m, n).1),
        },
        FileStage::Permit => (
            FileCopy {
                stage: FileStage::Ended(FileEnd::Copied),
                stats: CopyStats { files_copied: (m.stats.files_copied + 1) as u64, ..m.stats },
                ..m
            },
            Some(report(m)),
        ),
        FileStage::Cleanup(end) => (
            FileCopy { stage: FileStage::Ended(end), armed: false, ..m },
            None,
        ),
        FileStage::Ended(_) => (m, None),
        FileStage::Stat | FileStage::Parent | FileStage::MakeParent | FileStage::Open
        | FileStage::Create => (prepare_next(m, reply, stop), None),
        _ => if about_link(m.stage) {
            (link_next(m, reply), None)
        } else {
            (place_next(m, reply), None)
        },
    }
}

impl<S> FileCopy<S> {
    /// The byte counters hold together, and what is being written fits.
    pub open spec fn wf(self) -> bool {
        &&& self.since_emit <= self.bytes_done
        &&& self.stage matches FileStage::Write(n) ==> 0 < n && self.bytes_done + n <= u64::MAX
    }

    /// The reply answers what was asked, and the counters have room for it.
    pub open spec fn takes(self, reply: Reply<S>) -> bool {
        &&& self.wf()
        &&& self.stats.room()
        &&& match self.stage {
            FileStage::Stat => reply is Size || reply is Failed,
            FileStage::Parent | FileStage::LookLink(_) | FileStage::LookDst(_) => reply is Flag,
            FileStage::Read => match reply {
                Reply::Bytes(n) => self.bytes_done + n <= u64::MAX,
                Reply::Failed(_) => true,
                _ => false,
            },
            FileStage::AskBack(_, _) | FileStage::AskDrop(_) => reply is Choice,
            FileStage::Ended(_) => false,
            _ => reply is Done || reply is Failed,
        }
    }

    /// A fresh attempt.
    pub fn new(stats: CopyStats) -> (r: Self)
        ensures
            r == (FileCopy::<S> {
                stage: FileStage::Stat,
                armed: false,
                bytes_total: 0,
                bytes_done: 0,
                since_emit: 0,
                stats,
            }),
            r.wf(),
    {
        FileCopy {
            stage: FileStage::Stat,
            armed: false,
            bytes_total: 0,
            bytes_done: 0,
            since_emit: 0,
            stats,
        }
    }

    /// Whether a reply answers what was asked, and the counters have room.
    pub fn accepts(&self, reply: &Reply<S>) -> (r: bool)
        requires
            self.wf(),
        ensures
            r == self.takes(*reply),
    {
        self.stats.has_room() && match &self.stage {
            FileStage::Stat => matches!(reply, Reply::Size(_)) || matches!(reply, Reply::Failed(_)),
            FileStage::Parent | FileStage::LookLink(_) | FileStage::LookDst(_) => matches!(
                reply,
                Reply::Flag(_)
            ),
            FileStage::Read => match reply {
                Reply::Bytes(n) => *n <= u64::MAX - self.bytes_done,
                Reply::Failed(_) => true,
                _ => false,
            },
            FileStage::AskBack(_, _) | FileStage::AskDrop(_) => matches!(reply, Reply::Choice(_)),
            FileStage::Ended(_) => false,
            _ => matches!(reply, Reply::Done) || matches!(reply, Reply::Failed(_)),
        }
    }

    /// The same attempt at another stage.
    fn to_stage(self, stage: FileStage<S>) -> (r: Self)
        ensures
            r == at_stage(self, stage),
    {
        let mut m = self;
        m.stage = stage;
        m
    }

    /// The attempt on its way to its end.
    fn end(self, end: FileEnd<S>) -> (r: Self)
        ensures
            r == ending(self, end),
    {
        if self.armed {
            self.to_stage(FileStage::Cleanup(end))
        } else {
            self.to_stage(FileStage::Ended(end))
        }
    }

    /// The attempt is counted and the source opened.
    fn open(self) -> (r: Self)
        requires
            self.stats.room(),
        ensures
            r == opening(self),
    {
        let mut m = self;
        m.stage = FileStage::Open;
        m.stats.current_index = m.stats.current_index + 1;
        m
    }

    /// The next chunk, unless the operation was cancelled.
    fn read_on(self, stop: bool) -> (r: Self)
        ensures
            r == reading(self, stop),
    {
        if stop {
            self.end(FileEnd::Stopped)
        } else {
            self.to_stage(FileStage::Read)
        }
    }

    /// The working file became the destination.
    fn place(self) -> (r: Self)
        ensures
            r == placed(self),
    {
        let mut m = self;
        m.stage = FileStage::Permit;
        m.armed = false;
        m
    }

    /// A failure ends the attempt; any other reply leads to another stage.
    fn go_on(self, reply: Reply<S>, phase: Phase, stage: FileStage<S>) -> (r: Self)
        ensures
            r == unless_failed(self, reply, phase, at_stage(self, stage)),
    {
        match reply {
            Reply::Failed(f) => self.end(FileEnd::Failed(phase, f)),
            _ => self.to_stage(stage),
        }
    }

    /// The preparation after a reply.
    fn prepare(self, reply: Reply<S>, stop: bool) -> (r: Self)
        requires
            self.takes(reply),
            self.stage is Stat || self.stage is Parent || self.stage is MakeParent
                || self.stage is Open || self.stage is Create,
        ensures
            r == prepare_next(self, reply, stop),
            r.wf(),
    {
        match self.stage {
            FileStage::Stat => match reply {
                Reply::Size(n) => {
                    let mut m = self;
                    m.bytes_total = n;
                    m.stage = FileStage::Parent;
                    m
                },
                Reply::Failed(f) => self.end(FileEnd::Failed(Phase::Read, f)),
                _ => self,
            },
            FileStage::Parent => match reply {
                Reply::Flag(true) => self.to_stage(FileStage::MakeParent),
                _ => self.open(),
            },
            FileStage::MakeParent => match reply {
                Reply::Failed(f) => self.end(FileEnd::Failed(Phase::Mkdir, f)),
                _ => self.open(),
            },
            FileStage::Open => match reply {
                Reply::Failed(f) => self.end(FileEnd::Failed(Phase::Read, f)),
                _ => {
                    let mut m = self;
                    m.armed = true;
                    m.stage = FileStage::Create;
                    m
                },
            },
            _ => match reply {
                Reply::Failed(f) => self.end(FileEnd::Failed(Phase::Write, f)),
                _ => self.read_on(stop),
            },
        }
    }

    /// The steps into place after a reply.
    fn step_into_place(self, reply: Reply<S>) -> (r: Self)
        requires
            self.takes(reply),
            self.stage is Flush || self.stage is Stamp || self.stage is Rename
                || self.stage is LookLink || self.stage is LookDst || self.stage is Unprotect
                || self.stage is RenameAgain,
        ensures
            r == place_next(self, reply),
            r.wf(),
    {
        let FileCopy { stage, armed, bytes_total, bytes_done, since_emit, stats } = self;
        let m = FileCopy {
            stage: FileStage::Rename,
            armed,
            bytes_total,
            bytes_done,
            since_emit,
            stats,
        };
        match stage {
            FileStage::Flush => m.go_on(reply, Phase::Write, FileStage::Stamp),
            FileStage::Stamp => m.to_stage(FileStage::Rename),
            FileStage::Rename => match reply {
                Reply::Failed(f) => m.to_stage(FileStage::LookLink(f)),
                _ => m.place(),
            },
            FileStage::LookLink(first) => match reply {
                Reply::Flag(true) => m.to_stage(FileStage::SetLinkAside),
                _ => {
                    if first.failure.kind == FailureKind::PermissionDenied {
                        m.to_stage(FileStage::LookDst(first))
                    } else {
                        m.end(FileEnd::Failed(Phase::Write, first))
                    }
                },
            },
            FileStage::LookDst(first) => match reply {
                Reply::Flag(true) => m.to_stage(FileStage::Unprotect(first)),
                _ => m.end(FileEnd::Failed(Phase::Write, first)),
            },
            FileStage::Unprotect(first) => match reply {
                Reply::Failed(_) => m.end(FileEnd::Failed(Phase::Write, first)),
                _ => m.to_stage(FileStage::RenameAgain),
            },
            _ => match reply {
                Reply::Failed(f) => m.end(FileEnd::Failed(Phase::Write, f)),
                _ => m.place(),
            },
        }
    }

    /// The steps round a link after a reply.
    fn step_round_link(self, reply: Reply<S>) -> (r: Self)
        requires
            self.takes(reply),
            about_link(self.stage),
        ensures
            r == link_next(self, reply),
            r.wf(),
    {
        let FileCopy { stage, armed, bytes_total, bytes_done, since_emit, stats } = self;
        let mut m = FileCopy {
            stage: FileStage::DropLink,
            armed,
            bytes_total,
            bytes_done,
            since_emit,
            stats,
        };
        match stage {
            FileStage::SetLinkAside => m.go_on(reply, Phase::Write, FileStage::RenameOver),
            FileStage::RenameOver => match reply {
                Reply::Failed(f) => m.to_stage(
                    FileStage::PutLinkBack(FileEnd::Failed(Phase::Write, f)),
                ),
                _ => {
                    m.armed = false;
                    m
                },
            },
            FileStage::PutLinkBack(end) => match reply {
                Reply::Failed(f) => m.to_stage(FileStage::AskBack(f, end)),
                _ => m.end(end),
            },
            FileStage::AskBack(_, end) => match reply {
                Reply::Choice(ErrorChoice::Retry) => m.to_stage(FileStage::PutLinkBack(end)),
                Reply::Choice(ErrorChoice::Abort) => m.end(FileEnd::Stopped),
                _ => m.end(end),
            },
            FileStage::DropLink => match reply {
                Reply::Failed(f) => m.to_stage(FileStage::AskDrop(f)),
                _ => m.to_stage(FileStage::Permit),
            },
            _ => match reply {
                Reply::Choice(ErrorChoice::Retry) => m,
                _ => m.to_stage(FileStage::Permit),
            },
        }
    }

    /// The attempt after a reply. `stop` says whether the operation
    /// was cancelled by then. The progress report goes out at once.
    pub fn next(self, reply: Reply<S>, stop: bool) -> (r: (Self, Option<Progress>))
        requires
            self.takes(reply),
        ensures
            r == file_next(self, reply, stop),
            r.0.wf(),
    {
        match self.stage {
            FileStage::Read => match reply {
                Reply::Bytes(n) => {
                    if n == 0 {
                        (self.to_stage(FileStage::Flush), None)
                    } else {
                        (self.to_stage(FileStage::Write(n)), None)
                    }
                },
                _ => (self.go_on(reply, Phase::Read, FileStage::Read), None),
            },
            FileStage::Write(n) => match reply {
                Reply::Failed(f) => (self.end(FileEnd::Failed(Phase::Write, f)), None),
                _ => {
                    let mut m = self;
                    m.bytes_done = m.bytes_done + n;
                    m.since_emit = m.since_emit + n;
                    let mut due: Option<Progress> = None;
                    if m.since_emit >= PROGRESS_EVERY_BYTES {
                        due =
                        Some(
                            Progress {
                                bytes_done: m.bytes_done,
                                bytes_total: m.bytes_total,
                                current_index: m.stats.current_index,
                            },
                        );
                        m.since_emit = 0;
                    }
                    (m.read_on(stop), due)
                },
            },
            FileStage::Permit => {
                let mut m = self;
                let p = Progress {
                    bytes_done: m.bytes_done,
                    bytes_total: m.bytes_total,
                    current_index: m.stats.current_index,
                };
                m.stats.files_copied = m.stats.files_copied + 1;
                (m.to_stage(FileStage::Ended(FileEnd::Copied)), Some(p))
            },
            FileStage::Cleanup(_) => {
                let FileCopy { stage, armed, bytes_total, bytes_done, since_emit, stats } = self;
                let ended = match stage {
                    FileStage::Cleanup(end) => FileStage::Ended(end),
                    other => other,
                };
                (
                    FileCopy {
                        stage: ended,
                        armed: false,
                        bytes_total,
                        bytes_done,
                        since_emit,
                        stats,
                    },
                    None,
                )
            },
            FileStage::Stat
            | FileStage::Parent
            | FileStage::MakeParent
            | FileStage::Open
            | FileStage::Create => (self.prepare(reply, stop), None),
            FileStage::SetLinkAside
            | FileStage::RenameOver
            | FileStage::PutLinkBack(_)
            | FileStage::AskBack(_, _)
            | FileStage::DropLink
            | FileStage::AskDrop(_) => (self.step_round_link(reply), None),
            _ => (self.step_into_place(reply), None),
        }
    }
}

/// A file on its way: being copied, waiting for an answer, or finished.
#[derive(Debug)]
pub enum FileJob<S> {
    /// An attempt is under way.
    Copying(FileCopy<S>),
    /// An attempt failed, and the user is asked what to do.
    Asking(Phase, Fault<S>, CopyStats),
    /// The file is done with.
    Ended(JobEnd, CopyStats),
}

/// What became of a file.
#[derive(Debug, Clone, Copy, PartialEq, Eq, Structural)]
pub enum JobEnd {
    /// It arrived whole.
    Copied,
    /// It was left behind.
    Skipped,
    /// The operation was cancelled.
    Stopped,
}

/// What follows an attempt: a finished one ends the job, a failed one asks.
pub open spec fn settled<S>(copy: FileCopy<S>) -> FileJob<S> {
    match copy.stage {
        FileStage::Ended(FileEnd::Copied) => FileJob::Ended(JobEnd::Copied, copy.stats),
        FileStage::Ended(FileEnd::Stopped) => FileJob::Ended(JobEnd::Stopped, copy.stats),
        FileStage::Ended(FileEnd::Failed(phase, fault)) => FileJob::Asking(
            phase,
            fault,
            copy.stats,
        ),
        _ => FileJob::Copying(copy),
    }
}

/// The first stage of an attempt.
pub open spec fn fresh<S>(stats: CopyStats) -> FileCopy<S> {
    FileCopy {
        stage: FileStage::Stat,
        armed: false,
        bytes_total: 0,
        bytes_done: 0,
        since_emit: 0,
        stats,
    }
}

/// What follows an answer: another attempt, the file left behind, or the end of
/// everything.
pub open spec fn answered<S>(choice: ErrorChoice, stats: CopyStats) -> FileJob<S> {
    match choice {
        ErrorChoice::Retry => FileJob::Copying(fresh(stats)),
        ErrorChoice::Skip => FileJob::Ended(JobEnd::Skipped, stats.skipped_one()),
        ErrorChoice::Abort => FileJob::Ended(JobEnd::Stopped, stats),
    }
}

impl<S> FileJob<S> {
    /// A file to be copied.
    pub fn new(stats: CopyStats) -> (r: Self)
        ensures
            r == FileJob::Copying(fresh::<S>(stats)),
    {
        FileJob::Copying(FileCopy::new(stats))
    }

    /// What follows an attempt that may have ended.
    pub fn settle(copy: FileCopy<S>) -> (r: Self)
        ensures
            r == settled(copy),
    {
        let FileCopy { stage, armed, bytes_total, bytes_done, since_emit, stats } = copy;
        match stage {
            FileStage::Ended(end) => match end {
                FileEnd::Copied => FileJob::Ended(JobEnd::Copied, stats),
                FileEnd::Stopped => FileJob::Ended(JobEnd::Stopped, stats),
                FileEnd::Failed(phase, fault) => FileJob::Asking(phase, fault, stats),
            },
            stage => FileJob::Copying(
                FileCopy { stage, armed, bytes_total, bytes_done, since_emit, stats },
            ),
        }
    }

    /// What follows an answer. Aborting also cancels the whole operation.
    pub fn answer(choice: ErrorChoice, stats: CopyStats) -> (r: Self)
        requires
            stats.room(),
        ensures
            r == answered::<S>(choice, stats),
    {
        match choice {
            ErrorChoice::Retry => FileJob::Copying(FileCopy::new(stats)),
            ErrorChoice::Skip => {
                let mut s = stats;
                s.files_skipped = s.files_skipped + 1;
                FileJob::Ended(JobEnd::Skipped, s)
            },
            ErrorChoice::Abort => FileJob::Ended(JobEnd::Stopped, stats),
        }
    }
}

/// The question about a file that failed.
pub open spec fn question(
    system: System,
    phase: Phase,
    fault: Fault<Seq<char>>,
    src_rel: Seq<char>,
    dst_rel: Seq<char>,
) -> OpFileError<Seq<char>> {
    OpFileError {
        src_rel,
        dst_rel,
        is_dir: false,
        phase,
        cause: crate::sys::cause(system, fault.failure),
        reason: super::tail_of(system, fault),
    }
}

/// Asks about a file that failed.
pub fn ask_about_file(
    system: System,
    phase: Phase,
    fault: &Fault<String>,
    src_rel: &str,
    dst_rel: &str,
) -> (r: OpFileError<String>)
    ensures
        r.model() == question(system, phase, fault.model(), src_rel@, dst_rel@),
{
    let e = OpErr::at(system, phase, fault);
    OpFileError {
        src_rel: src_rel.to_owned(),
        dst_rel: dst_rel.to_owned(),
        is_dir: false,
        phase: e.phase,
        cause: e.cause.to_owned(),
        reason: e.detail,
    }
}

/// The announcement of a finished file; a cancelled one is not announced.
pub open spec fn announcement(end: JobEnd, src_rel: Seq<char>, dst_rel: Seq<char>) -> Option<
    OpFileDone<Seq<char>>,
> {
    match end {
        JobEnd::Copied => Some(
            OpFileDone { src_rel, dst_rel, is_dir: false, status: DoneStatus::Copied },
        ),
        JobEnd::Skipped => Some(
            OpFileDone { src_rel, dst_rel, is_dir: false, status: DoneStatus::Skipped },
        ),
        JobEnd::Stopped => None,
    }
}

/// Announces a finished file.
pub fn announce_file(end: JobEnd, src_rel: &str, dst_rel: &str) -> (r: Option<OpFileDone<String>>)
    ensures
        match r {
            Some(d) => announcement(end, src_rel@, dst_rel@) == Some(d.model()),
            None => announcement(end, src_rel@, dst_rel@) is None,
        },
{
    let status = match end {
        JobEnd::Copied => DoneStatus::Copied,
        JobEnd::Skipped => DoneStatus::Skipped,
        JobEnd::Stopped => {
            return None;
        },
    };
    Some(
        OpFileDone {
            src_rel: src_rel.to_owned(),
            dst_rel: dst_rel.to_owned(),
            is_dir: false,
            status,
        },
    )
}

/// What the disk answered over time, each time with whether the operation was
/// cancelled by then.
pub type Log<S> = Seq<(Reply<S>, bool)>;

/// The attempt after all the replies of a log.
pub open spec fn file_run<S>(m: FileCopy<S>, log: Log<S>) -> FileCopy<S>
    decreases log.len(),
{
    if log.len() == 0 {
        m
    } else {
        file_next(file_run(m, log.drop_last()), log.last().0, log.last().1).0
    }
}

/// Every reply of the log answers what was asked at its time.
pub open spec fn file_log<S>(m: FileCopy<S>, log: Log<S>) -> bool
    decreases log.len(),
{
    log.len() == 0 || (file_log(m, log.drop_last()) && file_run(m, log.drop_last()).takes(
        log.last().0,
    ))
}

/// All the bytes that were read.
pub open spec fn bytes_read<S>(log: Log<S>) -> nat
    decreases log.len(),
{
    if log.len() == 0 {
        0
    } else {
        bytes_read(log.drop_last()) + (match log.last().0 {
            Reply::Bytes(n) => n as nat,
            _ => 0,
        })
    }
}

/// The source was read to its end.
pub open spec fn read_to_the_end<S>(log: Log<S>) -> bool {
    exists|k: int| 0 <= k < log.len() && (#[trigger] log[k]).0 == Reply::<S>::Bytes(0)
}

/// A move onto the destination went through.
pub open spec fn moved_into_place<S>(m: FileCopy<S>, log: Log<S>) -> bool
    decreases log.len(),
{
    log.len() > 0 && (moved_into_place(m, log.drop_last()) || {
        let before = file_run(m, log.drop_last());
        (before.stage is Rename || before.stage is RenameAgain || before.stage is RenameOver)
            && log.last().0 is Done
    })
}

/// A link was set aside, and has neither gone back nor been removed since.
pub open spec fn link_aside<S>(m: FileCopy<S>, log: Log<S>) -> bool
    decreases log.len(),
{
    log.len() > 0 && {
        let stage = file_run(m, log.drop_last()).stage;
        if log.last().0 is Done && (stage is PutLinkBack || stage is DropLink) {
            false
        } else {
            link_aside(m, log.drop_last()) || (stage is SetLinkAside && log.last().0 is Done)
        }
    }
}

/// The user was asked about a link that was set aside, and wanted no other try.
pub open spec fn link_left<S>(m: FileCopy<S>, log: Log<S>) -> bool
    decreases log.len(),
{
    log.len() > 0 && (link_left(m, log.drop_last()) || {
        let stage = file_run(m, log.drop_last()).stage;
        (stage is AskBack || stage is AskDrop) && log.last().0 != Reply::<S>::Choice(
            ErrorChoice::Retry,
        )
    })
}

/// The stages from which the working file is to take the place of the
/// destination.
pub open spec fn placing<S>(stage: FileStage<S>) -> bool {
    stage is Flush || stage is Stamp || stage is Rename || stage is LookLink || stage is LookDst
        || stage is Unprotect || stage is RenameAgain || stage is SetLinkAside || stage
        is RenameOver || in_place(stage)
}

/// The stages at which the whole file stands at the destination.
pub open spec fn in_place<S>(stage: FileStage<S>) -> bool {
    stage is DropLink || stage is AskDrop || stage is Permit || stage == FileStage::<S>::Ended(
        FileEnd::Copied,
    )
}

/// The stages at which a link lies beside the destination.
spec fn holds_link<S>(stage: FileStage<S>) -> bool {
    about_link(stage) && !(stage is SetLinkAside)
}

/// How an attempt is going to end, once that is settled.
pub open spec fn end_to_come<S>(stage: FileStage<S>) -> Option<FileEnd<S>> {
    match stage {
        FileStage::PutLinkBack(end) => Some(end),
        FileStage::AskBack(_, end) => Some(end),
        FileStage::Cleanup(end) => Some(end),
        _ => None,
    }
}

/// What holds of an attempt at every moment.
spec fn file_invariant<S>(start: FileCopy<S>, log: Log<S>) -> bool {
    let m = file_run(start, log);
    &&& m.wf()
    &&& m.armed == (m.stage is Create || m.stage is Read || m.stage is Write || m.stage is Cleanup
        || m.stage is PutLinkBack || m.stage is AskBack || (placing(m.stage) && !in_place(m.stage)))
    &&& end_to_come(m.stage) != Some(FileEnd::<S>::Copied)
    &&& link_left(start, log) ==> m.stage is Cleanup || m.stage is Permit || m.stage is Ended
    &&& link_aside(start, log) == (holds_link(m.stage) || link_left(start, log))
    &&& (m.stage is Stat || m.stage is Parent || m.stage is MakeParent || m.stage is Open
        || m.stage is Create) ==> m.bytes_done == 0 && bytes_read(log) == 0
    &&& m.stage is Read ==> m.bytes_done == bytes_read(log)
    &&& m.stage matches FileStage::Write(n) ==> m.bytes_done + n == bytes_read(log)
    &&& placing(m.stage) ==> m.bytes_done == bytes_read(log) && read_to_the_end(log)
    &&& moved_into_place(start, log) == in_place(m.stage)
    &&& m.stats.files_skipped == start.stats.files_skipped
    &&& m.stats.symlinks_skipped == start.stats.symlinks_skipped
    &&& m.stats.files_copied == start.stats.files_copied + (if m.stage
        == FileStage::<S>::Ended(FileEnd::Copied) {
        1int
    } else {
        0
    })
}

proof fn lemma_file_invariant<S>(stats: CopyStats, log: Log<S>)
    requires
        file_log(fresh::<S>(stats), log),
    ensures
        file_invariant(fresh::<S>(stats), log),
    decreases log.len(),
{
    let start = fresh::<S>(stats);
    if log.len() > 0 {
        let before = log.drop_last();
        lemma_file_invariant(stats, before);
        let m = file_run(start, before);
        let reply = log.last().0;
        if read_to_the_end(before) {
            let k = choose|k: int| 0 <= k < before.len() && (#[trigger] before[k]).0 == Reply::<
                S,
            >::Bytes(0);
            assert(log[k] == before[k]);
            assert(read_to_the_end(log));
        }
        if m.stage is Read && reply == Reply::<S>::Bytes(0) {
            assert(log[log.len() - 1].0 == Reply::<S>::Bytes(0));
            assert(read_to_the_end(log));
        }
        assert(file_invariant(start, log));
    }
}

/// Only a whole file takes the place of the destination: whenever the working file
/// is about to be moved there, or has been, the source was read to its end and
/// every byte that was read has been written.
pub proof fn law_only_a_whole_file_is_placed<S>(stats: CopyStats, log: Log<S>)
    requires
        file_log(fresh::<S>(stats), log),
        ({
            let m = file_run(fresh::<S>(stats), log);
            m.stage is Rename || m.stage is RenameAgain || m.stage is RenameOver
                || moved_into_place(fresh::<S>(stats), log)
        }),
    ensures
        read_to_the_end(log),
        file_run(fresh::<S>(stats), log).bytes_done == bytes_read(log),
{
    lemma_file_invariant(stats, log);
}

/// What stood at the destination, a link or anything else, is gone for good after
/// this stage if the call goes through, or the working file stands in its place.
/// There is no other stage at which that happens.
pub open spec fn replaces<S>(stage: FileStage<S>) -> bool {
    match stage {
        FileStage::Rename | FileStage::RenameAgain | FileStage::RenameOver
        | FileStage::DropLink => true,
        FileStage::Stat
        | FileStage::Parent
        | FileStage::MakeParent
        | FileStage::Open
        | FileStage::Create
        | FileStage::Read
        | FileStage::Write(_)
        | FileStage::Flush
        | FileStage::Stamp
        | FileStage::LookLink(_)
        | FileStage::SetLinkAside
        | FileStage::PutLinkBack(_)
        | FileStage::AskBack(_, _)
        | FileStage::AskDrop(_)
        | FileStage::LookDst(_)
        | FileStage::Unprotect(_)
        | FileStage::Permit
        | FileStage::Cleanup(_)
        | FileStage::Ended(_) => false,
    }
}

/// Giving up leaves nothing behind: however an attempt ends, no working file
/// remains to be cleaned up, and unless the file was copied nothing that stood at
/// the destination has gone, a link included. A link that was set aside on the way
/// is back, unless the system refused that and the user wanted no other try.
pub proof fn law_giving_up_leaves_the_destination_alone<S>(stats: CopyStats, log: Log<S>)
    requires
        file_log(fresh::<S>(stats), log),
        file_run(fresh::<S>(stats), log).stage is Ended,
    ensures
        !file_run(fresh::<S>(stats), log).armed,
        moved_into_place(fresh::<S>(stats), log) <==> file_run(fresh::<S>(stats), log).stage
            == FileStage::<S>::Ended(FileEnd::Copied),
        link_aside(fresh::<S>(stats), log) <==> link_left(fresh::<S>(stats), log),
        file_run(fresh::<S>(stats), log).stage != FileStage::<S>::Ended(FileEnd::Copied) ==> forall|
            k: int,
        |
            0 <= k < log.len() && #[trigger] replaces(file_run(fresh::<S>(stats), log.take(k)).stage)
                ==> !(log[k].0 is Done),
{
    lemma_file_invariant(stats, log);
    if !moved_into_place(fresh::<S>(stats), log) {
        lemma_not_moved(stats, log);
    }
}

proof fn lemma_not_moved<S>(stats: CopyStats, log: Log<S>)
    requires
        file_log(fresh::<S>(stats), log),
        !moved_into_place(fresh::<S>(stats), log),
    ensures
        forall|k: int|
            0 <= k < log.len() && #[trigger] replaces(file_run(fresh::<S>(stats), log.take(k)).stage)
                ==> !(log[k].0 is Done),
    decreases log.len(),
{
    let m = fresh::<S>(stats);
    if log.len() > 0 {
        let before = log.drop_last();
        lemma_not_moved(stats, before);
        lemma_file_invariant(stats, before);
        assert forall|k: int|
            0 <= k < log.len() && #[trigger] replaces(file_run(m, log.take(k)).stage) implies !(
        log[k].0 is Done) by {
            if k < before.len() {
                assert(log.take(k) =~= before.take(k));
                assert(before[k] == log[k]);
            } else {
                assert(log.take(k) =~= before);
            }
        }
    }
}

/// Nothing is changed through a link: the write protection of the destination comes
/// off only once the system has said that it is no link.
pub proof fn law_nothing_is_changed_through_a_link<S>(stats: CopyStats, log: Log<S>)
    requires
        file_log(fresh::<S>(stats), log),
        file_run(fresh::<S>(stats), log).stage is Unprotect,
    ensures
        log.len() >= 2,
        file_run(fresh::<S>(stats), log.take(log.len() - 2)).stage is LookLink,
        log[log.len() - 2].0 == Reply::<S>::Flag(false),
{
    let m = fresh::<S>(stats);
    let one = log.drop_last();
    assert(file_run(m, one).stage is LookDst);
    let two = one.drop_last();
    assert(file_log(m, one));
    assert(file_run(m, two).stage is LookLink);
    assert(file_run(m, two).takes(one.last().0));
    assert(two =~= log.take(log.len() - 2));
    assert(one.last() == log[log.len() - 2]);
}

/// A file counts as copied exactly when its attempt ended so, and an attempt
/// never counts anything as left behind.
pub proof fn law_one_file_counts_once<S>(stats: CopyStats, log: Log<S>)
    requires
        file_log(fresh::<S>(stats), log),
    ensures
        ({
            let m = file_run(fresh::<S>(stats), log);
            &&& m.stats.files_copied == stats.files_copied + (if m.stage == FileStage::<S>::Ended(
                FileEnd::Copied,
            ) {
                1int
            } else {
                0
            })
            &&& m.stats.files_skipped == stats.files_skipped
            &&& m.stats.symlinks_skipped == stats.symlinks_skipped
        }),
{
    lemma_file_invariant(stats, log);
}

/// What a job hears: a reply to its attempt, or what the user wants after one.
#[derive(Debug)]
pub enum JobReply<S> {
    /// The attempt that is under way got its answer.
    Disk(Reply<S>),
    /// The user said what to do about an attempt that failed.
    Choice(ErrorChoice),
}

/// The job after what it heard.
pub open spec fn job_next<S>(job: FileJob<S>, reply: JobReply<S>, stop: bool) -> FileJob<S> {
    match (job, reply) {
        (FileJob::Copying(copy), JobReply::Disk(r)) => settled(file_next(copy, r, stop).0),
        (FileJob::Asking(_, _, stats), JobReply::Choice(c)) => answered(c, stats),
        _ => job,
    }
}

/// What was heard answers what was asked.
pub open spec fn job_takes<S>(job: FileJob<S>, reply: JobReply<S>) -> bool {
    match (job, reply) {
        (FileJob::Copying(copy), JobReply::Disk(r)) => copy.takes(r),
        (FileJob::Asking(_, _, stats), JobReply::Choice(_)) => stats.room(),
        _ => false,
    }
}

/// The job after everything in a log.
pub open spec fn job_run<S>(stats: CopyStats, log: Seq<(JobReply<S>, bool)>) -> FileJob<S>
    decreases log.len(),
{
    if log.len() == 0 {
        FileJob::Copying(fresh(stats))
    } else {
        job_next(job_run(stats, log.drop_last()), log.last().0, log.last().1)
    }
}

/// Everything in the log answers what was asked at its time.
pub open spec fn job_log<S>(stats: CopyStats, log: Seq<(JobReply<S>, bool)>) -> bool
    decreases log.len(),
{
    log.len() == 0 || (job_log(stats, log.drop_last()) && job_takes(
        job_run(stats, log.drop_last()),
        log.last().0,
    ))
}

/// The counters after one file: up by one for what became of it, and otherwise
/// as they were.
pub open spec fn counted(before: CopyStats, end: JobEnd, after: CopyStats) -> bool {
    &&& after.files_copied == before.files_copied + (if end is Copied {
        1int
    } else {
        0
    })
    &&& after.files_skipped == before.files_skipped + (if end is Skipped {
        1int
    } else {
        0
    })
    &&& after.symlinks_skipped == before.symlinks_skipped
}

spec fn job_invariant<S>(stats: CopyStats, job: FileJob<S>) -> bool {
    match job {
        FileJob::Copying(copy) => {
            &&& copy.stats.files_copied == stats.files_copied
            &&& copy.stats.files_skipped == stats.files_skipped
            &&& copy.stats.symlinks_skipped == stats.symlinks_skipped
            &&& !(copy.stage is Ended)
            &&& end_to_come(copy.stage) != Some(FileEnd::<S>::Copied)
        },
        FileJob::Asking(_, _, now) => counted(stats, JobEnd::Stopped, now),
        FileJob::Ended(end, now) => counted(stats, end, now),
    }
}

/// However often a file is tried, it counts once: as copied, as left behind, or
/// not at all where the operation was cancelled.
pub proof fn law_a_job_counts_once<S>(stats: CopyStats, log: Seq<(JobReply<S>, bool)>)
    requires
        job_log(stats, log),
    ensures
        job_run(stats, log) matches FileJob::Ended(end, after) ==> counted(stats, end, after),
{
    lemma_job_invariant(stats, log);
}

#[verifier::rlimit(40)]
proof fn lemma_job_invariant<S>(stats: CopyStats, log: Seq<(JobReply<S>, bool)>)
    requires
        job_log(stats, log),
    ensures
        job_invariant(stats, job_run(stats, log)),
    decreases log.len(),
{
    if log.len() > 0 {
        lemma_job_invariant(stats, log.drop_last());
    }
}

/// A cancelled operation reads no further chunk: whatever reply would lead to reading on,
/// with the operation cancelled by then the working file is removed and the attempt ends
/// as stopped. Without that, it reads on.
pub proof fn law_a_cancelled_attempt_reads_no_further<S>(m: FileCopy<S>, reply: Reply<S>)
    requires
        m.takes(reply),
    ensures
        file_next(m, reply, true).0.stage !is Read,
        file_next(m, reply, false).0.stage is Read ==> file_next(m, reply, true).0.stage == (
        if m.armed {
            FileStage::<S>::Cleanup(FileEnd::Stopped)
        } else {
            FileStage::<S>::Ended(FileEnd::Stopped)
        }),
        (m.stage is Create || m.stage is Write) && reply is Done ==> file_next(
            m,
            reply,
            false,
        ).0.stage is Read,
        file_next(m, reply, true).0.stats == file_next(m, reply, false).0.stats,
{
}

/// And then the destination is never replaced: an attempt that heard of the cancelling
/// between two chunks ends as stopped, whatever comes after, with nothing moved and
/// nothing counted.
pub proof fn law_stopping_between_chunks_ends_the_attempt<S>(
    stats: CopyStats,
    log: Log<S>,
    k: int,
)
    requires
        file_log(fresh::<S>(stats), log),
        0 <= k < log.len(),
        log[k].0 is Done,
        log[k].1,
        ({
            let at = file_run(fresh::<S>(stats), log.take(k)).stage;
            at is Create || at is Write
        }),
    ensures
        ({
            let m = file_run(fresh::<S>(stats), log);
            m.stage == FileStage::<S>::Cleanup(FileEnd::Stopped) || m.stage == FileStage::<
                S,
            >::Ended(FileEnd::Stopped)
        }),
        !moved_into_place(fresh::<S>(stats), log),
        file_run(fresh::<S>(stats), log).stats.files_copied == stats.files_copied,
    decreases log.len(),
{
    let start = fresh::<S>(stats);
    let before = log.drop_last();
    lemma_file_invariant(stats, log);
    lemma_file_invariant(stats, before);
    if k < before.len() {
        assert(before.take(k) =~= log.take(k));
        assert(before[k] == log[k]);
        law_stopping_between_chunks_ends_the_attempt(stats, before, k);
    } else {
        assert(log.take(k) =~= before);
    }
}

/// A failure ends the attempt with the system's own words, as one of reading or of
/// writing or of making the folder, by the step that failed, and the working file is
/// removed first where there may be one.
pub proof fn law_a_failure_is_told_as_it_came<S>(m: FileCopy<S>, f: Fault<S>, stop: bool)
    requires
        m.takes(Reply::Failed(f)),
        m.stage is Stat || m.stage is MakeParent || m.stage is Open || m.stage is Create || m.stage
            is Read || m.stage is Write || m.stage is Flush || m.stage is SetLinkAside || m.stage
            is RenameAgain,
    ensures
        ({
            let phase = if m.stage is Stat || m.stage is Open || m.stage is Read {
                Phase::Read
            } else if m.stage is MakeParent {
                Phase::Mkdir
            } else {
                Phase::Write
            };
            let next = file_next(m, Reply::Failed(f), stop).0;
            &&& next.stage == (if m.armed {
                FileStage::Cleanup(FileEnd::Failed(phase, f))
            } else {
                FileStage::Ended(FileEnd::Failed(phase, f))
            })
            &&& next.stats == m.stats
        }),
{
}

/// An attempt goes in order: the size of the source, the folder around the destination,
/// the source, the working file, then chunk after chunk until there is none left, then
/// flushing, the time, and the move.
pub proof fn law_an_attempt_goes_step_by_step<S>(m: FileCopy<S>, n: u64)
    requires
        m.wf(),
        m.stats.room(),
        m.bytes_done + n <= u64::MAX,
    ensures
        m.stage is Stat ==> file_next(m, Reply::Size(n), false).0 == (FileCopy {
            stage: FileStage::Parent,
            bytes_total: n,
            ..m
        }),
        m.stage is Parent ==> file_next(m, Reply::Flag(true), false).0.stage is MakeParent
            && file_next(m, Reply::Flag(false), false).0.stage is Open,
        m.stage is MakeParent ==> file_next(m, Reply::Done, false).0.stage is Open,
        m.stage is Open ==> file_next(m, Reply::Done, false).0.stage is Create && file_next(
            m,
            Reply::Done,
            false,
        ).0.armed,
        m.stage is Create ==> file_next(m, Reply::Done, false).0.stage is Read,
        m.stage is Read && n > 0 ==> file_next(m, Reply::Bytes(n), false).0.stage
            == FileStage::<S>::Write(n),
        m.stage is Read ==> file_next(m, Reply::Bytes(0), false).0.stage is Flush,
        m.stage is Flush ==> file_next(m, Reply::Done, false).0.stage is Stamp,
        m.stage is Stamp ==> file_next(m, Reply::Done, false).0.stage is Rename,
        m.stage is Rename ==> file_next(m, Reply::Done, false).0.stage is Permit && !file_next(
            m,
            Reply::Done,
            false,
        ).0.armed,
        m.stage is Permit ==> file_next(m, Reply::Done, false).0.stage == FileStage::<S>::Ended(
            FileEnd::Copied,
        ) && file_next(m, Reply::Done, false).0.stats.files_copied == m.stats.files_copied + 1,
{
}

/// A refused move is tried again only where there is something to be done about it: a
/// link is set aside, and a destination that is there and may not be written loses its
/// protection. Otherwise the first refusal is what the user hears of.
pub proof fn law_a_refused_move_is_tried_again_once<S>(
    m: FileCopy<S>,
    first: Fault<S>,
    f: Fault<S>,
    stop: bool,
)
    requires
        m.wf(),
        m.stats.room(),
        m.armed,
    ensures
        ({
            let told = FileStage::Cleanup(FileEnd::Failed(Phase::Write, first));
            let yes = file_next(m, Reply::Flag(true), stop).0.stage;
            let no = file_next(m, Reply::Flag(false), stop).0.stage;
            &&& m.stage is Rename ==> file_next(m, Reply::Failed(first), stop).0.stage
                == FileStage::LookLink(first)
            &&& m.stage == FileStage::LookLink(first) ==> yes is SetLinkAside && no == (
            if first.failure.kind == FailureKind::PermissionDenied {
                FileStage::LookDst(first)
            } else {
                told
            })
            &&& m.stage == FileStage::LookDst(first) ==> yes == FileStage::Unprotect(first) && no
                == told
            &&& m.stage == FileStage::Unprotect(first) ==> file_next(
                m,
                Reply::Done,
                stop,
            ).0.stage is RenameAgain && file_next(m, Reply::Failed(f), stop).0.stage == told
        }),
{
}

/// A chunk that was written is counted to the byte, and progress is reported with every
/// 1048576 bytes since the last report, and not before.
pub proof fn law_progress_follows_the_bytes<S>(m: FileCopy<S>, n: u64, stop: bool)
    requires
        m.takes(Reply::Done),
        m.stage == FileStage::<S>::Write(n),
    ensures
        ({
            let (next, report) = file_next(m, Reply::Done, stop);
            &&& next.bytes_done == m.bytes_done + n && next.bytes_total == m.bytes_total
            &&& report is Some <==> m.since_emit + n >= 1048576
            &&& report matches Some(p) ==> p.bytes_done == next.bytes_done && p.bytes_total
                == m.bytes_total && p.current_index == m.stats.current_index && next.since_emit
                == 0
            &&& report is None ==> next.since_emit == m.since_emit + n
        }),
{
}

/// A file that arrived is reported once more at its end, whole.
pub proof fn law_the_end_is_reported<S>(m: FileCopy<S>, reply: Reply<S>, stop: bool)
    requires
        m.takes(reply),
        m.stage !is Write,
    ensures
        file_next(m, reply, stop).1 is Some <==> m.stage is Permit,
        file_next(m, reply, stop).1 matches Some(p) ==> p.bytes_done == m.bytes_done
            && p.bytes_total == m.bytes_total && p.current_index == m.stats.current_index,
{
}

/// The working file goes with a failed attempt: once it may be there, an attempt that
/// ends otherwise than copied has passed the stage that removes it.
pub proof fn law_the_working_file_is_cleaned_up<S>(stats: CopyStats, log: Log<S>, k: int)
    requires
        file_log(fresh::<S>(stats), log),
        0 <= k <= log.len(),
        file_run(fresh::<S>(stats), log.take(k)).stage is Create,
        file_run(fresh::<S>(stats), log).stage is Ended,
        file_run(fresh::<S>(stats), log).stage != FileStage::<S>::Ended(FileEnd::Copied),
    ensures
        exists|j: int|
            k <= j < log.len() && (#[trigger] file_run(fresh::<S>(stats), log.take(j))).stage
                is Cleanup,
    decreases log.len(),
{
    let start = fresh::<S>(stats);
    assert(log.take(log.len() as int) =~= log);
    if k < log.len() {
        let before = log.drop_last();
        lemma_file_invariant(stats, before);
        let m = file_run(start, before);
        assert(log.take(log.len() - 1) =~= before);
        assert(before.take(k) =~= log.take(k));
        if m.stage is Cleanup {
            assert(file_run(start, log.take(log.len() - 1)).stage is Cleanup);
        } else {
            lemma_armed_since_create(stats, before, k);
        }
    }
}

proof fn lemma_armed_since_create<S>(stats: CopyStats, log: Log<S>, k: int)
    requires
        file_log(fresh::<S>(stats), log),
        0 <= k <= log.len(),
        file_run(fresh::<S>(stats), log.take(k)).stage is Create,
    ensures
        ({
            let m = file_run(fresh::<S>(stats), log);
            m.armed || in_place(m.stage) || m.stage is Ended
        }),
    decreases log.len(),
{
    assert(log.take(log.len() as int) =~= log);
    lemma_file_invariant(stats, log);
    if k < log.len() {
        let before = log.drop_last();
        assert(before.take(k) =~= log.take(k));
        lemma_armed_since_create(stats, before, k);
    }
}

/// What the user says of a failed attempt is done: trying again begins anew with the
/// counters as they were, leaving the file behind counts it once, and stopping ends
/// everything.
pub proof fn law_a_failed_attempt_is_answered<S>(
    phase: Phase,
    fault: Fault<S>,
    stats: CopyStats,
    stop: bool,
)
    requires
        stats.room(),
    ensures
        ({
            let asked = FileJob::Asking(phase, fault, stats);
            &&& job_next(asked, JobReply::Choice(ErrorChoice::Retry), stop) matches FileJob::Copying(
                copy,
            ) && copy.stage is Stat && copy.stats == stats && copy.bytes_done == 0 && !copy.armed
            &&& job_next(asked, JobReply::Choice(ErrorChoice::Skip), stop) matches FileJob::Ended(
                end,
                now,
            ) && end == JobEnd::Skipped && now == (CopyStats {
                files_skipped: (stats.files_skipped + 1) as u64,
                ..stats
            })
            &&& job_next(asked, JobReply::Choice(ErrorChoice::Abort), stop) == FileJob::<S>::Ended(
                JobEnd::Stopped,
                stats,
            )
        }),
{
}

/// An attempt that ended decides the job: a copied file and a stopped one are done with,
/// and every failure is put to the user as it was told.
pub proof fn law_an_attempt_decides_the_job<S>(copy: FileCopy<S>, phase: Phase, fault: Fault<S>)
    ensures
        copy.stage == FileStage::<S>::Ended(FileEnd::Copied) ==> settled(copy) == FileJob::<
            S,
        >::Ended(JobEnd::Copied, copy.stats),
        copy.stage == FileStage::<S>::Ended(FileEnd::Stopped) ==> settled(copy) == FileJob::<
            S,
        >::Ended(JobEnd::Stopped, copy.stats),
        copy.stage == FileStage::Ended(FileEnd::Failed(phase, fault)) ==> settled(copy)
            == FileJob::Asking(phase, fault, copy.stats),
        copy.stage !is Ended ==> settled(copy) == FileJob::Copying(copy),
{
}

/// The question about a file names it on both sides, and gives the system's words, without
/// its number, only where the cause has no name of its own. A file that was copied or
/// left behind is announced so; a stopped one is not announced.
pub proof fn law_a_file_is_named_on_both_sides(
    system: System,
    phase: Phase,
    fault: Fault<Seq<char>>,
    src_rel: Seq<char>,
    dst_rel: Seq<char>,
    end: JobEnd,
)
    ensures
        ({
            let q = question(system, phase, fault, src_rel, dst_rel);
            &&& q.src_rel == src_rel && q.dst_rel == dst_rel && !q.is_dir && q.phase == phase
            &&& q.cause == crate::sys::cause(system, fault.failure)
            &&& q.cause != "other"@ ==> q.reason.len() == 0
            &&& q.cause == "other"@ ==> q.reason.is_prefix_of(fault.text)
        }),
        announcement(end, src_rel, dst_rel) is None <==> end == JobEnd::Stopped,
        announcement(end, src_rel, dst_rel) matches Some(d) ==> d.src_rel == src_rel && d.dst_rel
            == dst_rel && !d.is_dir && (d.status == DoneStatus::Copied <==> end == JobEnd::Copied)
            && (d.status == DoneStatus::Skipped <==> end == JobEnd::Skipped),
{
    let text = fault.text;
    crate::text::search::lemma_rfind_to(
        text,
        " (os error "@,
        text.len() - " (os error "@.len(),
    );
    assert(text.is_prefix_of(text)) by {
        assert(text.take(text.len() as int) =~= text);
    }
    if let Some(cut) = crate::text::search::rfind(text, " (os error "@) {
        assert(text.take(cut).is_prefix_of(text)) by {
            assert(text.take(cut) =~= text.take(text.take(cut).len() as int));
        }
    }
}

/// A link in the way is seen to in order: it is set aside, the file moves to where it
/// was, and only then the link goes for good. Where the file cannot move the link goes
/// back and the attempt fails as the move did. What fails with the link itself is put to
/// the user: trying again repeats that step, leaving it keeps how the attempt ends, and
/// stopping stops an attempt whose file is not in place.
pub proof fn law_a_link_in_the_way_is_seen_to<S>(
    m: FileCopy<S>,
    f: Fault<S>,
    end: FileEnd<S>,
    stop: bool,
)
    requires
        m.wf(),
        m.stats.room(),
    ensures
        ({
            let done = file_next(m, Reply::Done, stop).0;
            let failed = file_next(m, Reply::Failed(f), stop).0;
            let again = file_next(m, Reply::Choice(ErrorChoice::Retry), stop).0;
            let left = file_next(m, Reply::Choice(ErrorChoice::Skip), stop).0;
            let over = file_next(m, Reply::Choice(ErrorChoice::Abort), stop).0;
            let ends = |e: FileEnd<S>|
                if m.armed {
                    FileStage::Cleanup(e)
                } else {
                    FileStage::Ended(e)
                };
            &&& m.stage is SetLinkAside ==> done.stage is RenameOver
            &&& m.stage is RenameOver ==> done.stage is DropLink && !done.armed && failed.stage
                == FileStage::PutLinkBack(FileEnd::Failed(Phase::Write, f)) && failed.armed
                == m.armed
            &&& m.stage == FileStage::PutLinkBack(end) ==> done.stage == ends(end) && failed.stage
                == FileStage::AskBack(f, end)
            &&& m.stage == FileStage::AskBack(f, end) ==> again.stage == FileStage::PutLinkBack(end)
                && left.stage == ends(end) && over.stage == ends(FileEnd::Stopped)
            &&& m.stage is DropLink ==> done.stage is Permit && failed.stage == FileStage::AskDrop(
                f,
            )
            &&& m.stage == FileStage::AskDrop(f) ==> again.stage is DropLink && left.stage is Permit
                && over.stage is Permit
        }),
{
}

/// Whatever can come is taken, as long as no counter is at its end: that a call went
/// through and that it failed, the answer to a look, any number of bytes that can still
/// be counted, and what the user wants.
pub proof fn law_whatever_comes_is_taken<S>(
    m: FileCopy<S>,
    n: u64,
    flag: bool,
    f: Fault<S>,
    choice: ErrorChoice,
)
    requires
        m.wf(),
        m.stats.files_copied < u64::MAX,
        m.stats.files_skipped < u64::MAX,
        m.stats.symlinks_skipped < u64::MAX,
        m.stats.current_index < u64::MAX,
        m.stage !is Ended,
    ensures
        ({
            let looks = m.stage is Parent || m.stage is LookLink || m.stage is LookDst;
            let asks = m.stage is AskBack || m.stage is AskDrop;
            &&& m.stage is Stat ==> m.takes(Reply::Size(n))
            &&& looks ==> m.takes(Reply::Flag(flag))
            &&& asks ==> m.takes(Reply::Choice(choice))
            &&& m.stage is Read && m.bytes_done + n <= u64::MAX ==> m.takes(Reply::Bytes(n))
            &&& !looks && !asks ==> m.takes(Reply::Failed(f))
            &&& !looks && !asks && m.stage !is Stat && m.stage !is Read ==> m.takes(Reply::Done)
        }),
{
}

/// An attempt begins with nothing read or written and no working file, and an attempt is
/// counted once, when its source is to be opened.
pub proof fn law_an_attempt_begins_with_nothing<S>(stats: CopyStats, m: FileCopy<S>, f: Fault<S>)
    requires
        m.wf(),
        m.stats.room(),
    ensures
        ({
            let start = fresh::<S>(stats);
            &&& start.wf() && start.stage is Stat && !start.armed
            &&& start.bytes_done == 0 && start.since_emit == 0 && start.stats == stats
        }),
        m.stage is MakeParent ==> file_next(m, Reply::Done, false).0.stats.current_index
            == m.stats.current_index + 1,
        m.stage is Parent ==> file_next(m, Reply::Flag(false), false).0.stats.current_index
            == m.stats.current_index + 1 && file_next(m, Reply::Flag(true), false).0.stats
            == m.stats,
        m.stage is Open || m.stage is Create || m.stage is Read || m.stage is Write ==> file_next(
            m,
            Reply::Failed(f),
            false,
        ).0.stats == m.stats,
{
}

} // verus!
