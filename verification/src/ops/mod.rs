//! File operations behind drag and drop: copy and move, single files and whole
//! trees, deletion, and what the folder picker shows.
//!
//! The steps of an operation are machines: each stage names what is to be done
//! next on the disk, and the reply of the disk decides the stage after it.
use vstd::prelude::*;

pub mod browse;
pub mod file;
pub mod item;
pub mod remove;
pub mod temp;
pub mod tree;

use crate::error::{CmdError, Fault};
use crate::sys::System;
use crate::text::join3;

verus! {

/// The answer to a failure.
#[derive(Debug, Clone, Copy, PartialEq, Eq, Structural)]
pub enum ErrorChoice {
    /// Leave the item behind and go on with the rest.
    Skip,
    /// Try the same item again.
    Retry,
    /// Stop everything now.
    Abort,
}

/// Whether an answer arrived: somebody has to be waiting for one, and to be still
/// there when it comes. Nobody reads the error, because the question is gone by
/// then.
pub fn submit_error_choice(waited_for: bool, heard: bool) -> (r: Result<(), CmdError>)
    ensures
        match r {
            Ok(_) => waited_for && heard,
            Err(e) => !(waited_for && heard) && e.says("answer_not_delivered"@, Seq::empty()),
        },
{
    if waited_for && heard {
        Ok(())
    } else {
        Err(CmdError::plain("answer_not_delivered"))
    }
}

/// What was being done when something failed. `Stopped` marks a cancelled
/// operation, not a failure to show.
#[derive(Debug, Clone, Copy, PartialEq, Eq, Structural)]
pub enum Phase {
    /// Reading from the source.
    Read,
    /// Writing to the destination.
    Write,
    /// Creating a folder.
    Mkdir,
    /// Reading the contents of a folder.
    Readdir,
    /// The operation was cancelled.
    Stopped,
}

/// How a finished item is announced.
#[derive(Debug, Clone, Copy, PartialEq, Eq, Structural)]
pub enum DoneStatus {
    /// The whole item went through.
    Copied,
    /// The folder is there now; its contents are still to come.
    Created,
    /// The item was left behind.
    Skipped,
}

/// The name under which a phase travels.
pub open spec fn phase_name(phase: Phase) -> Seq<char> {
    match phase {
        Phase::Read => "read"@,
        Phase::Write => "write"@,
        Phase::Mkdir => "mkdir"@,
        Phase::Readdir => "readdir"@,
        Phase::Stopped => "stopped"@,
    }
}

/// The name under which an announcement travels.
pub open spec fn done_name(status: DoneStatus) -> Seq<char> {
    match status {
        DoneStatus::Copied => "copied"@,
        DoneStatus::Created => "created"@,
        DoneStatus::Skipped => "skipped"@,
    }
}

impl Phase {
    /// The name of the phase.
    pub fn name(self) -> (r: &'static str)
        ensures
            r@ == phase_name(self),
    {
        match self {
            Phase::Read => "read",
            Phase::Write => "write",
            Phase::Mkdir => "mkdir",
            Phase::Readdir => "readdir",
            Phase::Stopped => "stopped",
        }
    }
}

impl DoneStatus {
    /// The name of the announcement.
    pub fn name(self) -> (r: &'static str)
        ensures
            r@ == done_name(self),
    {
        match self {
            DoneStatus::Copied => "copied",
            DoneStatus::Created => "created",
            DoneStatus::Skipped => "skipped",
        }
    }
}

/// Announces a finished item by its position on either side, relative to the
/// compared folder and with forward slashes.
#[derive(Debug)]
pub struct OpFileDone<S> {
    /// Position on the source side.
    pub src_rel: S,
    /// Position on the destination side.
    pub dst_rel: S,
    /// The item is a folder.
    pub is_dir: bool,
    /// What became of it.
    pub status: DoneStatus,
}

/// Asks what to do about a failure: what was being done, why it failed, and the
/// system's own words.
#[derive(Debug)]
pub struct OpFileError<S> {
    /// Position on the source side.
    pub src_rel: S,
    /// Position on the destination side.
    pub dst_rel: S,
    /// The item is a folder.
    pub is_dir: bool,
    /// What was being done.
    pub phase: Phase,
    /// Why it failed.
    pub cause: S,
    /// The system's own words.
    pub reason: S,
}

impl OpFileDone<String> {
    /// The announcement with its texts as sequences of characters.
    pub open spec fn model(self) -> OpFileDone<Seq<char>> {
        OpFileDone {
            src_rel: self.src_rel@,
            dst_rel: self.dst_rel@,
            is_dir: self.is_dir,
            status: self.status,
        }
    }
}

impl OpFileError<String> {
    /// The question with its texts as sequences of characters.
    pub open spec fn model(self) -> OpFileError<Seq<char>> {
        OpFileError {
            src_rel: self.src_rel@,
            dst_rel: self.dst_rel@,
            is_dir: self.is_dir,
            phase: self.phase,
            cause: self.cause@,
            reason: self.reason@,
        }
    }
}

/// What an operation has done so far.
#[derive(Debug, Clone, Copy, PartialEq, Eq, Structural)]
pub struct CopyStats {
    /// Files that arrived whole.
    pub files_copied: u64,
    /// Files and folders left behind.
    pub files_skipped: u64,
    /// Links left behind; a link is never copied.
    pub symlinks_skipped: u64,
    /// Attempts at a file, counted from one.
    pub current_index: u64,
}

impl CopyStats {
    /// Nothing done yet.
    pub fn new() -> (r: Self)
        ensures
            r == (CopyStats {
                files_copied: 0,
                files_skipped: 0,
                symlinks_skipped: 0,
                current_index: 0,
            }),
    {
        CopyStats { files_copied: 0, files_skipped: 0, symlinks_skipped: 0, current_index: 0 }
    }

    /// Every counter can still go up by one.
    pub open spec fn room(self) -> bool {
        &&& self.files_copied < u64::MAX
        &&& self.files_skipped < u64::MAX
        &&& self.symlinks_skipped < u64::MAX
        &&& self.current_index < u64::MAX
    }

    /// Whether every counter can still go up by one.
    pub fn has_room(&self) -> (r: bool)
        ensures
            r == self.room(),
    {
        self.files_copied < u64::MAX && self.files_skipped < u64::MAX && self.symlinks_skipped
            < u64::MAX && self.current_index < u64::MAX
    }

    /// One more item left behind.
    pub open spec fn skipped_one(self) -> CopyStats {
        CopyStats { files_skipped: (self.files_skipped + 1) as u64, ..self }
    }

    /// One more link left behind.
    pub open spec fn link_skipped(self) -> CopyStats {
        CopyStats { symlinks_skipped: (self.symlinks_skipped + 1) as u64, ..self }
    }

    /// Something stayed behind.
    pub open spec fn left_behind(self) -> bool {
        self.files_skipped > 0 || self.symlinks_skipped > 0
    }
}

/// The position of an item inside a folder.
pub open spec fn child_of(rel: Seq<char>, name: Seq<char>) -> Seq<char> {
    if rel.len() == 0 {
        name
    } else {
        rel + "/"@ + name
    }
}

/// The position of an item inside a folder.
pub fn rel_child(rel: &str, name: &str) -> (r: String)
    ensures
        r@ == child_of(rel@, name@),
{
    if rel.is_empty() {
        name.to_owned()
    } else {
        join3(rel, "/", name)
    }
}

/// The failure of one copy.
#[derive(Debug)]
pub struct OpErr {
    /// What was being done.
    pub phase: Phase,
    /// Why it failed.
    pub cause: &'static str,
    /// The system's own words, where the cause was not recognised.
    pub detail: String,
}

/// The words that go along with a failure: only where the cause was not
/// recognised. Where it was, the sentence that the user reads already says it.
pub open spec fn tail_of(system: System, fault: Fault<Seq<char>>) -> Seq<char> {
    if crate::sys::cause(system, fault.failure) == "other"@ {
        crate::error::without_number(fault.text)
    } else {
        Seq::empty()
    }
}

impl OpErr {
    /// A cancelled copy.
    pub fn stopped() -> (r: Self)
        ensures
            r.phase == Phase::Stopped,
            r.cause@ == "stopped"@,
            r.detail@ == Seq::<char>::empty(),
    {
        OpErr { phase: Phase::Stopped, cause: "stopped", detail: String::new() }
    }

    /// A failure during a phase.
    pub fn at(system: System, phase: Phase, fault: &Fault<String>) -> (r: Self)
        ensures
            r.phase == phase,
            r.cause@ == crate::sys::cause(system, fault.failure),
            r.detail@ == tail_of(system, fault.model()),
    {
        let cause = crate::sys::cause_on(system, fault.failure);
        let detail = if crate::text::same_str(cause, "other") {
            crate::error::system_words(&fault.text)
        } else {
            String::new()
        };
        OpErr { phase, cause, detail }
    }
}

/// The position of a child is its name below the position of its folder, and the name
/// alone where the folder is the root.
pub proof fn law_a_child_is_below_its_folder(rel: Seq<char>, name: Seq<char>)
    ensures
        rel.len() == 0 ==> child_of(rel, name) == name,
        rel.len() > 0 ==> child_of(rel, name) == rel + seq!['/'] + name,
{
    reveal_strlit("/");
    assert("/"@ =~= seq!['/']);
}

/// The system's words go to the user only where the cause has no name of its own.
pub proof fn law_words_only_without_a_name(system: System, fault: Fault<Seq<char>>)
    ensures
        crate::sys::cause(system, fault.failure) == "other"@ ==> tail_of(system, fault)
            == crate::error::without_number(fault.text),
        crate::sys::cause(system, fault.failure) != "other"@ ==> tail_of(system, fault).len() == 0,
{
}

/// The words for the steps of an operation and for what became of an item.
pub proof fn law_the_words_for_steps_and_ends()
    ensures
        phase_name(Phase::Read) == "read"@,
        phase_name(Phase::Write) == "write"@,
        phase_name(Phase::Mkdir) == "mkdir"@,
        phase_name(Phase::Readdir) == "readdir"@,
        phase_name(Phase::Stopped) == "stopped"@,
        done_name(DoneStatus::Copied) == "copied"@,
        done_name(DoneStatus::Created) == "created"@,
        done_name(DoneStatus::Skipped) == "skipped"@,
{
}

/// A counter has room until it is at its end, and what is left behind is counted by one.
pub proof fn law_counting_goes_by_one(stats: CopyStats)
    requires
        stats.files_copied < u64::MAX && stats.files_skipped < u64::MAX,
        stats.symlinks_skipped < u64::MAX && stats.current_index < u64::MAX,
    ensures
        stats.room(),
        stats.skipped_one().files_skipped == stats.files_skipped + 1,
        stats.skipped_one().files_copied == stats.files_copied,
        stats.skipped_one().symlinks_skipped == stats.symlinks_skipped,
        stats.link_skipped().symlinks_skipped == stats.symlinks_skipped + 1,
        stats.link_skipped().files_skipped == stats.files_skipped,
        stats.left_behind() <==> stats.files_skipped > 0 || stats.symlinks_skipped > 0,
{
}

} // verus!
