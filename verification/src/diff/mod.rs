//! Comparing two folders on three levels.
//!
//! The first level is structure: which positions are there on which side. The
//! second is what the system knows of an item: kind, size and time, with some
//! tolerance. The third is the content, read only where the first two found no
//! difference. What fails on the way never stops a comparison: it is counted.
use vstd::prelude::*;

pub mod content;
pub mod levels;
pub mod paths;
pub mod scan;
pub mod tree;
pub mod watch;

use crate::error::CmdError;
use crate::sys::System;
use levels::Compared;
use tree::{build_tree, is_forest, well_listed, DiffNode, Listing};
use crate::text::same_str;
use crate::text::search::str_starts_with;

verus! {

/// The names of working files begin with this. A comparison passes over them: a
/// half-written copy is not part of either folder.
pub const COPY_TEMP_PREFIX: &'static str = ".geminus-part-";

/// What the system knows of an item.
#[derive(Debug, Clone, Copy, PartialEq, Eq, Structural)]
pub struct ScannedFile {
    /// It is a folder.
    pub is_dir: bool,
    /// It is a link.
    pub is_symlink: bool,
    /// It is hidden the way the system means it.
    pub hidden: bool,
    /// How many bytes it holds; nought for a folder.
    pub size: u64,
    /// When it was last changed, in seconds.
    pub modified: i64,
}

/// How the two sides of a position compare.
#[derive(Debug, Clone, Copy, PartialEq, Eq, Structural)]
pub enum DiffStatus {
    /// Nothing differs.
    Same,
    /// Something differs.
    Diff,
    /// It is only on the first side.
    OnlyA,
    /// It is only on the second side.
    OnlyB,
    /// The content could not be read on one of the sides.
    Unreadable,
}

/// Why a content could not be read.
#[derive(Debug, Clone, Copy, PartialEq, Eq, Structural)]
pub enum HashError {
    /// The system refused, or the comparison was cancelled.
    Failed,
    /// The disk did not answer in time.
    Timeout,
}

/// The comparison that is asked for.
#[derive(Debug, Clone, Copy, PartialEq, Eq, Structural)]
pub enum CompareMode {
    /// Structure and what the system knows; no content is read.
    Fast,
    /// Content too, for whatever the other levels found equal.
    Deep,
}

/// The name of a mode.
pub open spec fn mode_name(mode: CompareMode) -> Seq<char> {
    match mode {
        CompareMode::Fast => "fast"@,
        CompareMode::Deep => "deep"@,
    }
}

/// The name of a mode.
pub fn mode_to_str(mode: CompareMode) -> (r: &'static str)
    ensures
        r@ == mode_name(mode),
{
    match mode {
        CompareMode::Fast => "fast",
        CompareMode::Deep => "deep",
    }
}

/// What a comparison is doing.
#[derive(Debug, Clone, Copy, PartialEq, Eq, Structural)]
pub enum ProgressPhase {
    /// Going through the first side.
    ScanA,
    /// Going through the second side.
    ScanB,
    /// Comparing what the system knows.
    Level2,
    /// Comparing contents.
    Level3,
    /// Waiting for a disk that does not answer.
    Stalled,
}

/// The name under which a phase travels.
pub open spec fn progress_name(phase: ProgressPhase) -> Seq<char> {
    match phase {
        ProgressPhase::ScanA => "scan_a"@,
        ProgressPhase::ScanB => "scan_b"@,
        ProgressPhase::Level2 => "diff_l2"@,
        ProgressPhase::Level3 => "diff_l3"@,
        ProgressPhase::Stalled => "diff_l3_stalled"@,
    }
}

impl ProgressPhase {
    /// The name of the phase.
    pub fn name(self) -> (r: &'static str)
        ensures
            r@ == progress_name(self),
    {
        match self {
            ProgressPhase::ScanA => "scan_a",
            ProgressPhase::ScanB => "scan_b",
            ProgressPhase::Level2 => "diff_l2",
            ProgressPhase::Level3 => "diff_l3",
            ProgressPhase::Stalled => "diff_l3_stalled",
        }
    }
}

/// A progress report.
#[derive(Debug)]
pub struct CompareProgress<S> {
    /// What is being done.
    pub phase: ProgressPhase,
    /// How many items were done.
    pub count: u64,
    /// How many there are.
    pub total: u64,
    /// The item it is at.
    pub current_path: S,
    /// How many bytes of content were read.
    pub bytes_done: u64,
    /// How many bytes of content there are to read.
    pub bytes_total: u64,
}

impl CompareProgress<String> {
    /// The report with its texts as sequences of characters.
    pub open spec fn model(self) -> CompareProgress<Seq<char>> {
        CompareProgress {
            phase: self.phase,
            count: self.count,
            total: self.total,
            current_path: self.current_path@,
            bytes_done: self.bytes_done,
            bytes_total: self.bytes_total,
        }
    }
}

/// A report or none, with its texts as sequences of characters.
pub open spec fn report_of(r: Option<CompareProgress<String>>) -> Option<CompareProgress<Seq<char>>> {
    match r {
        Some(p) => Some(p.model()),
        None => None,
    }
}

/// Whether a comparison can begin: both sides have to be folders. The first that
/// is not is named.
pub fn start_compare(root_a: String, a_is_dir: bool, root_b: String, b_is_dir: bool) -> (r: Result<
    (),
    CmdError,
>)
    ensures
        match r {
            Ok(_) => a_is_dir && b_is_dir,
            Err(e) => !(a_is_dir && b_is_dir) && e.says(
                "path_not_a_folder"@,
                if !a_is_dir {
                    root_a@
                } else {
                    root_b@
                },
            ),
        },
{
    if !a_is_dir {
        return Err(CmdError::with_detail("path_not_a_folder", root_a));
    }
    if !b_is_dir {
        return Err(CmdError::with_detail("path_not_a_folder", root_b));
    }
    Ok(())
}

/// Whether two folders lie on one device. Two devices can be read at once; one
/// cannot, or its head spends the time seeking. What is unknown is taken for one
/// device, the safe assumption.
pub fn same_device(dev_a: &Option<String>, dev_b: &Option<String>) -> (r: bool)
    ensures
        r == match (*dev_a, *dev_b) {
            (Some(a), Some(b)) => a@ == b@,
            _ => true,
        },
{
    match dev_a {
        Some(a) => match dev_b {
            Some(b) => same_str(a, b),
            None => true,
        },
        None => true,
    }
}

/// The stages of a comparison.
#[derive(Debug, Clone, Copy)]
pub enum CompareStage {
    /// Going through the first side.
    ScanA,
    /// Going through the second side.
    ScanB,
    /// Comparing the two.
    Diff,
    /// Everything was compared: the tree is built and handed over.
    Complete,
    /// The comparison was cancelled during the named stage, and says so.
    Stopped(&'static str),
}

impl CompareStage {
    /// The stage after this one, which was gone through or cancelled.
    pub fn next(self, stop: bool) -> (r: Self)
        ensures
            match self {
                CompareStage::ScanA => if stop {
                    r matches CompareStage::Stopped(p) && p@ == "scan_a"@
                } else {
                    r == CompareStage::ScanB
                },
                CompareStage::ScanB => if stop {
                    r matches CompareStage::Stopped(p) && p@ == "scan_b"@
                } else {
                    r == CompareStage::Diff
                },
                CompareStage::Diff => if stop {
                    r matches CompareStage::Stopped(p) && p@ == "diff"@
                } else {
                    r == CompareStage::Complete
                },
                _ => r == self,
            },
    {
        match self {
            CompareStage::ScanA => if stop {
                CompareStage::Stopped("scan_a")
            } else {
                CompareStage::ScanB
            },
            CompareStage::ScanB => if stop {
                CompareStage::Stopped("scan_b")
            } else {
                CompareStage::Diff
            },
            CompareStage::Diff => if stop {
                CompareStage::Stopped("diff")
            } else {
                CompareStage::Complete
            },
            CompareStage::Complete => CompareStage::Complete,
            CompareStage::Stopped(p) => CompareStage::Stopped(p),
        }
    }
}

/// Folders that a comparison leaves out: what development tools fill by
/// themselves, what the system keeps for itself, and what was thrown away.
pub open spec fn excluded_dir(system: System, name: Seq<char>) -> bool {
    ||| name == ".git"@
    ||| name == ".rustup"@
    ||| name == ".cargo"@
    ||| name == "node_modules"@
    ||| name == "target"@
    ||| name == "__pycache__"@
    ||| name == ".venv"@
    ||| name == ".cache"@
    ||| name == "Trash"@
    ||| crate::sys::system_dir(system, name)
    ||| ".Trash-"@.is_prefix_of(name)
}

/// Whether a comparison leaves a folder out.
pub fn is_excluded_dir(system: System, name: &str) -> (r: bool)
    ensures
        r == excluded_dir(system, name@),
{
    if same_str(name, ".git") || same_str(name, ".rustup") || same_str(name, ".cargo")
        || same_str(name, "node_modules") || same_str(name, "target") || same_str(
        name,
        "__pycache__",
    ) || same_str(name, ".venv") || same_str(name, ".cache") || same_str(name, "Trash") {
        return true;
    }
    if crate::sys::is_system_dir(system, name) {
        return true;
    }
    str_starts_with(name, ".Trash-")
}

/// What a comparison hands over when everything was compared.
#[derive(Debug)]
pub struct CompareComplete {
    /// The tree that is shown.
    pub tree: Vec<DiffNode>,
    /// How many items the first side has.
    pub total_a: u64,
    /// How many items the second side has.
    pub total_b: u64,
    /// How many times something could not be read while going through the sides.
    pub errors: u64,
    /// How many contents could not be read.
    pub unreadable: u64,
    /// How many folders were left out.
    pub excluded: u64,
    /// How many contents were given up unread.
    pub aborted: u64,
    /// The comparison that was asked for.
    pub mode: String,
}

/// What a comparison hands over, from what it found and what was counted on the
/// way.
pub fn compare_paths(found: &Compared, errors: u64, excluded: u64, mode: CompareMode) -> (r:
    CompareComplete)
    ensures
        exists|t: Listing| #[trigger]
            well_listed(t) && t.a == found.a@ && t.b == found.b@ && t.statuses == found.statuses@
                && is_forest(r.tree@, t),
        r.total_a == found.a.keys().len(),
        r.total_b == found.b.keys().len(),
        r.errors == errors,
        r.unreadable == found.unreadable,
        r.excluded == excluded,
        r.aborted == found.aborted,
        r.mode@ == mode_name(mode),
{
    CompareComplete {
        tree: build_tree(&found.a, &found.b, &found.statuses),
        total_a: found.a.len() as u64,
        total_b: found.b.len() as u64,
        errors,
        unreadable: found.unreadable,
        excluded,
        aborted: found.aborted,
        mode: mode_to_str(mode).to_owned(),
    }
}

/// What a comparison leaves out it leaves out by its whole name: a folder whose name has
/// nothing to do with the tools, the system or the trash is gone into.
pub proof fn law_an_ordinary_folder_is_gone_into(name: Seq<char>)
    requires
        name.len() > 0,
        name[0] != '.' && name[0] != 'n' && name[0] != 't' && name[0] != '_' && name[0] != 'T',
    ensures
        !excluded_dir(System::Linux, name),
{
    reveal_strlit(".git");
    reveal_strlit(".rustup");
    reveal_strlit(".cargo");
    reveal_strlit("node_modules");
    reveal_strlit("target");
    reveal_strlit("__pycache__");
    reveal_strlit(".venv");
    reveal_strlit(".cache");
    reveal_strlit("Trash");
    reveal_strlit(".Trash-");
    if ".Trash-"@.is_prefix_of(name) {
        assert(name.take(".Trash-"@.len() as int)[0] == name[0]);
    }
    assert(".git"@[0] == '.' && ".rustup"@[0] == '.' && ".cargo"@[0] == '.');
    assert("node_modules"@[0] == 'n' && "target"@[0] == 't' && "__pycache__"@[0] == '_');
    assert(".venv"@[0] == '.' && ".cache"@[0] == '.' && "Trash"@[0] == 'T');
}

/// What the tools fill by themselves, and what was thrown away, is left out on either
/// system.
pub proof fn law_what_tools_fill_is_left_out(system: System, rest: Seq<char>)
    ensures
        excluded_dir(system, ".git"@),
        excluded_dir(system, ".rustup"@),
        excluded_dir(system, ".cargo"@),
        excluded_dir(system, "node_modules"@),
        excluded_dir(system, "target"@),
        excluded_dir(system, "__pycache__"@),
        excluded_dir(system, ".venv"@),
        excluded_dir(system, ".cache"@),
        excluded_dir(system, "Trash"@),
        excluded_dir(system, ".Trash-"@ + rest),
{
    let name = ".Trash-"@ + rest;
    assert(name.take(".Trash-"@.len() as int) =~= ".Trash-"@);
}

/// The words for the kinds of a comparison and for its phases.
pub proof fn law_the_words_for_modes_and_phases()
    ensures
        mode_name(CompareMode::Fast) == "fast"@,
        mode_name(CompareMode::Deep) == "deep"@,
        progress_name(ProgressPhase::ScanA) == "scan_a"@,
        progress_name(ProgressPhase::ScanB) == "scan_b"@,
        progress_name(ProgressPhase::Level2) == "diff_l2"@,
        progress_name(ProgressPhase::Level3) == "diff_l3"@,
        progress_name(ProgressPhase::Stalled) == "diff_l3_stalled"@,
{
}

} // verus!
