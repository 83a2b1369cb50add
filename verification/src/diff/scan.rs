//! Going through one side.
use vstd::prelude::*;

use super::paths::{map_of, PathMap};
use super::{
    excluded_dir, is_excluded_dir, report_of, CompareProgress, ProgressPhase, ScannedFile,
    COPY_TEMP_PREFIX,
};
use crate::sys::{rel_from_os, shared_rel, System};
use super::tree::around;
use crate::ops::child_of;
use crate::text::search::{lemma_rfind_to, occurs_at, str_starts_with};

verus! {

/// How many items pass between two progress reports.
pub const PROGRESS_EVERY_SCAN: u64 = 500;

/// What was read of an entry, without following a link.
#[derive(Debug)]
pub struct Seen<S> {
    /// It is a folder.
    pub is_dir: bool,
    /// It is a link.
    pub is_symlink: bool,
    /// It is hidden the way the system means it.
    pub hidden: bool,
    /// How many bytes it holds.
    pub size: u64,
    /// Seconds between the epoch and its last change, where the system knows
    /// them and they are not negative.
    pub modified: Option<u64>,
    /// Its name, where it is text.
    pub name: Option<S>,
    /// Its path relative to the root, in the form of the system, where it lies
    /// under the root.
    pub os_rel: Option<S>,
    /// Its whole path, to be shown.
    pub path: S,
}

impl Seen<String> {
    /// What was read, with its texts as sequences of characters.
    pub open spec fn model(self) -> Seen<Seq<char>> {
        Seen {
            is_dir: self.is_dir,
            is_symlink: self.is_symlink,
            hidden: self.hidden,
            size: self.size,
            modified: self.modified,
            name: crate::text::opt_text(self.name),
            os_rel: crate::text::opt_text(self.os_rel),
            path: self.path@,
        }
    }
}

/// Seconds as a signed number; what does not fit comes round from below.
pub open spec fn signed(secs: u64) -> int {
    if secs < 0x8000_0000_0000_0000 {
        secs as int
    } else {
        secs - 0x1_0000_0000_0000_0000
    }
}

/// The time of the last change; nought where it is not known.
pub open spec fn time_of(modified: Option<u64>) -> int {
    match modified {
        Some(secs) => signed(secs),
        None => 0,
    }
}

/// The time of the last change.
fn modified_of(modified: Option<u64>) -> (r: i64)
    ensures
        r == time_of(modified),
{
    match modified {
        Some(secs) => {
            if secs < 0x8000_0000_0000_0000 {
                secs as i64
            } else {
                let above: u64 = secs - 0x8000_0000_0000_0000;
                above as i64 + i64::MIN
            }
        },
        None => 0,
    }
}

/// The name of an entry that is no text is as good as none.
pub open spec fn name_of(name: Option<Seq<char>>) -> Seq<char> {
    match name {
        Some(n) => n,
        None => Seq::empty(),
    }
}

/// A working file of a copy: litter of this program, not a difference between
/// the two sides.
pub open spec fn is_litter(seen: Seen<Seq<char>>) -> bool {
    !seen.is_dir && COPY_TEMP_PREFIX@.is_prefix_of(name_of(seen.name))
}

/// A folder that is left out: neither listed nor gone into.
pub open spec fn is_left_out(system: System, seen: Seen<Seq<char>>) -> bool {
    seen.is_dir && excluded_dir(system, name_of(seen.name))
}

/// What is kept of an entry.
pub open spec fn kept(seen: Seen<Seq<char>>) -> ScannedFile {
    ScannedFile {
        is_dir: seen.is_dir,
        is_symlink: seen.is_symlink,
        hidden: seen.hidden,
        size: if seen.is_dir {
            0
        } else {
            seen.size
        },
        modified: time_of(seen.modified) as i64,
    }
}

/// A walk through one side. The folders are whatever the caller opens them by.
pub struct ScanTree<D> {
    /// The folders still to be gone through, the next one last.
    pub stack: Vec<D>,
    /// What was found, as it came.
    pub entries: Vec<(String, ScannedFile)>,
    /// How many items were listed.
    pub count: u64,
    /// How many times something could not be read.
    pub errors: u64,
    /// How many folders were left out.
    pub excluded: u64,
    /// Which side it is.
    pub phase: ProgressPhase,
    /// The system it runs on.
    pub system: System,
}

/// A walk as a mathematical value.
pub struct ScanModel<D> {
    /// The folders still to be gone through, the next one last.
    pub stack: Seq<D>,
    /// What was found at each position.
    pub found: Map<Seq<char>, ScannedFile>,
    /// How many items were listed.
    pub count: u64,
    /// How many times something could not be read.
    pub errors: u64,
    /// How many folders were left out.
    pub excluded: u64,
    /// Which side it is.
    pub phase: ProgressPhase,
    /// The system it runs on.
    pub system: System,
}

/// A progress report of a walk.
pub open spec fn scan_report<D>(m: ScanModel<D>, total: u64, at: Seq<char>) -> CompareProgress<
    Seq<char>,
> {
    CompareProgress {
        phase: m.phase,
        count: m.count,
        total,
        current_path: at,
        bytes_done: 0,
        bytes_total: 0,
    }
}

/// An entry is listed under its position; the root itself has none.
pub open spec fn listed<D>(m: ScanModel<D>, rel: Seq<char>, seen: Seen<Seq<char>>) -> ScanModel<D> {
    if rel.len() > 0 {
        ScanModel {
            found: m.found.insert(rel, kept(seen)),
            count: (m.count + 1) as u64,
            ..m
        }
    } else {
        m
    }
}

/// A walk after an entry.
pub open spec fn scan_entry<D>(m: ScanModel<D>, dir: D, seen: Seen<Seq<char>>) -> ScanModel<D> {
    if is_litter(seen) {
        m
    } else if is_left_out(m.system, seen) {
        ScanModel { excluded: (m.excluded + 1) as u64, ..m }
    } else {
        match seen.os_rel {
            Some(os) => {
                let after = listed(m, shared_rel(m.system, os), seen);
                ScanModel {
                    stack: if seen.is_dir {
                        m.stack.push(dir)
                    } else {
                        m.stack
                    },
                    ..after
                }
            },
            None => m,
        }
    }
}

/// The report that goes out after an entry: one for every so many items listed.
pub open spec fn scan_progress<D>(m: ScanModel<D>, dir: D, seen: Seen<Seq<char>>) -> Option<
    CompareProgress<Seq<char>>,
> {
    let after = scan_entry(m, dir, seen);
    if after.count != m.count && after.count % PROGRESS_EVERY_SCAN == 0 {
        Some(scan_report(after, 0, seen.path))
    } else {
        None
    }
}

impl<D> ScanTree<D> {
    /// The walk as a mathematical value.
    pub open spec fn model(self) -> ScanModel<D> {
        ScanModel {
            stack: self.stack@,
            found: map_of(self.entries@),
            count: self.count,
            errors: self.errors,
            excluded: self.excluded,
            phase: self.phase,
            system: self.system,
        }
    }

    /// Every counter can still go up by one.
    pub open spec fn room(self) -> bool {
        self.count < u64::MAX && self.errors < u64::MAX && self.excluded < u64::MAX
    }

    /// Whether every counter can still go up by one.
    pub fn has_room(&self) -> (r: bool)
        ensures
            r == self.room(),
    {
        self.count < u64::MAX && self.errors < u64::MAX && self.excluded < u64::MAX
    }

    /// A walk that is to begin at a folder, with what was counted before it.
    pub fn new(system: System, phase: ProgressPhase, root: D, errors: u64, excluded: u64) -> (r:
        Self)
        ensures
            r.model() == (ScanModel {
                stack: seq![root],
                found: Map::empty(),
                count: 0,
                errors,
                excluded,
                phase,
                system,
            }),
    {
        let mut stack: Vec<D> = Vec::new();
        stack.push(root);
        let r = ScanTree { stack, entries: Vec::new(), count: 0, errors, excluded, phase, system };
        assert(r.model().stack =~= seq![root]);
        r
    }

    /// The next folder to go through.
    pub fn next_dir(&mut self) -> (r: Option<D>)
        ensures
            match r {
                Some(d) => old(self).model().stack.len() > 0 && d == old(self).model().stack.last()
                    && final(self).model() == (ScanModel {
                    stack: old(self).model().stack.drop_last(),
                    ..old(self).model()
                }),
                None => old(self).model().stack.len() == 0 && final(self).model()
                    == old(self).model(),
            },
    {
        let ghost before = self.stack@;
        match self.stack.pop() {
            Some(d) => {
                assert(self.stack@ =~= before.drop_last());
                Some(d)
            },
            None => {
                assert(self.stack@ =~= before);
                None
            },
        }
    }

    /// A folder, an entry or what the system knows of it could not be read. The
    /// walk goes on.
    pub fn failed(&mut self)
        requires
            old(self).room(),
        ensures
            final(self).model() == (ScanModel {
                errors: (old(self).model().errors + 1) as u64,
                ..old(self).model()
            }),
    {
        self.errors = self.errors + 1;
    }

    /// An entry of the folder that is being gone through, and what its folder is
    /// opened by where it is one.
    pub fn entry(&mut self, dir: D, seen: Seen<String>) -> (r: Option<CompareProgress<String>>)
        requires
            old(self).room(),
        ensures
            final(self).model() == scan_entry(old(self).model(), dir, seen.model()),
            report_of(r) == scan_progress(old(self).model(), dir, seen.model()),
    {
        let ghost before = self.model();
        let name: String = match &seen.name {
            Some(n) => n.clone(),
            None => String::new(),
        };
        if !seen.is_dir && str_starts_with(&name, COPY_TEMP_PREFIX) {
            return None;
        }
        if seen.is_dir && is_excluded_dir(self.system, &name) {
            self.excluded = self.excluded + 1;
            return None;
        }
        let rel = match &seen.os_rel {
            Some(os) => rel_from_os(self.system, os),
            None => {
                return None;
            },
        };
        let mut out: Option<CompareProgress<String>> = None;
        if !rel.as_str().is_empty() {
            let size: u64 = if seen.is_dir {
                0
            } else {
                seen.size
            };
            let file = ScannedFile {
                is_dir: seen.is_dir,
                is_symlink: seen.is_symlink,
                hidden: seen.hidden,
                size,
                modified: modified_of(seen.modified),
            };
            let ghost had = self.entries@;
            self.entries.push((rel, file));
            assert(self.entries@.drop_last() =~= had);
            self.count = self.count + 1;
            if self.count % PROGRESS_EVERY_SCAN == 0 {
                out = Some(
                    CompareProgress {
                        phase: self.phase,
                        count: self.count,
                        total: 0,
                        current_path: seen.path.clone(),
                        bytes_done: 0,
                        bytes_total: 0,
                    },
                );
            }
        }
        if seen.is_dir {
            self.stack.push(dir);
        }
        assert(self.model().stack =~= scan_entry(before, dir, seen.model()).stack);
        out
    }

    /// What was found, and the last report, which names the root.
    pub fn finish(self, root: &str) -> (r: (PathMap<ScannedFile>, CompareProgress<String>))
        ensures
            r.0@ == self.model().found,
            r.1.model() == scan_report(self.model(), self.count, root@),
    {
        let map = PathMap::new(&self.entries);
        (
            map,
            CompareProgress {
                phase: self.phase,
                count: self.count,
                total: self.count,
                current_path: root.to_owned(),
                bytes_done: 0,
                bytes_total: 0,
            },
        )
    }
}

/// Working files and the folders that are left out never become part of a side,
/// and nothing that was found is lost again.
pub proof fn law_litter_is_no_difference<D>(m: ScanModel<D>, dir: D, seen: Seen<Seq<char>>)
    ensures
        is_litter(seen) || is_left_out(m.system, seen) ==> scan_entry(m, dir, seen).found == m.found
            && scan_entry(m, dir, seen).stack == m.stack,
        forall|k: Seq<char>|
            m.found.contains_key(k) ==> #[trigger] scan_entry(m, dir, seen).found.contains_key(k),
{
}

/// A step of a whole walk.
pub enum WalkStep<D> {
    /// The next folder is taken.
    Open,
    /// Something could not be read.
    Failed,
    /// An entry of the folder that was taken: what its folder is opened by where it
    /// is one, its name, and what was read of it.
    Entry(D, Seq<char>, Seen<Seq<char>>),
}

/// A walk, and the folder that it is in.
pub struct Walk<D> {
    /// The walk.
    pub scan: ScanModel<D>,
    /// The folder that was taken last.
    pub here: Option<D>,
}

/// A walk that is to begin at a folder.
pub open spec fn walk_start<D>(
    system: System,
    phase: ProgressPhase,
    root: D,
    errors: u64,
    excluded: u64,
) -> Walk<D> {
    Walk {
        scan: ScanModel {
            stack: seq![root],
            found: Map::empty(),
            count: 0,
            errors,
            excluded,
            phase,
            system,
        },
        here: None,
    }
}

/// A walk after a step.
pub open spec fn walk_next<D>(w: Walk<D>, step: WalkStep<D>) -> Walk<D> {
    match step {
        WalkStep::Open => Walk {
            scan: ScanModel { stack: w.scan.stack.drop_last(), ..w.scan },
            here: Some(w.scan.stack.last()),
        },
        WalkStep::Failed => Walk {
            scan: ScanModel { errors: (w.scan.errors + 1) as u64, ..w.scan },
            ..w
        },
        WalkStep::Entry(dir, _, seen) => Walk { scan: scan_entry(w.scan, dir, seen), ..w },
    }
}

/// A walk after some steps.
pub open spec fn walk_run<D>(w: Walk<D>, log: Seq<WalkStep<D>>) -> Walk<D>
    decreases log.len(),
{
    if log.len() == 0 {
        w
    } else {
        walk_next(walk_run(w, log.drop_last()), log.last())
    }
}

/// A name of an entry: not empty, and without a slash.
pub open spec fn is_name(name: Seq<char>) -> bool {
    name.len() > 0 && !name.contains('/')
}

/// A step tells of a real folder. `place` is the position of what a folder is opened
/// by. A folder is taken only while there is one; an entry lies under its name in the
/// folder that was taken, and where it is a folder it is opened there; a link is no
/// folder; and no position comes twice.
pub open spec fn walk_tells<D>(
    place: spec_fn(D) -> Seq<char>,
    w: Walk<D>,
    step: WalkStep<D>,
) -> bool {
    match step {
        WalkStep::Open => w.scan.stack.len() > 0,
        WalkStep::Failed => true,
        WalkStep::Entry(dir, name, seen) => {
            &&& is_name(name)
            &&& w.here is Some && seen.os_rel is Some
            &&& shared_rel(w.scan.system, seen.os_rel->0) == child_of(place(w.here->0), name)
            &&& place(dir) == child_of(place(w.here->0), name)
            &&& !(seen.is_dir && seen.is_symlink)
            &&& !w.scan.found.contains_key(place(dir))
        },
    }
}

/// Every step of a walk tells of a real folder.
pub open spec fn walk_log<D>(
    place: spec_fn(D) -> Seq<char>,
    w: Walk<D>,
    log: Seq<WalkStep<D>>,
) -> bool
    decreases log.len(),
{
    log.len() == 0 || (walk_log(place, w, log.drop_last()) && walk_tells(
        place,
        walk_run(w, log.drop_last()),
        log.last(),
    ))
}

/// A position is listed as a folder that is no link.
pub open spec fn folder_listed(found: Map<Seq<char>, ScannedFile>, x: Seq<char>) -> bool {
    found.contains_key(x) && found[x].is_dir && !found[x].is_symlink
}

/// What was found hangs together: nothing has the position of the root, a folder has
/// no size, and around every position that has one around it a folder is listed.
pub open spec fn hangs_together(found: Map<Seq<char>, ScannedFile>) -> bool {
    forall|x: Seq<char>| #[trigger]
        found.contains_key(x) ==> x.len() > 0 && (found[x].is_dir ==> found[x].size == 0) && (around(
            x,
        ) matches Some(p) ==> folder_listed(found, p))
}

proof fn lemma_child_around(rel: Seq<char>, name: Seq<char>)
    requires
        is_name(name),
    ensures
        child_of(rel, name).len() > 0,
        around(child_of(rel, name)) == if rel.len() == 0 {
            None
        } else {
            Some(rel)
        },
{
    let x = child_of(rel, name);
    reveal_strlit("/");
    lemma_rfind_to(x, "/"@, x.len() - 1);
    assert forall|j: int| x.len() - name.len() <= j < x.len() implies !occurs_at(x, "/"@, j) by {
        if occurs_at(x, "/"@, j) {
            assert(x.subrange(j, j + 1)[0] == '/');
            assert(name[j - (x.len() - name.len())] == '/');
        }
    }
    if rel.len() > 0 {
        assert(x.subrange(rel.len() as int, rel.len() as int + 1) =~= "/"@);
        assert(occurs_at(x, "/"@, rel.len() as int));
        assert(x.take(rel.len() as int) =~= rel);
    }
}

/// What holds of a walk at every moment: the folders that are still to be gone
/// through, and the one that was taken last, are the root or listed.
spec fn walk_invariant<D>(place: spec_fn(D) -> Seq<char>, w: Walk<D>) -> bool {
    &&& hangs_together(w.scan.found)
    &&& forall|i: int|
        0 <= i < w.scan.stack.len() ==> place(#[trigger] w.scan.stack[i]).len() == 0
            || folder_listed(w.scan.found, place(w.scan.stack[i]))
    &&& w.here matches Some(d) ==> place(d).len() == 0 || folder_listed(w.scan.found, place(d))
}

proof fn lemma_walk_step<D>(place: spec_fn(D) -> Seq<char>, w: Walk<D>, step: WalkStep<D>)
    requires
        walk_invariant(place, w),
        walk_tells(place, w, step),
    ensures
        walk_invariant(place, walk_next(w, step)),
{
    let n = walk_next(w, step);
    match step {
        WalkStep::Open => {
            assert(w.scan.stack[w.scan.stack.len() - 1] == w.scan.stack.last());
            assert forall|i: int| 0 <= i < n.scan.stack.len() implies place(
                #[trigger] n.scan.stack[i],
            ).len() == 0 || folder_listed(n.scan.found, place(n.scan.stack[i])) by {
                assert(n.scan.stack[i] == w.scan.stack[i]);
            }
        },
        WalkStep::Failed => {},
        WalkStep::Entry(dir, name, seen) => {
            let x = place(dir);
            lemma_child_around(place(w.here->0), name);
            if !is_litter(seen) && !is_left_out(w.scan.system, seen) {
                assert(n.scan.found == w.scan.found.insert(x, kept(seen)));
                assert forall|y: Seq<char>| folder_listed(w.scan.found, y) implies folder_listed(
                    n.scan.found,
                    y,
                ) by {
                    assert(y != x);
                }
                assert forall|y: Seq<char>| #[trigger] n.scan.found.contains_key(y) implies y.len()
                    > 0 && (n.scan.found[y].is_dir ==> n.scan.found[y].size == 0) && (around(
                    y,
                ) matches Some(p) ==> folder_listed(n.scan.found, p)) by {
                    if y != x {
                        assert(w.scan.found.contains_key(y));
                    }
                }
                assert forall|i: int| 0 <= i < n.scan.stack.len() implies place(
                    #[trigger] n.scan.stack[i],
                ).len() == 0 || folder_listed(n.scan.found, place(n.scan.stack[i])) by {
                    if i < w.scan.stack.len() {
                        assert(n.scan.stack[i] == w.scan.stack[i]);
                    }
                }
            }
        },
    }
}

/// What a walk lists hangs together, whenever it is stopped: around every position
/// that holds a slash a folder is listed, which is no link; nothing has the position
/// of the root; and a folder has no size.
pub proof fn law_what_a_walk_lists_hangs_together<D>(
    place: spec_fn(D) -> Seq<char>,
    system: System,
    phase: ProgressPhase,
    root: D,
    errors: u64,
    excluded: u64,
    log: Seq<WalkStep<D>>,
)
    requires
        place(root).len() == 0,
        walk_log(place, walk_start(system, phase, root, errors, excluded), log),
    ensures
        hangs_together(walk_run(walk_start(system, phase, root, errors, excluded), log).scan.found),
{
    lemma_walk(place, system, phase, root, errors, excluded, log);
}

proof fn lemma_walk<D>(
    place: spec_fn(D) -> Seq<char>,
    system: System,
    phase: ProgressPhase,
    root: D,
    errors: u64,
    excluded: u64,
    log: Seq<WalkStep<D>>,
)
    requires
        place(root).len() == 0,
        walk_log(place, walk_start(system, phase, root, errors, excluded), log),
    ensures
        walk_invariant(place, walk_run(walk_start(system, phase, root, errors, excluded), log)),
    decreases log.len(),
{
    if log.len() > 0 {
        lemma_walk(place, system, phase, root, errors, excluded, log.drop_last());
        lemma_walk_step(
            place,
            walk_run(walk_start(system, phase, root, errors, excluded), log.drop_last()),
            log.last(),
        );
    }
}

/// What is kept of an item is what the system said of it: the kind, whether it is a link
/// and hidden, the size, nought for a folder, and the time, nought where there is none.
pub proof fn law_an_item_is_kept_as_it_was_seen(seen: Seen<Seq<char>>)
    ensures
        ({
            let f = kept(seen);
            &&& f.is_dir == seen.is_dir && f.is_symlink == seen.is_symlink && f.hidden
                == seen.hidden
            &&& seen.is_dir ==> f.size == 0
            &&& !seen.is_dir ==> f.size == seen.size
            &&& seen.modified is None ==> f.modified == 0
            &&& seen.modified matches Some(t) ==> (t <= 0x7fff_ffff_ffff_ffff ==> f.modified == t)
        }),
{
}

/// An entry becomes part of a side at its position in the shared form, and a folder is
/// gone into besides, unless it is a working file of a copy, which is passed over, or a
/// folder that is left out, which is counted. No entry counts as an error.
pub proof fn law_an_entry_becomes_part_of_its_side<D>(
    m: ScanModel<D>,
    dir: D,
    seen: Seen<Seq<char>>,
    os: Seq<char>,
)
    requires
        seen.os_rel == Some(os),
        shared_rel(m.system, os).len() > 0,
        m.count < u64::MAX && m.excluded < u64::MAX,
    ensures
        ({
            let n = scan_entry(m, dir, seen);
            let name = match seen.name {
                Some(x) => x,
                None => Seq::empty(),
            };
            let litter = !seen.is_dir && ".geminus-part-"@.is_prefix_of(name);
            let out = seen.is_dir && excluded_dir(m.system, name);
            &&& n.errors == m.errors && n.phase == m.phase && n.system == m.system
            &&& litter ==> n == m
            &&& out ==> n.found == m.found && n.stack == m.stack && n.count == m.count && n.excluded
                == m.excluded + 1
            &&& !litter && !out ==> n.found == m.found.insert(shared_rel(m.system, os), kept(seen))
                && n.count == m.count + 1 && n.excluded == m.excluded && n.stack == (
            if seen.is_dir {
                m.stack.push(dir)
            } else {
                m.stack
            })
        }),
{
}

/// A walk counts what it lists: the number of items is that of the positions it found.
pub proof fn law_a_walk_counts_what_it_lists<D>(
    place: spec_fn(D) -> Seq<char>,
    system: System,
    phase: ProgressPhase,
    root: D,
    errors: u64,
    excluded: u64,
    log: Seq<WalkStep<D>>,
)
    requires
        place(root).len() == 0,
        walk_log(place, walk_start(system, phase, root, errors, excluded), log),
        log.len() <= u64::MAX,
    ensures
        ({
            let w = walk_run(walk_start(system, phase, root, errors, excluded), log);
            &&& w.scan.found.dom().finite()
            &&& w.scan.count == w.scan.found.dom().len()
            &&& w.scan.count <= log.len()
        }),
    decreases log.len(),
{
    let start = walk_start(system, phase, root, errors, excluded);
    if log.len() > 0 {
        let front = log.drop_last();
        law_a_walk_counts_what_it_lists(place, system, phase, root, errors, excluded, front);
        lemma_walk_keeps_system(start, front);
        match log.last() {
            WalkStep::Entry(dir, name, seen) => {
                reveal_strlit("/");
            },
            _ => {},
        }
    }
}

proof fn lemma_walk_keeps_system<D>(w: Walk<D>, log: Seq<WalkStep<D>>)
    ensures
        walk_run(w, log).scan.system == w.scan.system,
    decreases log.len(),
{
    if log.len() > 0 {
        lemma_walk_keeps_system(w, log.drop_last());
    }
}

/// A walk reports at every five hundredth item it lists, with how many there are by then.
pub proof fn law_items_are_reported<D>(m: ScanModel<D>, dir: D, seen: Seen<Seq<char>>)
    requires
        m.count < u64::MAX,
    ensures
        ({
            let n = scan_entry(m, dir, seen).count;
            &&& scan_progress(m, dir, seen) is Some <==> n == m.count + 1 && n % 500 == 0
            &&& scan_progress(m, dir, seen) matches Some(r) ==> r.count == n && r.phase == m.phase
                && r.current_path == seen.path && r.total == 0 && r.bytes_done == 0 && r.bytes_total
                == 0
        }),
        ({
            let last = scan_report(m, m.count, seen.path);
            &&& last.count == m.count && last.total == m.count && last.phase == m.phase
            &&& last.current_path == seen.path && last.bytes_done == 0 && last.bytes_total == 0
        }),
{
}

/// What has no position below its side, as the side itself, is not listed; a folder among
/// it is gone into all the same.
pub proof fn law_a_side_is_no_part_of_itself<D>(m: ScanModel<D>, dir: D, seen: Seen<Seq<char>>)
    requires
        !(seen.name matches Some(n) && ".geminus-part-"@.is_prefix_of(n)),
        !excluded_dir(m.system, name_of(seen.name)),
        seen.os_rel matches Some(os) ==> shared_rel(m.system, os).len() == 0,
    ensures
        scan_entry(m, dir, seen).found == m.found,
        scan_entry(m, dir, seen).count == m.count,
        scan_entry(m, dir, seen).excluded == m.excluded,
        seen.os_rel is None ==> scan_entry(m, dir, seen).stack == m.stack,
        seen.os_rel is Some && seen.is_dir ==> scan_entry(m, dir, seen).stack == m.stack.push(dir),
{
    reveal_strlit(".geminus-part-");
}

} // verus!
