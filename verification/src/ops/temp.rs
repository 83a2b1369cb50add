//! What a copy keeps beside its destination for a while: how working files are named,
//! how links are that were set aside, and how the working files of a run that did not
//! survive are swept away.
use vstd::prelude::*;

use crate::diff::COPY_TEMP_PREFIX;
use crate::sys::path::{plain_name, separates, Separators};
use crate::sys::{
    file_name, join, joined, lemma_beside, lemma_name_ends, parent, parent_of, same_path, takes_in,
    System,
};
use crate::text::join4;
use crate::text::number::{
    decimal, decimal_string, is_digit, lemma_decimal_digits, lemma_decimal_injective,
};
use crate::text::search::str_starts_with;

verus! {

/// The start that the names of all working files of one run share.
pub open spec fn run_prefix(pid: nat) -> Seq<char> {
    COPY_TEMP_PREFIX@ + decimal(pid) + "-"@
}

/// The name of a working file: the run that writes it, and its number within
/// that run.
pub open spec fn temp_name_of(pid: nat, seq: nat) -> Seq<char> {
    run_prefix(pid) + decimal(seq)
}

/// The name of a working file.
pub fn temp_name(pid: u32, seq: u64) -> (r: String)
    ensures
        r@ == temp_name_of(pid as nat, seq as nat),
{
    let run = decimal_string(pid as u64);
    let number = decimal_string(seq);
    join4(COPY_TEMP_PREFIX, &run, "-", &number)
}

/// How the names of links begin that were set aside. It is not how those of working
/// files do: a link is no litter. Where it could not go back, a comparison shows it and
/// no later run sweeps it away.
pub const ASIDE_PREFIX: &'static str = ".geminus-link-";

/// The name of a link that was set aside: the run that did so, and a number within
/// that run.
pub open spec fn aside_name_of(pid: nat, seq: nat) -> Seq<char> {
    ASIDE_PREFIX@ + decimal(pid) + "-"@ + decimal(seq)
}

/// The name of a link that is set aside.
pub fn aside_name(pid: u32, seq: u64) -> (r: String)
    ensures
        r@ == aside_name_of(pid as nat, seq as nat),
{
    let run = decimal_string(pid as u64);
    let number = decimal_string(seq);
    join4(ASIDE_PREFIX, &run, "-", &number)
}

/// The path of a name beside a destination: in the folder of that, or the mere name
/// where nothing is above it.
pub open spec fn beside(system: System, dst: Seq<char>, name: Seq<char>) -> Seq<char> {
    match parent(system, dst) {
        Some(folder) => joined(system, folder, name),
        None => name,
    }
}

/// The path of a name beside a destination.
fn path_beside(system: System, dst: &str, name: String) -> (r: String)
    requires
        name@.len() > 0,
    ensures
        r@ == beside(system, dst@, name@),
{
    match parent_of(system, dst) {
        Some(folder) => join(system, &folder, &name),
        None => name,
    }
}

/// The path of a working file: in the same folder as the destination, or the move onto
/// it would cross from one disk to another and stop being a single step.
pub fn temp_path_for(system: System, dst: &str, pid: u32, seq: u64) -> (r: String)
    ensures
        r@ == beside(system, dst@, temp_name_of(pid as nat, seq as nat)),
{
    proof {
        lemma_temp_name(pid as nat, seq as nat);
    }
    path_beside(system, dst, temp_name(pid, seq))
}

/// The path of a link that is set aside: in the same folder as the destination.
pub fn aside_path_for(system: System, dst: &str, pid: u32, seq: u64) -> (r: String)
    ensures
        r@ == beside(system, dst@, aside_name_of(pid as nat, seq as nat)),
{
    proof {
        lemma_aside_name(pid as nat, seq as nat);
    }
    path_beside(system, dst, aside_name(pid, seq))
}

/// A name that begins with a dot, and holds no other and no separator.
spec fn hidden(name: Seq<char>) -> bool {
    &&& plain_name(name, Separators::Both)
    &&& name.len() > 2
    &&& name[0] == '.'
    &&& forall|i: int| 1 <= i < name.len() ==> #[trigger] name[i] != '.'
}

/// Two numbers behind a hidden name make a hidden name.
proof fn lemma_numbered_name(front: Seq<char>, pid: nat, seq: nat)
    requires
        hidden(front),
    ensures
        hidden(front + decimal(pid) + "-"@ + decimal(seq)),
{
    let name = front + decimal(pid) + "-"@ + decimal(seq);
    reveal_strlit("-");
    lemma_decimal_digits(pid);
    lemma_decimal_digits(seq);
    assert forall|i: int| 0 <= i < name.len() implies !separates(
        Separators::Both,
        #[trigger] name[i],
    ) && (i > 0 ==> name[i] != '.') by {
        let b = front.len() + decimal(pid).len();
        if i < front.len() {
            assert(name[i] == front[i]);
            assert(!separates(Separators::Both, front[i]));
        } else if i < b {
            assert(name[i] == decimal(pid)[i - front.len()]);
            assert(is_digit(decimal(pid)[i - front.len()]));
        } else if i == b {
            assert(name[i] == '-');
        } else {
            assert(name[i] == decimal(seq)[i - b - 1]);
            assert(is_digit(decimal(seq)[i - b - 1]));
        }
    }
    assert(name[0] == front[0]);
    assert(seq!['.'].len() == 1);
    assert(name.len() > 2 && name != seq!['.']);
}

proof fn lemma_temp_name(pid: nat, seq: nat)
    ensures
        hidden(temp_name_of(pid, seq)),
        temp_name_of(pid, seq)[9] == 'p',
        temp_name_of(pid, seq).len() > 9,
{
    reveal_strlit(".geminus-part-");
    let front = COPY_TEMP_PREFIX@;
    assert(seq!['.'].len() == 1);
    assert(plain_name(front, Separators::Both));
    lemma_numbered_name(front, pid, seq);
    assert(temp_name_of(pid, seq)[9] == front[9]);
}

proof fn lemma_aside_name(pid: nat, seq: nat)
    ensures
        hidden(aside_name_of(pid, seq)),
        aside_name_of(pid, seq)[9] == 'l',
        aside_name_of(pid, seq).len() > 9,
{
    reveal_strlit(".geminus-link-");
    let front = ASIDE_PREFIX@;
    assert(seq!['.'].len() == 1);
    assert(plain_name(front, Separators::Both));
    lemma_numbered_name(front, pid, seq);
    assert(aside_name_of(pid, seq)[9] == front[9]);
}

/// A working file sits beside its destination, in the same folder and under its own
/// name, wherever that name becomes no part of the volume, and nowhere else.
pub proof fn law_the_working_file_sits_beside_its_destination(
    system: System,
    dst: Seq<char>,
    pid: nat,
    seq: nat,
)
    requires
        parent(system, dst) is Some,
    ensures
        ({
            let name = temp_name_of(pid, seq);
            let folder = parent(system, dst)->0;
            let path = beside(system, dst, name);
            &&& (parent(system, path) matches Some(p) && same_path(system, p, folder))
                <==> takes_in(system, folder, name)
            &&& takes_in(system, folder, name) ==> file_name(system, path) == Some(name)
            &&& run_prefix(pid).is_prefix_of(name)
        }),
{
    let name = temp_name_of(pid, seq);
    reveal_strlit("..");
    lemma_temp_name(pid, seq);
    assert(".."@.len() == 2);
    lemma_beside(system, dst, name);
    assert(name.take(run_prefix(pid).len() as int) =~= run_prefix(pid));
}

/// A link that is set aside stays beside its destination in the same way.
pub proof fn law_a_link_set_aside_stays_beside(system: System, dst: Seq<char>, pid: nat, seq: nat)
    requires
        parent(system, dst) is Some,
    ensures
        ({
            let name = aside_name_of(pid, seq);
            let folder = parent(system, dst)->0;
            let path = beside(system, dst, name);
            &&& (parent(system, path) matches Some(p) && same_path(system, p, folder))
                <==> takes_in(system, folder, name)
            &&& takes_in(system, folder, name) ==> file_name(system, path) == Some(name)
        }),
{
    reveal_strlit("..");
    lemma_aside_name(pid, seq);
    assert(".."@.len() == 2);
    lemma_beside(system, dst, aside_name_of(pid, seq));
}

/// A link that was set aside is no litter: its name is not that of a working file.
pub proof fn law_a_link_set_aside_is_no_litter(pid: nat, seq: nat)
    ensures
        !COPY_TEMP_PREFIX@.is_prefix_of(aside_name_of(pid, seq)),
{
    let name = aside_name_of(pid, seq);
    reveal_strlit(".geminus-part-");
    lemma_aside_name(pid, seq);
    if COPY_TEMP_PREFIX@.is_prefix_of(name) {
        assert(COPY_TEMP_PREFIX@[9] == name.take(COPY_TEMP_PREFIX@.len() as int)[9]);
    }
}

/// Hidden names that differ make paths that differ, whatever they stand beside.
proof fn lemma_beside_differs(
    system: System,
    dst_a: Seq<char>,
    dst_b: Seq<char>,
    a: Seq<char>,
    b: Seq<char>,
)
    requires
        hidden(a),
        hidden(b),
        a != b,
    ensures
        beside(system, dst_a, a) != beside(system, dst_b, b),
{
    let x = beside(system, dst_a, a);
    let y = beside(system, dst_b, b);
    reveal_strlit("..");
    assert(".."@.len() == 2);
    if let Some(folder) = parent(system, dst_a) {
        lemma_name_ends(system, folder, a);
    } else {
        assert(a.skip(0) =~= a);
    }
    if let Some(folder) = parent(system, dst_b) {
        lemma_name_ends(system, folder, b);
    } else {
        assert(b.skip(0) =~= b);
    }
    assert(a =~= x.skip(x.len() - a.len()));
    assert(b =~= y.skip(y.len() - b.len()));
    if x == y {
        if a.len() < b.len() {
            assert(a[0] == b[b.len() - a.len()]);
        } else if b.len() < a.len() {
            assert(b[0] == a[a.len() - b.len()]);
        }
    }
}

/// Two working files of one run never share a path, whatever their destinations.
pub proof fn law_working_files_never_share_a_path(
    system: System,
    dst_a: Seq<char>,
    dst_b: Seq<char>,
    pid: nat,
    a: nat,
    b: nat,
)
    requires
        a != b,
    ensures
        beside(system, dst_a, temp_name_of(pid, a)) != beside(system, dst_b, temp_name_of(pid, b)),
{
    lemma_temp_name(pid, a);
    lemma_temp_name(pid, b);
    law_working_files_never_share_a_name(pid, a, b);
    lemma_beside_differs(system, dst_a, dst_b, temp_name_of(pid, a), temp_name_of(pid, b));
}

/// A link that is set aside shares its path with no other one of the same run and with
/// no working file of any run, whatever their destinations.
pub proof fn law_links_set_aside_have_paths_of_their_own(
    system: System,
    dst_a: Seq<char>,
    dst_b: Seq<char>,
    pid: nat,
    pid_b: nat,
    a: nat,
    b: nat,
)
    ensures
        beside(system, dst_a, aside_name_of(pid, a)) != beside(
            system,
            dst_b,
            temp_name_of(pid_b, b),
        ),
        a != b ==> beside(system, dst_a, aside_name_of(pid, a)) != beside(
            system,
            dst_b,
            aside_name_of(pid, b),
        ),
{
    let x = aside_name_of(pid, a);
    lemma_aside_name(pid, a);
    lemma_aside_name(pid, b);
    lemma_temp_name(pid_b, b);
    lemma_beside_differs(system, dst_a, dst_b, x, temp_name_of(pid_b, b));
    if a != b {
        let y = aside_name_of(pid, b);
        let front = ASIDE_PREFIX@ + decimal(pid) + "-"@;
        assert(x.skip(front.len() as int) =~= decimal(a));
        assert(y.skip(front.len() as int) =~= decimal(b));
        if x == y {
            lemma_decimal_injective(a, b);
        }
        lemma_beside_differs(system, dst_a, dst_b, x, y);
    }
}

/// A working file that another run left behind: it has the name of one, and not
/// of one of this run.
pub open spec fn orphan(name: Seq<char>, pid: nat) -> bool {
    COPY_TEMP_PREFIX@.is_prefix_of(name) && !run_prefix(pid).is_prefix_of(name)
}

/// Whether a file was left behind by another run.
pub fn is_orphan(name: &str, pid: u32) -> (r: bool)
    ensures
        r == orphan(name@, pid as nat),
{
    let run = decimal_string(pid as u64);
    let mine = crate::text::join3(COPY_TEMP_PREFIX, &run, "-");
    str_starts_with(name, COPY_TEMP_PREFIX) && !str_starts_with(name, &mine)
}

/// A working file, and whether it is still to be cleaned up.
#[derive(Debug)]
pub struct TempFile<P> {
    /// Where it is.
    pub path: P,
    /// It is still there and has to go.
    pub armed: bool,
}

impl<P> TempFile<P> {
    /// A working file that has to go unless it is placed.
    pub fn new(path: P) -> (r: Self)
        ensures
            r == (TempFile { path, armed: true }),
    {
        TempFile { path, armed: true }
    }

    /// The working file became the destination: there is nothing left at that
    /// path to clean up.
    pub fn placed(&mut self)
        ensures
            *final(self) == (TempFile { path: old(self).path, armed: false }),
    {
        self.armed = false;
    }

    /// What has to be removed when the working file is given up.
    pub fn leftover(&self) -> (r: Option<&P>)
        ensures
            r == (if self.armed {
                Some(&self.path)
            } else {
                None
            }),
    {
        if self.armed {
            Some(&self.path)
        } else {
            None
        }
    }
}

/// A walk through a folder and everything below it in search of files that
/// another run left behind. The folders are whatever the caller opens them by.
#[derive(Debug)]
pub struct Sweep<D> {
    /// The folders still to be looked into, the next one last.
    pub stack: Vec<D>,
    /// The process that sweeps.
    pub pid: u32,
}

/// What a sweep does about an entry: the folders still to be looked into after
/// it, and the file to remove. An entry whose name is no text, or that can no
/// longer be looked at, is passed over.
pub open spec fn swept<D>(
    stack: Seq<D>,
    pid: nat,
    path: D,
    name: Option<Seq<char>>,
    is_dir: Option<bool>,
) -> (Seq<D>, Option<D>) {
    match (name, is_dir) {
        (Some(_), Some(true)) => (stack.push(path), None),
        (Some(n), Some(false)) => if orphan(n, pid) {
            (stack, Some(path))
        } else {
            (stack, None)
        },
        _ => (stack, None),
    }
}

impl<D> Sweep<D> {
    /// A sweep from the given folder down.
    pub fn new(root: D, pid: u32) -> (r: Self)
        ensures
            r.stack@ == seq![root],
            r.pid == pid,
    {
        let mut stack: Vec<D> = Vec::new();
        stack.push(root);
        Sweep { stack, pid }
    }

    /// The next folder to look into.
    pub fn next_dir(&mut self) -> (r: Option<D>)
        ensures
            final(self).pid == old(self).pid,
            match r {
                Some(d) => old(self).stack@.len() > 0 && d == old(self).stack@.last()
                    && final(self).stack@ == old(self).stack@.drop_last(),
                None => old(self).stack@.len() == 0 && final(self).stack@ == old(self).stack@,
            },
    {
        self.stack.pop()
    }

    /// An entry of the folder that is being looked into; what comes back is to be
    /// removed.
    pub fn entry(&mut self, path: D, name: Option<&str>, is_dir: Option<bool>) -> (r: Option<D>)
        ensures
            final(self).pid == old(self).pid,
            (final(self).stack@, r) == swept(
                old(self).stack@,
                old(self).pid as nat,
                path,
                match name {
                    Some(n) => Some(n@),
                    None => None,
                },
                is_dir,
            ),
    {
        match name {
            Some(n) => match is_dir {
                Some(true) => {
                    self.stack.push(path);
                    None
                },
                Some(false) => {
                    if is_orphan(n, self.pid) {
                        Some(path)
                    } else {
                        None
                    }
                },
                None => None,
            },
            None => None,
        }
    }
}

/// Every working file has the name of one, and the files that a run is using are
/// never swept away by itself.
pub proof fn law_own_files_stay(pid: nat, seq: nat)
    ensures
        COPY_TEMP_PREFIX@.is_prefix_of(temp_name_of(pid, seq)),
        !orphan(temp_name_of(pid, seq), pid),
{
    let name = temp_name_of(pid, seq);
    assert(name.take(COPY_TEMP_PREFIX@.len() as int) =~= COPY_TEMP_PREFIX@);
    assert(name.take(run_prefix(pid).len() as int) =~= run_prefix(pid));
}

/// Two working files of one run never share a name.
pub proof fn law_working_files_never_share_a_name(pid: nat, a: nat, b: nat)
    requires
        a != b,
    ensures
        temp_name_of(pid, a) != temp_name_of(pid, b),
{
    if temp_name_of(pid, a) == temp_name_of(pid, b) {
        let n = run_prefix(pid).len() as int;
        assert(temp_name_of(pid, a).skip(n) =~= decimal(a));
        assert(temp_name_of(pid, b).skip(n) =~= decimal(b));
        lemma_decimal_injective(a, b);
    }
}

/// What another run left behind is swept away, whatever the numbers of the two
/// runs.
pub proof fn law_leftovers_of_another_run_go(mine: nat, theirs: nat, seq: nat)
    requires
        mine != theirs,
    ensures
        orphan(temp_name_of(theirs, seq), mine),
{
    let name = temp_name_of(theirs, seq);
    law_own_files_stay(theirs, seq);
    reveal_strlit("-");
    if run_prefix(mine).is_prefix_of(name) {
        let p = COPY_TEMP_PREFIX@.len() as int;
        let a = decimal(mine);
        let b = decimal(theirs);
        lemma_decimal_digits(mine);
        lemma_decimal_digits(theirs);
        let m = run_prefix(mine);
        assert forall|i: int| 0 <= i < m.len() implies name[i] == m[i] by {
            assert(name.take(m.len() as int)[i] == m[i]);
        }
        if a.len() < b.len() {
            assert(m[p + a.len()] == '-');
            assert(name[p + a.len()] == b[a.len() as int]);
            assert(is_digit(b[a.len() as int]));
        } else if b.len() < a.len() {
            assert(name[p + b.len()] == '-');
            assert(m[p + b.len()] == a[b.len() as int]);
            assert(is_digit(a[b.len() as int]));
        } else {
            assert forall|i: int| 0 <= i < a.len() implies a[i] == b[i] by {
                assert(m[p + i] == a[i]);
                assert(name[p + i] == b[i]);
            }
            assert(a =~= b);
            lemma_decimal_injective(mine, theirs);
        }
    }
}

/// A sweep takes nothing but what another run left: a file, no folder and nothing that
/// could not be looked at, whose name is that of a working file and not of one of this
/// run. It goes into every folder that has a name, and leaves everything else alone.
pub proof fn law_a_sweep_takes_only_leftovers<D>(
    stack: Seq<D>,
    pid: nat,
    path: D,
    name: Option<Seq<char>>,
    is_dir: Option<bool>,
)
    ensures
        ({
            let (after, taken) = swept(stack, pid, path, name, is_dir);
            let own = ".geminus-part-"@ + decimal(pid) + seq!['-'];
            &&& taken is Some <==> is_dir == Some(false) && (name matches Some(n)
                && ".geminus-part-"@.is_prefix_of(n) && !own.is_prefix_of(n))
            &&& taken matches Some(p) ==> p == path
            &&& name is Some && is_dir == Some(true) ==> after == stack.push(path)
            &&& !(name is Some && is_dir == Some(true)) ==> after == stack
        }),
{
    reveal_strlit("-");
    assert("-"@ =~= seq!['-']);
}

/// The name of a working file says whose it is: the mark of working files, the number of
/// the run, a hyphen, and its own number.
pub proof fn law_a_working_file_says_whose_it_is(pid: nat, seq: nat)
    ensures
        temp_name_of(pid, seq) == ".geminus-part-"@ + decimal(pid) + seq!['-'] + decimal(seq),
        aside_name_of(pid, seq) == ".geminus-link-"@ + decimal(pid) + seq!['-'] + decimal(seq),
{
    reveal_strlit("-");
    assert("-"@ =~= seq!['-']);
}

} // verus!
