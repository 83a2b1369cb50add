//! What differs between the two systems, one module for each, with the same
//! shape.
use vstd::prelude::*;

pub mod linux;
pub mod path;
pub mod windows;

use crate::error::IoFailure;
use crate::text::{chars_of, opt_text};
use crate::text::search;

verus! {

/// The systems that the program runs on.
#[derive(Debug, Clone, Copy, PartialEq, Eq, Structural)]
pub enum System {
    /// Linux.
    Linux,
    /// Windows.
    Windows,
}

/// Why an operation failed, on the given system.
pub open spec fn cause(system: System, failure: IoFailure) -> Seq<char> {
    match system {
        System::Linux => linux::cause(failure),
        System::Windows => windows::cause(failure),
    }
}

/// Why an operation failed, on the given system.
pub fn cause_on(system: System, failure: IoFailure) -> (r: &'static str)
    ensures
        r@ == cause(system, failure),
{
    match system {
        System::Linux => linux::cause_of_failure(failure),
        System::Windows => windows::cause_of_failure(failure),
    }
}

/// A position relative to a folder in the shared form, from the form of the
/// system.
pub open spec fn shared_rel(system: System, rel: Seq<char>) -> Seq<char> {
    match system {
        System::Linux => rel,
        System::Windows => windows::swapped(rel, '\\', '/'),
    }
}

/// A position relative to a folder in the shared form.
pub fn rel_from_os(system: System, rel: &str) -> (r: String)
    ensures
        r@ == shared_rel(system, rel@),
{
    match system {
        System::Linux => linux::rel_from_os(rel),
        System::Windows => windows::rel_from_os(rel),
    }
}

/// The path of a position inside a folder.
pub open spec fn placed_in(system: System, root: Seq<char>, rel: Seq<char>) -> Seq<char> {
    match system {
        System::Linux => linux::placed_in(root, rel),
        System::Windows => windows::placed_in(root, rel),
    }
}

/// The path of a position inside a folder.
pub fn join_rel(system: System, root: &str, rel: &str) -> (r: String)
    ensures
        r@ == placed_in(system, root@, rel@),
{
    match system {
        System::Linux => linux::join_rel(root, rel),
        System::Windows => windows::join_rel(root, rel),
    }
}

/// A path with another one behind it.
pub open spec fn joined(system: System, root: Seq<char>, rel: Seq<char>) -> Seq<char> {
    match system {
        System::Linux => linux::joined(root, rel),
        System::Windows => windows::joined(root, rel),
    }
}

/// A path with another one behind it, which is not empty.
pub fn join(system: System, root: &str, rel: &str) -> (r: String)
    requires
        rel@.len() > 0,
    ensures
        r@ == joined(system, root@, rel@),
{
    match system {
        System::Linux => linux::join_rel(root, rel),
        System::Windows => windows::join(root, &chars_of(rel)),
    }
}

/// What separates names where the system writes a path.
pub open spec fn separator(system: System) -> Seq<char> {
    match system {
        System::Linux => "/"@,
        System::Windows => "\\"@,
    }
}

/// A text can stand behind a folder: it does not start anywhere itself.
pub open spec fn relative(system: System, rest: Seq<char>) -> bool {
    match system {
        System::Linux => linux::relative(rest),
        System::Windows => windows::relative(rest),
    }
}

/// A text behind a folder.
pub open spec fn behind(system: System, root: Seq<char>, rest: Seq<char>) -> Seq<char> {
    match system {
        System::Linux => linux::behind(root, rest),
        System::Windows => windows::behind(root, rest),
    }
}

/// A text with the separators that the system itself writes.
pub open spec fn own_form(system: System, rest: Seq<char>) -> Seq<char> {
    match system {
        System::Linux => rest,
        System::Windows => windows::swapped(rest, '/', '\\'),
    }
}

/// The path of a folder is one of those that Windows takes to the letter.
pub open spec fn to_the_letter(system: System, root: Seq<char>) -> bool {
    match system {
        System::Linux => false,
        System::Windows => windows::to_the_letter(root),
    }
}

/// The shared form of names has slashes between them.
pub proof fn law_the_shared_form_has_slashes(system: System, list: Seq<Seq<char>>)
    requires
        forall|i: int|
            0 <= i < list.len() ==> path::plain_name(#[trigger] list[i], path::Separators::Both),
    ensures
        shared_rel(system, search::join(list, separator(system))) == search::join(list, "/"@),
{
    if system is Windows {
        reveal_strlit("\\");
        reveal_strlit("/");
        windows::lemma_swapped_names(list, "\\"@, "/"@);
    }
}

/// Positions lead back: whatever stands behind a folder in the path of an item, brought
/// into the shared form and put back behind the folder, gives that path with the
/// separators that the system writes, steps up and repeated separators included. It is
/// the same text exactly where only those separators were in it. Nothing behind the
/// folder is the folder.
pub proof fn law_positions_lead_back(system: System, root: Seq<char>, rest: Seq<char>)
    requires
        relative(system, rest),
        !to_the_letter(system, root),
    ensures
        placed_in(system, root, shared_rel(system, rest)) == behind(
            system,
            root,
            own_form(system, rest),
        ),
        placed_in(system, root, shared_rel(system, rest)) == behind(system, root, rest)
            <==> own_form(system, rest) == rest,
        placed_in(system, root, Seq::empty()) == root,
{
    if system is Windows {
        windows::lemma_leads_back(root, rest);
    }
}

/// Positions below a folder that Windows takes to the letter lead back too: to the same
/// volume and names, exactly where every name is one in the common reading as well,
/// none is a step up, and none became a part of the volume.
pub proof fn law_positions_lead_back_to_the_letter(
    root: Seq<char>,
    rest: Seq<char>,
    path: Seq<char>,
)
    requires
        to_the_letter(System::Windows, root),
        relative(System::Windows, rest),
        windows::lies_at(root, rest, path),
    ensures
        ({
            let again = placed_in(System::Windows, root, shared_rel(System::Windows, rest));
            same_path(System::Windows, again, path) <==> windows::volume(again)
                == windows::volume(root) && windows::real_names(rest)
        }),
{
    windows::lemma_leads_back_to_the_letter(root, rest, path);
}

/// Two texts stand for the same path.
pub open spec fn same_path(system: System, a: Seq<char>, b: Seq<char>) -> bool {
    match system {
        System::Linux => a == b,
        System::Windows => windows::same_path(a, b),
    }
}

/// What is above a path.
pub open spec fn parent(system: System, path: Seq<char>) -> Option<Seq<char>> {
    match system {
        System::Linux => linux::parent(path),
        System::Windows => windows::parent(path),
    }
}

/// What is above a path.
pub fn parent_of(system: System, path: &str) -> (r: Option<String>)
    ensures
        opt_text(r) == parent(system, path@),
{
    match system {
        System::Linux => linux::parent_of(path),
        System::Windows => windows::parent_of(path),
    }
}

/// The last name of a path.
pub open spec fn file_name(system: System, path: Seq<char>) -> Option<Seq<char>> {
    match system {
        System::Linux => linux::file_name(path),
        System::Windows => windows::file_name(path),
    }
}

/// A name put into a folder becomes no part of the volume.
pub open spec fn takes_in(system: System, folder: Seq<char>, name: Seq<char>) -> bool {
    match system {
        System::Linux => true,
        System::Windows => windows::volume(windows::joined(folder, name)) == windows::volume(
            folder,
        ),
    }
}

/// A hidden name put into the folder of a path: the folder is above it exactly where
/// the name became no part of the volume, and then it is the last name there.
pub proof fn lemma_beside(system: System, path: Seq<char>, name: Seq<char>)
    requires
        path::plain_name(name, path::Separators::Both),
        name.len() > 1,
        name[0] == '.',
        name != ".."@,
        parent(system, path) is Some,
    ensures
        ({
            let folder = parent(system, path)->0;
            let beside = joined(system, folder, name);
            &&& (parent(system, beside) matches Some(p) && same_path(system, p, folder))
                <==> takes_in(system, folder, name)
            &&& takes_in(system, folder, name) ==> file_name(system, beside) == Some(name)
        }),
{
    match system {
        System::Linux => {
            assert forall|i: int| 0 <= i < name.len() implies !path::separates(
                path::Separators::Slash,
                #[trigger] name[i],
            ) by {
                assert(!path::separates(path::Separators::Both, name[i]));
            }
            linux::lemma_beside(path, name);
        },
        System::Windows => {
            windows::lemma_beside(path, name);
        },
    }
}

/// A hidden name put into a folder stands at the end.
pub proof fn lemma_name_ends(system: System, folder: Seq<char>, name: Seq<char>)
    requires
        path::plain_name(name, path::Separators::Both),
        name.len() > 1,
        name[0] == '.',
        name != ".."@,
    ensures
        name.is_suffix_of(joined(system, folder, name)),
{
    match system {
        System::Linux => {
            let u = linux::joined(folder, name);
            assert(u.skip(u.len() - name.len()) =~= name);
        },
        System::Windows => {
            windows::lemma_name_at_end_of(folder, name);
        },
    }
}

/// The trail behind a path, the top first, the path itself last.
pub open spec fn trail(system: System, path: Seq<char>) -> Seq<(Seq<char>, Seq<char>)> {
    match system {
        System::Linux => linux::trail(path),
        System::Windows => windows::trail(path),
    }
}

/// The trail behind a path. Each entry is the label shown and the path to open.
pub fn crumbs(system: System, path: &str) -> (r: Vec<(String, String)>)
    ensures
        path::pairs(r@) == trail(system, path@),
{
    match system {
        System::Linux => linux::crumbs(path),
        System::Windows => windows::crumbs(path),
    }
}

/// A folder that the system keeps for itself.
pub open spec fn system_dir(system: System, name: Seq<char>) -> bool {
    match system {
        System::Linux => false,
        System::Windows => windows::kept_by_system(name),
    }
}

/// Whether the system keeps a folder for itself.
pub fn is_system_dir(system: System, name: &str) -> (r: bool)
    ensures
        r == system_dir(system, name@),
{
    match system {
        System::Linux => linux::is_system_dir(name),
        System::Windows => windows::is_system_dir(name),
    }
}

/// The first of some places that is there.
pub open spec fn first_there(places: Seq<(String, bool)>) -> Option<Seq<char>>
    decreases places.len(),
{
    if places.len() == 0 {
        None
    } else if places.first().1 {
        Some(places.first().0@)
    } else {
        first_there(places.drop_first())
    }
}

/// Where a program is along the search path: the first of the places that holds it. Each
/// is given with whether it does.
pub fn in_path(places: Vec<(String, bool)>) -> (r: Option<String>)
    ensures
        opt_text(r) == first_there(places@),
{
    let n: usize = places.len();
    assert(places@.skip(0) =~= places@);
    for i in 0..n
        invariant
            n == places@.len(),
            first_there(places@) == first_there(places@.skip(i as int)),
    {
        let ghost rest = places@.skip(i as int);
        assert(rest.first() == places@[i as int]);
        if places[i].1 {
            return Some(places[i].0.clone());
        }
        assert(rest.drop_first() =~= places@.skip(i as int + 1));
    }
    assert(first_there(places@.skip(n as int)) is None);
    None
}

/// The name of the system.
pub fn system_name(system: System) -> (r: &'static str)
    ensures
        r@ == match system {
            System::Linux => "linux"@,
            System::Windows => "windows"@,
        },
{
    match system {
        System::Linux => linux::SYSTEM_NAME,
        System::Windows => windows::SYSTEM_NAME,
    }
}

/// Along a search path the first place that has something counts.
pub proof fn law_the_first_place_counts(
    before: Seq<(String, bool)>,
    at: String,
    after: Seq<(String, bool)>,
)
    requires
        forall|i: int| 0 <= i < before.len() ==> !(#[trigger] before[i]).1,
    ensures
        first_there(before + seq![(at, true)] + after) == Some(at@),
        first_there(before) is None,
    decreases before.len(),
{
    let all = before + seq![(at, true)] + after;
    if before.len() == 0 {
        assert(all.first() == (at, true));
    } else {
        let less = before.drop_first();
        assert(all.first() == before[0] && before.first() == before[0]);
        assert(all.drop_first() =~= less + seq![(at, true)] + after);
        assert forall|i: int| 0 <= i < less.len() implies !(#[trigger] less[i]).1 by {
            assert(less[i] == before[i + 1]);
        }
        law_the_first_place_counts(less, at, after);
    }
}

/// The position of an item in the shared form has the same characters, with a slash where
/// Windows writes a backslash; on Linux it is left alone.
pub proof fn law_only_separators_change(system: System, rel: Seq<char>, i: int)
    requires
        0 <= i < rel.len(),
    ensures
        shared_rel(system, rel).len() == rel.len(),
        system is Linux || rel[i] != '\\' ==> shared_rel(system, rel)[i] == rel[i],
        system is Windows && rel[i] == '\\' ==> shared_rel(system, rel)[i] == '/',
{
}

/// Only Windows keeps folders for itself that are told by their names.
pub proof fn law_who_keeps_folders(name: Seq<char>)
    ensures
        !system_dir(System::Linux, name),
        system_dir(System::Windows, name) <==> windows::kept_by_system(name),
{
}

} // verus!
