//! Linux.
use vstd::prelude::*;

use super::path::{
    cut_name, last_name, lemma_ends_with_name, lemma_name_behind, lemma_tidied, lemma_without_name, pairs, plain_name,
    reversed, separates, without_name, Separators,
};
use crate::error::{
    failure_of, lemma_words_wanted, may_be_of, os_number, without_number, CmdError, FailureKind,
    Fault, IoFailure,
};
use crate::text::number::{decimal, decimal_string, is_digit, is_digit_char};
use crate::text::search::{
    join, law_a_text_is_split_at_every_place, law_the_first_character_is_found, lemma_rfind_to,
    lines, lines_of, occurs_at, rfind, rfind_in, split, split_on, starts_with, str_starts_with, trim_end,
    trimmed_end, words, words_of,
};
use crate::text::{
    chars_of, join2, listed, lossy_text, reads, same_str, string_of, texts, utf8_lossy, views,
};

verus! {

/// The name of this system, for the few texts whose wording depends on it.
pub const SYSTEM_NAME: &'static str = "linux";

/// A position relative to a folder, in the shared form (names separated by
/// slashes), as it is born from the system's own form. It is the same form here.
pub fn rel_from_os(rel: &str) -> (r: String)
    ensures
        r@ == rel@,
{
    rel.to_owned()
}

/// A path with another one behind it; an absolute one stands for itself.
pub open spec fn joined(root: Seq<char>, rel: Seq<char>) -> Seq<char> {
    if rel.len() > 0 && rel[0] == '/' {
        rel
    } else if root.len() > 0 && root.last() != '/' {
        root + "/"@ + rel
    } else {
        root + rel
    }
}

/// The path of a position inside a folder; the empty position is the folder.
pub open spec fn placed_in(root: Seq<char>, rel: Seq<char>) -> Seq<char> {
    if rel.len() == 0 {
        root
    } else {
        joined(root, rel)
    }
}

/// A position inside a folder, back in the form that the disk understands.
pub fn join_rel(root: &str, rel: &str) -> (r: String)
    ensures
        r@ == placed_in(root@, rel@),
{
    let front = chars_of(root);
    let back = chars_of(rel);
    if back.len() == 0 {
        return root.to_owned();
    }
    if back[0] == '/' {
        return rel.to_owned();
    }
    if front.len() > 0 && front[front.len() - 1] != '/' {
        return crate::text::join3(root, "/", rel);
    }
    join2(root, rel)
}

/// A text can stand behind a folder: it does not start at the root.
pub open spec fn relative(rest: Seq<char>) -> bool {
    rest.len() == 0 || rest[0] != '/'
}

/// A text behind a folder: with a slash between, unless the folder ends with one or is
/// the folder one is in.
pub open spec fn behind(root: Seq<char>, rest: Seq<char>) -> Seq<char> {
    if rest.len() == 0 {
        root
    } else if root.len() > 0 && root.last() != '/' {
        root + "/"@ + rest
    } else {
        root + rest
    }
}

/// The names of a mount point: its pieces that are not empty.
pub open spec fn segments(pieces: Seq<Seq<char>>) -> Seq<Seq<char>>
    decreases pieces.len(),
{
    if pieces.len() == 0 {
        Seq::empty()
    } else if pieces.last().len() == 0 {
        segments(pieces.drop_last())
    } else {
        segments(pieces.drop_last()).push(pieces.last())
    }
}

/// The names of a mount point.
fn segments_of<'a>(mount: &'a [char]) -> (r: Vec<&'a [char]>)
    ensures
        views(r@) == segments(split(mount@, "/"@)),
{
    proof {
        reveal_strlit("/");
    }
    let slash = chars_of("/");
    let pieces = split_on(mount, &slash);
    let ghost all = split(mount@, "/"@);
    let mut out: Vec<&'a [char]> = Vec::new();
    let n: usize = pieces.len();
    assert(views(out@) =~= segments(all.take(0)));
    for i in 0..n
        invariant
            n == pieces@.len(),
            views(pieces@) == all,
            views(out@) == segments(all.take(i as int)),
    {
        let ghost before = views(out@);
        assert(all.take(i as int + 1).drop_last() =~= all.take(i as int));
        assert(all.take(i as int + 1).last() == pieces@[i as int]@);
        if pieces[i].len() > 0 {
            out.push(pieces[i]);
            assert(views(out@) =~= before.push(pieces@[i as int]@));
        }
    }
    assert(all.take(n as int) =~= all);
    out
}

/// Mount points that belong to the system rather than to the user. Whole names
/// decide, not the start of the text: a disk mounted on /development is not
/// /dev.
pub open spec fn system_mount(mount: Seq<char>) -> bool {
    let names = segments(split(mount, "/"@));
    ||| names.len() > 0 && (names[0] == "boot"@ || names[0] == "snap"@ || names[0] == "sys"@
        || names[0] == "proc"@ || names[0] == "dev"@)
    ||| names.len() > 1 && names[0] == "run"@ && names[1] == "user"@
}

/// Whether a mount point belongs to the system.
pub fn is_system_mount(mount: &str) -> (r: bool)
    ensures
        r == system_mount(mount@),
{
    let chars = chars_of(mount);
    let names = segments_of(&chars);
    if names.len() == 0 {
        return false;
    }
    assert(views(names@)[0] == names@[0]@);
    let first = names[0];
    if reads(first, "boot") || reads(first, "snap") || reads(first, "sys") || reads(first, "proc")
        || reads(first, "dev") {
        return true;
    }
    if names.len() == 1 {
        return false;
    }
    assert(views(names@)[1] == names@[1]@);
    reads(first, "run") && reads(names[1], "user")
}

/// A path lies on a mount point, or is it.
pub open spec fn lies_on(path: Seq<char>, mount: Seq<char>) -> bool {
    mount == "/"@ || path == mount || (mount + "/"@).is_prefix_of(path)
}

/// Whether a path lies on a mount point: the root holds everything.
pub fn holds_home(mount: &str, home: &str) -> (r: bool)
    ensures
        r == lies_on(home@, mount@),
{
    if same_str(mount, "/") {
        return true;
    }
    if same_str(home, mount) {
        return true;
    }
    let below = join2(mount, "/");
    str_starts_with(home, &below)
}

/// The name of a mount point: its last one, or the mount point itself where it
/// has none.
pub open spec fn mount_name(mount: Seq<char>) -> Seq<char> {
    let names = segments(split(mount, "/"@));
    if names.len() == 0 {
        mount
    } else {
        names.last()
    }
}

/// The character that a backslash and three digits stand for in the mount table:
/// the kernel writes what would break a line or a column that way, and the backslash
/// itself.
pub open spec fn escaped(a: char, b: char, c: char) -> Option<char> {
    if a == '0' && b == '4' && c == '0' {
        Some(' ')
    } else if a == '0' && b == '1' && c == '1' {
        Some('\t')
    } else if a == '0' && b == '1' && c == '2' {
        Some('\n')
    } else if a == '1' && b == '3' && c == '4' {
        Some('\\')
    } else if a == '0' && b == '4' && c == '3' {
        Some('#')
    } else {
        None
    }
}

/// The character that a text begins with in an escaped form, where it does.
pub open spec fn escape_at(s: Seq<char>) -> Option<char> {
    if s.len() >= 4 && s[0] == '\\' {
        escaped(s[1], s[2], s[3])
    } else {
        None
    }
}

/// A column of the mount table as it reads without escapes.
pub open spec fn unescaped(s: Seq<char>) -> Seq<char>
    decreases s.len(),
{
    if s.len() == 0 {
        Seq::empty()
    } else {
        match escape_at(s) {
            Some(c) => seq![c] + unescaped(s.skip(4)),
            None => seq![s[0]] + unescaped(s.skip(1)),
        }
    }
}

/// A column of the mount table as it reads without escapes.
fn unescape(s: &[char]) -> (r: Vec<char>)
    ensures
        r@ == unescaped(s@),
{
    let n: usize = s.len();
    let mut out: Vec<char> = Vec::new();
    let mut i: usize = 0;
    assert(s@.skip(0) =~= s@);
    assert(out@ + unescaped(s@) =~= unescaped(s@));
    while i < n
        invariant
            n == s@.len(),
            i <= n,
            out@ + unescaped(s@.skip(i as int)) == unescaped(s@),
        decreases n - i,
    {
        let ghost rest = s@.skip(i as int);
        let ghost before = out@;
        let found = if n - i >= 4 && s[i] == '\\' {
            let (a, b, c) = (s[i + 1], s[i + 2], s[i + 3]);
            if a == '0' && b == '4' && c == '0' {
                Some(' ')
            } else if a == '0' && b == '1' && c == '1' {
                Some('\t')
            } else if a == '0' && b == '1' && c == '2' {
                Some('\n')
            } else if a == '1' && b == '3' && c == '4' {
                Some('\\')
            } else if a == '0' && b == '4' && c == '3' {
                Some('#')
            } else {
                None
            }
        } else {
            None
        };
        assert(found == escape_at(rest));
        match found {
            Some(c) => {
                out.push(c);
                assert(rest.skip(4) =~= s@.skip(i as int + 4));
                assert(out@ + unescaped(s@.skip(i as int + 4)) =~= before + unescaped(rest));
                i = i + 4;
            },
            None => {
                out.push(s[i]);
                assert(rest.skip(1) =~= s@.skip(i as int + 1));
                assert(out@ + unescaped(s@.skip(i as int + 1)) =~= before + unescaped(rest));
                i = i + 1;
            },
        }
    }
    assert(unescaped(s@.skip(n as int)) =~= Seq::<char>::empty());
    assert(out@ =~= unescaped(s@));
    out
}

/// The device of a line of the mount table whose mount point holds the personal
/// folder: it is the machine itself, wherever else it is mounted.
pub open spec fn own_device(line: Seq<char>, home: Seq<char>) -> Option<Seq<char>> {
    let w = words(line);
    if w.len() >= 2 && lies_on(home, unescaped(w[1])) {
        Some(w[0])
    } else {
        None
    }
}

/// The devices that are the machine itself: those that carry the root or the
/// personal folder.
pub open spec fn own_devices(table: Seq<Seq<char>>, home: Seq<char>) -> Seq<Seq<char>>
    decreases table.len(),
{
    if table.len() == 0 {
        Seq::empty()
    } else {
        match own_device(table.last(), home) {
            Some(dev) => own_devices(table.drop_last(), home).push(dev),
            None => own_devices(table.drop_last(), home),
        }
    }
}

/// The device and the mount point of a line of the mount table, where the line
/// is worth showing: a real device, not a packed image, not the system's, and
/// not what holds the personal folder.
pub open spec fn shown(line: Seq<char>, home: Seq<char>) -> Option<(Seq<char>, Seq<char>)> {
    let w = words(line);
    let mount = unescaped(w[1]);
    if w.len() >= 3 && "/dev/"@.is_prefix_of(w[0]) && w[2] != "squashfs"@ && !system_mount(mount)
        && !lies_on(home, mount) {
        Some((w[0], mount))
    } else {
        None
    }
}

/// The devices of the table, each once, apart from those that are `already` known:
/// the first mount point of a device is the one that counts. Each entry is the name
/// shown and the path to open.
pub open spec fn devices(
    table: Seq<Seq<char>>,
    home: Seq<char>,
    already: Seq<Seq<char>>,
) -> Seq<(Seq<char>, Seq<char>)>
    decreases table.len(),
{
    if table.len() == 0 {
        Seq::empty()
    } else {
        match shown(table.first(), home) {
            Some((dev, mount)) if !already.contains(dev) => seq![(mount_name(mount), mount)]
                + devices(table.drop_first(), home, already.push(dev)),
            _ => devices(table.drop_first(), home, already),
        }
    }
}

/// The devices that somebody plugged in: those of the table that are not the machine
/// itself.
pub open spec fn plugged_in(table: Seq<Seq<char>>, home: Seq<char>) -> Seq<
    (Seq<char>, Seq<char>),
> {
    devices(table, home, own_devices(table, home))
}

/// The devices that are the machine itself.
fn find_own(table: &Vec<&[char]>, home: &str) -> (r: Vec<String>)
    ensures
        texts(r@) == own_devices(views(table@), home@),
{
    let ghost all = views(table@);
    let mut own: Vec<String> = Vec::new();
    let n: usize = table.len();
    assert(texts(own@) =~= own_devices(all.take(0), home@));
    for i in 0..n
        invariant
            n == table@.len(),
            all == views(table@),
            texts(own@) == own_devices(all.take(i as int), home@),
    {
        let ghost before = texts(own@);
        assert(all.take(i as int + 1).drop_last() =~= all.take(i as int));
        assert(all.take(i as int + 1).last() == table@[i as int]@);
        let w = words_of(table[i]);
        if w.len() >= 2 {
            proof {
                assert(views(w@)[0] == w@[0]@);
                assert(views(w@)[1] == w@[1]@);
            }
            let mount = string_of(&unescape(w[1]));
            if holds_home(&mount, home) {
                own.push(string_of(w[0]));
                assert(texts(own@) =~= before.push(w@[0]@));
            }
        }
    }
    assert(all.take(n as int) =~= all);
    own
}

/// The device and the mount point of a line that is worth showing.
fn shown_in<'a>(line: &'a [char], home: &str) -> (r: Option<(&'a [char], Vec<char>)>)
    ensures
        match r {
            Some((dev, mount)) => shown(line@, home@) == Some((dev@, mount@)),
            None => shown(line@, home@) is None,
        },
{
    let w = words_of(line);
    if w.len() < 3 {
        return None;
    }
    proof {
        assert(views(w@)[0] == w@[0]@);
        assert(views(w@)[1] == w@[1]@);
        assert(views(w@)[2] == w@[2]@);
    }
    let start = chars_of("/dev/");
    let place = unescape(w[1]);
    let mount = string_of(&place);
    if starts_with(w[0], &start) && !reads(w[2], "squashfs") && !is_system_mount(&mount)
        && !holds_home(&mount, home) {
        Some((w[0], place))
    } else {
        None
    }
}

/// The mounted devices that somebody plugged in, from the mount table of the
/// kernel. Each entry is the name shown and the path to open.
pub fn list_devices(mounts: Result<String, Fault<String>>, home: &str) -> (r: Result<
    Vec<(String, String)>,
    CmdError,
>)
    ensures
        match r {
            Ok(v) => mounts matches Ok(content) && pairs(v@) == plugged_in(
                lines(content@),
                home@,
            ),
            Err(e) => mounts matches Err(f) && e.says(
                "devices_not_listed"@,
                without_number(f.text@),
            ),
        },
{
    let content = match mounts {
        Ok(c) => c,
        Err(f) => {
            proof {
                reveal_strlit("devices_not_listed");
                lemma_words_wanted("devices_not_listed"@);
            }
            return Err(CmdError::from_words("devices_not_listed", &f.text));
        },
    };
    let chars = chars_of(&content);
    let table = lines_of(&chars);
    let ghost all = lines(content@);
    let mut out: Vec<(String, String)> = Vec::new();
    let mut already: Vec<String> = find_own(&table, home);
    let n: usize = table.len();
    assert(all.skip(0) =~= all);
    assert(plugged_in(all, home@) =~= pairs(out@) + plugged_in(all, home@));
    for i in 0..n
        invariant
            n == table@.len(),
            views(table@) == all,
            plugged_in(all, home@) == pairs(out@) + devices(
                all.skip(i as int),
                home@,
                texts(already@),
            ),
    {
        let ghost before = pairs(out@);
        let ghost seen = texts(already@);
        assert(all.skip(i as int).first() == table@[i as int]@);
        assert(all.skip(i as int).drop_first() =~= all.skip(i as int + 1));
        match shown_in(table[i], home) {
            Some((dev, mount)) => {
                if !listed(&already, dev) {
                    already.push(string_of(dev));
                    assert(texts(already@) =~= seen.push(dev@));
                    let names = segments_of(&mount);
                    let name = if names.len() == 0 {
                        string_of(&mount)
                    } else {
                        assert(views(names@).last() == names@[names@.len() - 1]@);
                        string_of(names[names.len() - 1])
                    };
                    out.push((name, string_of(&mount)));
                    assert(pairs(out@) =~= before.push((mount_name(mount@), mount@)));
                }
            },
            None => {},
        }
        assert(plugged_in(all, home@) =~= pairs(out@) + devices(
            all.skip(i as int + 1),
            home@,
            texts(already@),
        ));
    }
    assert(all.skip(n as int) =~= Seq::<Seq<char>>::empty());
    assert(pairs(out@) =~= plugged_in(all, home@));
    Ok(out)
}

/// An entry of the list comes from this line of the table, and its device is not
/// among some others.
pub open spec fn comes_from(
    entry: (Seq<char>, Seq<char>),
    line: Seq<char>,
    home: Seq<char>,
    others: Seq<Seq<char>>,
) -> bool {
    shown(line, home) matches Some((dev, mount)) && entry == (mount_name(mount), mount)
        && !others.contains(dev)
}

/// What the list shows never belongs to the machine itself: neither the root, nor
/// what holds the personal folder, nor a mount point of the system; and its device
/// carries neither the root nor the personal folder, at this or any other mount
/// point.
pub proof fn law_the_machines_own_mounts_stay_out(
    table: Seq<Seq<char>>,
    home: Seq<char>,
    i: int,
)
    requires
        0 <= i < plugged_in(table, home).len(),
    ensures
        ({
            let mount = plugged_in(table, home)[i].1;
            mount != "/"@ && !lies_on(home, mount) && !system_mount(mount)
        }),
        exists|j: int|
            0 <= j < table.len() && #[trigger] comes_from(
                plugged_in(table, home)[i],
                table[j],
                home,
                own_devices(table, home),
            ),
        forall|k: int|
            0 <= k < table.len() && (#[trigger] own_device(table[k], home)) is Some
                ==> own_devices(table, home).contains(own_device(table[k], home)->0),
{
    let own = own_devices(table, home);
    lemma_devices_come_from(table, home, own, i);
    let j = choose|j: int|
        0 <= j < table.len() && #[trigger] comes_from(
            plugged_in(table, home)[i],
            table[j],
            home,
            own,
        );
    assert(comes_from(plugged_in(table, home)[i], table[j], home, own));
    assert forall|k: int| 0 <= k < table.len() && (#[trigger] own_device(table[k], home)) is Some
        implies own.contains(own_device(table[k], home)->0) by {
        lemma_own_device_listed(table, home, k);
    }
}

proof fn lemma_devices_come_from(
    table: Seq<Seq<char>>,
    home: Seq<char>,
    already: Seq<Seq<char>>,
    i: int,
)
    requires
        0 <= i < devices(table, home, already).len(),
    ensures
        exists|j: int|
            0 <= j < table.len() && #[trigger] comes_from(
                devices(table, home, already)[i],
                table[j],
                home,
                already,
            ),
    decreases table.len(),
{
    let rest = table.drop_first();
    let entry = devices(table, home, already)[i];
    match shown(table.first(), home) {
        Some((dev, mount)) if !already.contains(dev) => {
            if i == 0 {
                assert(comes_from(entry, table[0], home, already));
            } else {
                let more = already.push(dev);
                lemma_devices_come_from(rest, home, more, i - 1);
                let j = choose|j: int|
                    0 <= j < rest.len() && #[trigger] comes_from(entry, rest[j], home, more);
                assert(rest[j] == table[j + 1]);
                let found = (shown(table[j + 1], home)->0).0;
                if already.contains(found) {
                    let q = choose|q: int| 0 <= q < already.len() && already[q] == found;
                    assert(more[q] == found);
                }
                assert(comes_from(entry, table[j + 1], home, already));
            }
        },
        _ => {
            lemma_devices_come_from(rest, home, already, i);
            let j = choose|j: int|
                0 <= j < rest.len() && #[trigger] comes_from(entry, rest[j], home, already);
            assert(rest[j] == table[j + 1]);
            assert(comes_from(entry, table[j + 1], home, already));
        },
    }
}

proof fn lemma_own_device_listed(table: Seq<Seq<char>>, home: Seq<char>, k: int)
    requires
        0 <= k < table.len(),
        own_device(table[k], home) is Some,
    ensures
        own_devices(table, home).contains(own_device(table[k], home)->0),
    decreases table.len(),
{
    let own = own_devices(table, home);
    if k == table.len() - 1 {
        assert(own[own.len() - 1] == own_device(table[k], home)->0);
    } else {
        let front = table.drop_last();
        lemma_own_device_listed(front, home, k);
        let dev = own_device(table[k], home)->0;
        let q = choose|q: int|
            0 <= q < own_devices(front, home).len() && own_devices(front, home)[q] == dev;
        assert(own[q] == dev);
    }
}

/// Where the folder picker opens: the personal folder, and the root where the
/// system names none.
pub fn home_dir(named: Option<String>) -> (r: String)
    ensures
        r@ == match named {
            Some(h) => h@,
            None => "/"@,
        },
{
    match named {
        Some(h) => h,
        None => "/".to_owned(),
    }
}

/// The single root of the filesystem.
pub fn root_path() -> (r: Option<String>)
    ensures
        r matches Some(s) && s@ == "/"@,
{
    Some("/".to_owned())
}

/// Where the names of a path begin: after the root, or after a dot in front that
/// stands for the folder one is in.
pub open spec fn body_of(path: Seq<char>) -> int {
    if path.len() > 0 && path[0] == '/' {
        1
    } else if path.len() > 0 && path[0] == '.' && (path.len() == 1 || path[1] == '/') {
        1
    } else {
        0
    }
}

/// What is above a path; nothing is above the root.
pub open spec fn parent(path: Seq<char>) -> Option<Seq<char>> {
    match without_name(path, body_of(path), Separators::Slash) {
        Some(p) => Some(p),
        None => if path.len() > 0 && path[0] == '.' && body_of(path) == 1 {
            Some(Seq::empty())
        } else {
            None
        },
    }
}

/// The last name of a path; a step up is no name.
pub open spec fn file_name(path: Seq<char>) -> Option<Seq<char>> {
    match last_name(path, body_of(path), Separators::Slash) {
        Some(name) => if name == ".."@ {
            None
        } else {
            Some(name)
        },
        None => None,
    }
}

/// Going up makes a path shorter.
pub proof fn lemma_parent(path: Seq<char>)
    ensures
        match parent(path) {
            Some(p) => p.len() < path.len(),
            None => true,
        },
{
    lemma_without_name(path, body_of(path), Separators::Slash);
}

/// A hidden name put into the folder of a path: the folder is above it, and it is the
/// last name there.
pub proof fn lemma_beside(path: Seq<char>, name: Seq<char>)
    requires
        plain_name(name, Separators::Slash),
        name.len() > 1,
        name != ".."@,
        parent(path) is Some,
    ensures
        parent(joined(parent(path)->0, name)) == parent(path),
        file_name(joined(parent(path)->0, name)) == Some(name),
{
    let seps = Separators::Slash;
    let p = parent(path)->0;
    let u = joined(p, name);
    let k = body_of(path);
    reveal_strlit("/");
    lemma_without_name(path, k, seps);
    lemma_tidied(path, k, seps);
    assert(!separates(seps, name[0]) && !separates(seps, name[1]));
    let empty = Seq::<char>::empty();
    if without_name(path, k, seps) is None {
        assert(p + empty + name =~= u);
        lemma_name_behind(p, 0, seps, empty, name);
    } else {
        assert(p =~= path.take(p.len() as int));
        if p.len() > 0 {
            assert(p[0] == path[0]);
        }
        if p.len() > 1 {
            assert(p[1] == path[1]);
        }
        if p.len() == k && (p.len() == 0 || p[0] == '/') {
            assert(p + empty + name =~= u);
            assert(body_of(u) == k);
            lemma_name_behind(p, k, seps, empty, name);
        } else {
            if p.len() == 1 && k == 0 && p[0] == '.' {
                reveal_with_fuel(super::path::last_separator, 2);
                assert(super::path::last_separator(p, k, seps) is None);
                assert(p.skip(0) =~= seq!['.']);
            }
            assert(u =~= p + "/"@ + name);
            assert(body_of(u) == k);
            lemma_name_behind(p, k, seps, "/"@, name);
        }
    }
}

/// A path and everything above it, the path first.
pub open spec fn ancestors(path: Seq<char>) -> Seq<Seq<char>>
    decreases path.len(),
{
    proof {
        lemma_parent(path);
    }
    match parent(path) {
        Some(p) => seq![path] + ancestors(p),
        None => seq![path],
    }
}

/// The entry of one path in the trail: the label shown and the path to open.
pub open spec fn crumb(path: Seq<char>) -> (Seq<char>, Seq<char>) {
    match file_name(path) {
        Some(name) => (name, path),
        None => ("/"@, path),
    }
}

/// The trail behind a path, the root first, the path itself last.
pub open spec fn trail(path: Seq<char>) -> Seq<(Seq<char>, Seq<char>)> {
    ancestors(path).map_values(|p: Seq<char>| crumb(p)).reverse()
}

/// Where the names of a path begin.
fn body_start(path: &[char]) -> (r: usize)
    ensures
        r == body_of(path@),
        r <= path@.len(),
{
    if path.len() > 0 && path[0] == '/' {
        1
    } else if path.len() > 0 && path[0] == '.' && (path.len() == 1 || path[1] == '/') {
        1
    } else {
        0
    }
}

/// What is above a path.
fn up<'a>(path: &'a [char]) -> (r: Option<&'a [char]>)
    ensures
        match r {
            Some(p) => parent(path@) == Some(p@) && p@.len() < path@.len(),
            None => parent(path@) is None,
        },
{
    let k: usize = body_start(path);
    match cut_name(path, k, Separators::Slash) {
        Some((front, _)) => Some(front),
        None => {
            if path.len() > 0 && path[0] == '.' && k == 1 {
                let empty = vstd::slice::slice_subrange(path, 0, 0);
                assert(empty@ =~= Seq::<char>::empty());
                Some(empty)
            } else {
                None
            }
        },
    }
}

/// The last name of a path.
fn name_in<'a>(path: &'a [char]) -> (r: Option<&'a [char]>)
    ensures
        match r {
            Some(n) => file_name(path@) == Some(n@),
            None => file_name(path@) is None,
        },
{
    match cut_name(path, body_start(path), Separators::Slash) {
        Some((_, name)) => if reads(name, "..") {
            None
        } else {
            Some(name)
        },
        None => None,
    }
}

/// The trail behind a path, the root first, the path itself last. Each entry is
/// the label shown and the path to open.
pub fn crumbs(path: &str) -> (r: Vec<(String, String)>)
    ensures
        pairs(r@) == trail(path@),
{
    let chars = chars_of(path);
    let mut here: &[char] = &chars;
    let mut out: Vec<(String, String)> = Vec::new();
    let ghost whole = ancestors(path@);
    assert(ancestors(here@) =~= whole.skip(0));
    loop
        invariant
            whole == ancestors(path@),
            out@.len() < whole.len(),
            ancestors(here@) == whole.skip(out@.len() as int),
            forall|i: int|
                0 <= i < out@.len() ==> crumb(#[trigger] whole[i]) == (out@[i].0@, out@[i].1@),
        decreases here@.len(),
    {
        let ghost n = out@.len() as int;
        assert(whole[n] == whole.skip(n)[0]);
        assert(whole[n] == here@);
        let label = match name_in(here) {
            Some(name) => string_of(name),
            None => "/".to_owned(),
        };
        out.push((label, string_of(here)));
        match up(here) {
            Some(p) => {
                assert(ancestors(here@).skip(1) =~= ancestors(p@));
                assert(whole.skip(n).skip(1) =~= whole.skip(n + 1));
                assert(ancestors(p@).len() > 0);
                here = p;
            },
            None => {
                assert(ancestors(here@).len() == 1);
                let r = reversed(out);
                assert(pairs(r@) =~= trail(path@));
                return r;
            },
        }
    }
}

/// What is above a path, nothing at the root.
pub fn parent_of(path: &str) -> (r: Option<String>)
    ensures
        crate::text::opt_text(r) == parent(path@),
{
    let chars = chars_of(path);
    match up(&chars) {
        Some(p) => Some(string_of(p)),
        None => None,
    }
}

/// Whether an item is hidden the way this system means it: its name begins with
/// a dot.
pub fn is_hidden(path: &str) -> (r: bool)
    ensures
        r == (file_name(path@) matches Some(name) && name.len() > 0 && name[0] == '.'),
{
    let chars = chars_of(path);
    match name_in(&chars) {
        Some(name) => name.len() > 0 && name[0] == '.',
        None => false,
    }
}

/// Whether this system keeps a folder for itself, on top of the shared
/// exclusions. Nothing here: the ones that matter already begin with a dot.
pub fn is_system_dir(_name: &str) -> (r: bool)
    ensures
        !r,
{
    false
}

/// The permissions that make a write-protected file writable again: the owner's
/// write bit and no other.
pub fn clear_write_protection(mode: u32) -> (r: u32)
    ensures
        r & 0o200 == 0o200,
        r & !0o200 == mode & !0o200,
{
    assert((mode | 0o200) & 0o200 == 0o200) by (bit_vector);
    assert((mode | 0o200) & !0o200 == mode & !0o200) by (bit_vector);
    mode | 0o200
}

/// Why an operation failed, in the stable form that is turned into a sentence
/// later. The kind covers the stable cases; the rest is the errno number, which
/// on this system is a kernel contract.
pub open spec fn cause(failure: IoFailure) -> Seq<char> {
    match failure.kind {
        FailureKind::PermissionDenied => "permission"@,
        FailureKind::NotFound => "missing"@,
        FailureKind::Other => if failure.raw == Some(5i32) {
            "io"@
        } else if failure.raw == Some(28i32) {
            "nospace"@
        } else if failure.raw == Some(30i32) {
            "readonly"@
        } else if failure.raw == Some(6i32) || failure.raw == Some(19i32) {
            "device"@
        } else {
            "other"@
        },
    }
}

/// Why an operation failed, from its kind and number.
pub fn cause_of_failure(failure: IoFailure) -> (r: &'static str)
    ensures
        r@ == cause(failure),
{
    match failure.kind {
        FailureKind::PermissionDenied => "permission",
        FailureKind::NotFound => "missing",
        FailureKind::Other => match failure.raw {
            Some(n) => if n == 5 {
                "io"
            } else if n == 28 {
                "nospace"
            } else if n == 30 {
                "readonly"
            } else if n == 6 || n == 19 {
                "device"
            } else {
                "other"
            },
            None => "other",
        },
    }
}

/// Why an operation failed.
pub fn cause_of(e: &std::io::Error) -> (r: &'static str)
    ensures
        exists|failure: IoFailure|
            failure.raw == os_number(*e) && may_be_of(*e, failure.kind) && r@ == #[trigger] cause(
                failure,
            ),
{
    let failure = failure_of(e);
    cause_of_failure(failure)
}

/// What follows the attempt to hand an item to the program that the desktop
/// associates with it, from how that ended and from what was said.
pub fn opened(success: bool, stderr: &str) -> (r: Result<(), CmdError>)
    ensures
        match r {
            Ok(_) => success,
            Err(e) => !success && e.says("no_app_for_type"@, trim_end(stderr@)),
        },
{
    if success {
        Ok(())
    } else {
        let chars = chars_of(stderr);
        Err(CmdError::with_detail("no_app_for_type", string_of(trimmed_end(&chars))))
    }
}

/// What follows the attempt to hand an item to the program that the desktop
/// associates with it: whether the opener ran and ended well, and what it
/// printed.
pub fn open_with_default(run: Result<(bool, Vec<u8>), Fault<String>>) -> (r: Result<(), CmdError>)
    ensures
        match r {
            Ok(_) => run matches Ok(out) && out.0,
            Err(e) => match run {
                Ok(out) => !out.0 && e.says("no_app_for_type"@, trim_end(lossy_text(out.1@))),
                Err(f) => e.says("open_failed"@, without_number(f.text@)),
            },
        },
{
    match run {
        Ok((success, stderr)) => {
            let said = utf8_lossy(&stderr);
            opened(success, &said)
        },
        Err(f) => {
            proof {
                reveal_strlit("open_failed");
                lemma_words_wanted("open_failed"@);
            }
            Err(CmdError::from_words("open_failed", &f.text))
        },
    }
}

/// What follows the attempt to open a page in the browser.
pub fn open_url(run: Result<(), Fault<String>>) -> (r: Result<(), CmdError>)
    ensures
        match r {
            Ok(_) => run is Ok,
            Err(e) => run matches Err(f) && e.says("no_browser"@, without_number(f.text@)),
        },
{
    match run {
        Ok(_) => Ok(()),
        Err(f) => {
            proof {
                reveal_strlit("no_browser");
                reveal_strlit("permission");
                assert("permission"@[0] == 'p');
                lemma_words_wanted("no_browser"@);
            }
            Err(CmdError::from_words("no_browser", &f.text))
        },
    }
}

/// Identifies the storage device that holds a path, by the number that the
/// system gives it. Two partitions of one disk have different numbers.
pub fn device_id(dev: Option<u64>) -> (r: Option<String>)
    ensures
        crate::text::opt_text(r) == match dev {
            Some(n) => Some(decimal(n as nat)),
            None => None,
        },
{
    match dev {
        Some(n) => Some(decimal_string(n)),
        None => None,
    }
}

/// How many bytes a text takes.
pub open spec fn byte_len(s: Seq<char>) -> nat {
    vstd::utf8::encode_utf8(s).len()
}

/// The device and the mount point of a line that a path lies on.
pub open spec fn carries(line: Seq<char>, path: Seq<char>) -> Option<(Seq<char>, Seq<char>)> {
    let w = words(line);
    if w.len() >= 2 && "/dev/"@.is_prefix_of(w[0]) && lies_on(path, unescaped(w[1])) {
        Some((w[0], unescaped(w[1])))
    } else {
        None
    }
}

/// The device and the mount point that carry a path, from the lines of the mount
/// table: the longest mount point, and the first among equals. Empty where there
/// is none.
pub open spec fn carrier(table: Seq<Seq<char>>, path: Seq<char>) -> (Seq<char>, Seq<char>)
    decreases table.len(),
{
    if table.len() == 0 {
        (Seq::empty(), Seq::empty())
    } else {
        let best = carrier(table.drop_last(), path);
        match carries(table.last(), path) {
            Some((dev, mount)) if byte_len(mount) > byte_len(best.1) => (dev, mount),
            _ => best,
        }
    }
}

/// No mount point that a path lies on is longer than the one that is taken.
pub proof fn law_the_longest_mount_carries(table: Seq<Seq<char>>, path: Seq<char>, i: int)
    requires
        0 <= i < table.len(),
        carries(table[i], path) is Some,
    ensures
        byte_len((carries(table[i], path)->0).1) <= byte_len(carrier(table, path).1),
    decreases table.len(),
{
    if i < table.len() - 1 {
        law_the_longest_mount_carries(table.drop_last(), path, i);
    }
}

/// A text without the digits at its end.
pub open spec fn without_digits(s: Seq<char>) -> Seq<char>
    decreases s.len(),
{
    if s.len() > 0 && is_digit(s.last()) {
        without_digits(s.drop_last())
    } else {
        s
    }
}

/// Nothing but digits, and at least one.
pub open spec fn all_digits(s: Seq<char>) -> bool {
    s.len() > 0 && forall|i: int| 0 <= i < s.len() ==> is_digit(#[trigger] s[i])
}

/// The whole disk behind a device: /dev/sda for /dev/sda1, /dev/nvme0n1 for
/// /dev/nvme0n1p2, /dev/mmcblk0 for /dev/mmcblk0p1, and the device itself where
/// it is none of these.
pub open spec fn disk_of(dev: Seq<char>) -> Seq<char> {
    let start = "/dev/"@;
    let name = dev.skip(start.len() as int);
    if !start.is_prefix_of(dev) {
        dev
    } else if "nvme"@.is_prefix_of(name) || "mmcblk"@.is_prefix_of(name) {
        match rfind(name, "p"@) {
            Some(i) if all_digits(name.skip(i + 1)) => start + name.take(i),
            _ => dev,
        }
    } else if "sd"@.is_prefix_of(name) || "hd"@.is_prefix_of(name) {
        start + without_digits(name)
    } else {
        dev
    }
}

/// Whether a slice holds nothing but digits, and at least one.
fn is_all_digits(s: &[char]) -> (r: bool)
    ensures
        r == all_digits(s@),
{
    let n: usize = s.len();
    for i in 0..n
        invariant
            n == s@.len(),
            forall|k: int| 0 <= k < i ==> is_digit(#[trigger] s@[k]),
    {
        if !is_digit_char(s[i]) {
            assert(!is_digit(s@[i as int]));
            return false;
        }
    }
    n > 0
}

/// The slice without the digits at its end.
fn cut_digits<'a>(s: &'a [char]) -> (r: &'a [char])
    ensures
        r@ == without_digits(s@),
{
    let mut t: &'a [char] = s;
    while t.len() > 0
        invariant
            without_digits(s@) == without_digits(t@),
        decreases t@.len(),
    {
        if !is_digit_char(t[t.len() - 1]) {
            return t;
        }
        let shorter = vstd::slice::slice_subrange(t, 0, t.len() - 1);
        assert(shorter@ =~= t@.drop_last());
        t = shorter;
    }
    t
}

/// The whole disk behind a device.
pub fn whole_disk(dev: &str) -> (r: String)
    ensures
        r@ == disk_of(dev@),
{
    let chars = chars_of(dev);
    let start = chars_of("/dev/");
    if !starts_with(&chars, &start) {
        return dev.to_owned();
    }
    let name = vstd::slice::slice_subrange(&chars, start.len(), chars.len());
    assert(name@ =~= dev@.skip(start@.len() as int));
    let nvme = chars_of("nvme");
    let card = chars_of("mmcblk");
    if starts_with(name, &nvme) || starts_with(name, &card) {
        let p = chars_of("p");
        proof {
            reveal_strlit("p");
            lemma_rfind_to(name@, p@, name@.len() - p@.len());
        }
        match rfind_in(name, &p) {
            Some(i) => {
                let after = vstd::slice::slice_subrange(name, i + 1, name.len());
                assert(after@ =~= name@.skip(i + 1));
                if is_all_digits(after) {
                    let front = vstd::slice::slice_subrange(name, 0, i);
                    assert(front@ =~= name@.take(i as int));
                    let f = string_of(front);
                    return join2("/dev/", &f);
                }
            },
            None => {},
        }
        return dev.to_owned();
    }
    let sd = chars_of("sd");
    let hd = chars_of("hd");
    if starts_with(name, &sd) || starts_with(name, &hd) {
        let f = string_of(cut_digits(name));
        return join2("/dev/", &f);
    }
    dev.to_owned()
}

/// The device node that the health tool has to be pointed at for a path: the
/// whole disk, never the partition.
pub fn device_for_path(mounts: Result<String, Fault<String>>, path: &str) -> (r: Result<
    String,
    CmdError,
>)
    ensures
        match mounts {
            Ok(content) => {
                let best = carrier(lines(content@), path@);
                match r {
                    Ok(disk) => best.0.len() > 0 && disk@ == disk_of(best.0),
                    Err(e) => best.0.len() == 0 && e.says("disk_not_resolved"@, path@),
                }
            },
            Err(f) => r matches Err(e) && e.says("disk_not_resolved"@, without_number(f.text@)),
        },
{
    let content = match mounts {
        Ok(c) => c,
        Err(f) => {
            proof {
                reveal_strlit("disk_not_resolved");
                lemma_words_wanted("disk_not_resolved"@);
            }
            return Err(CmdError::from_words("disk_not_resolved", &f.text));
        },
    };
    let chars = chars_of(&content);
    let table = lines_of(&chars);
    let ghost all = lines(content@);
    let mut best_mount = String::new();
    let mut best_dev = String::new();
    let start = chars_of("/dev/");
    let n: usize = table.len();
    for i in 0..n
        invariant
            n == table@.len(),
            views(table@) == all,
            start@ == "/dev/"@,
            (best_dev@, best_mount@) == carrier(all.take(i as int), path@),
    {
        assert(all.take(i as int + 1).drop_last() =~= all.take(i as int));
        assert(all.take(i as int + 1).last() == table@[i as int]@);
        let w = words_of(table[i]);
        if w.len() >= 2 {
            proof {
                assert(views(w@)[0] == w@[0]@);
                assert(views(w@)[1] == w@[1]@);
            }
            let mount = string_of(&unescape(w[1]));
            let longer = mount.as_str().as_bytes().len() > best_mount.as_str().as_bytes().len();
            if starts_with(w[0], &start) && holds_home(&mount, path) && longer {
                best_mount = mount;
                best_dev = string_of(w[0]);
            }
        }
    }
    assert(all.take(n as int) =~= all);
    if best_dev.as_str().is_empty() {
        Err(CmdError::with_detail("disk_not_resolved", path.to_owned()))
    } else {
        Ok(whole_disk(&best_dev))
    }
}

/// Where the health tool is, or nothing if it is not installed: where the search
/// path leads to, then the first of the directories of the administrator that
/// holds it. A desktop session does not always carry those in its search path.
pub fn smartctl_path(
    in_path: Option<String>,
    in_usr_sbin: bool,
    in_sbin: bool,
    in_local_sbin: bool,
) -> (r: Option<String>)
    ensures
        crate::text::opt_text(r) == match in_path {
            Some(found) => Some(found@),
            None => if in_usr_sbin {
                Some("/usr/sbin/smartctl"@)
            } else if in_sbin {
                Some("/sbin/smartctl"@)
            } else if in_local_sbin {
                Some("/usr/local/sbin/smartctl"@)
            } else {
                None
            },
        },
{
    match in_path {
        Some(found) => Some(found),
        None => if in_usr_sbin {
            Some("/usr/sbin/smartctl".to_owned())
        } else if in_sbin {
            Some("/sbin/smartctl".to_owned())
        } else if in_local_sbin {
            Some("/usr/local/sbin/smartctl".to_owned())
        } else {
            None
        },
    }
}

/// A disk that is plugged in is listed, under the last name of its mount point: where the
/// first line of the table with its device shows a device node that is no image, mounted
/// neither for the system nor around the personal folder, and the device carries nothing
/// of the machine itself.
pub proof fn law_what_is_plugged_in_is_listed(table: Seq<Seq<char>>, home: Seq<char>, i: int)
    requires
        0 <= i < table.len(),
        words(table[i]).len() >= 3,
        "/dev/"@.is_prefix_of(words(table[i])[0]),
        words(table[i])[2] != "squashfs"@,
        !system_mount(unescaped(words(table[i])[1])),
        !lies_on(home, unescaped(words(table[i])[1])),
        !own_devices(table, home).contains(words(table[i])[0]),
        forall|j: int|
            0 <= j < i && words(#[trigger] table[j]).len() > 0 ==> words(table[j])[0] != words(
                table[i],
            )[0],
    ensures
        plugged_in(table, home).contains(
            (mount_name(unescaped(words(table[i])[1])), unescaped(words(table[i])[1])),
        ),
{
    lemma_line_is_listed(table, home, own_devices(table, home), i);
}

proof fn lemma_line_is_listed(
    table: Seq<Seq<char>>,
    home: Seq<char>,
    already: Seq<Seq<char>>,
    i: int,
)
    requires
        0 <= i < table.len(),
        shown(table[i], home) is Some,
        !already.contains((shown(table[i], home)->0).0),
        forall|j: int|
            0 <= j < i && (#[trigger] shown(table[j], home)) is Some ==> (shown(
                table[j],
                home,
            )->0).0 != (shown(table[i], home)->0).0,
    ensures
        ({
            let mount = (shown(table[i], home)->0).1;
            devices(table, home, already).contains((mount_name(mount), mount))
        }),
    decreases table.len(),
{
    let rest = table.drop_first();
    let (dev, mount) = shown(table[i], home)->0;
    let all = devices(table, home, already);
    assert(table.first() == table[0]);
    if i == 0 {
        assert(all[0] == (mount_name(mount), mount));
    } else {
        assert(rest[i - 1] == table[i]);
        assert forall|j: int|
            0 <= j < i - 1 && (#[trigger] shown(rest[j], home)) is Some implies (shown(
            rest[j],
            home,
        )->0).0 != dev by {
            assert(rest[j] == table[j + 1]);
            assert(shown(table[j + 1], home) is Some);
        }
        match shown(table[0], home) {
            Some((first, at)) if !already.contains(first) => {
                let more = already.push(first);
                assert(!more.contains(dev)) by {
                    if more.contains(dev) {
                        let k = choose|k: int| 0 <= k < more.len() && more[k] == dev;
                        if k < already.len() {
                            assert(already[k] == dev);
                        }
                    }
                }
                lemma_line_is_listed(rest, home, more, i - 1);
                let below = devices(rest, home, more);
                let k = choose|k: int| 0 <= k < below.len() && below[k] == (
                    mount_name(mount),
                    mount,
                );
                assert(all[k + 1] == below[k]);
            },
            _ => {
                lemma_line_is_listed(rest, home, already, i - 1);
            },
        }
    }
}

/// A mount point belongs to the system by the first of its names, or by the first two, and
/// by nothing else; its label is its last name.
pub proof fn law_the_first_name_tells_the_systems_own(name: Seq<char>, rest: Seq<char>)
    requires
        name.len() > 0,
        !name.contains('/'),
    ensures
        ({
            let own = name == "boot"@ || name == "snap"@ || name == "sys"@ || name == "proc"@
                || name == "dev"@;
            &&& system_mount(seq!['/'] + name) <==> own
            &&& own ==> system_mount(seq!['/'] + name + seq!['/'] + rest)
            &&& !own && name != "run"@ ==> !system_mount(seq!['/'] + name + seq!['/'] + rest)
            &&& name == "user"@ ==> system_mount("/run/"@ + name) && system_mount(
                "/run/"@ + name + seq!['/'] + rest,
            )
            &&& mount_name(seq!['/'] + name) == name
            &&& !own && name != "user"@ ==> !system_mount("/run/"@ + name)
        }),
{
    reveal_strlit("/");
    reveal_strlit("/run/");
    reveal_strlit("run");
    reveal_strlit("user");
    reveal_strlit("boot");
    reveal_strlit("snap");
    reveal_strlit("sys");
    reveal_strlit("proc");
    reveal_strlit("dev");
    let sep = seq!['/'];
    assert("/"@ =~= sep);
    lemma_names_of_mount(name, rest);
    let run = "run"@;
    assert(run[0] == 'r' && run[1] == 'u' && run[2] == 'n' && run.len() == 3);
    assert(!run.contains('/'));
    lemma_names_of_mount(run, name);
    lemma_names_of_mount(run, name + sep + rest);
    law_a_text_is_split_at_every_place(name, '/', rest);
    assert("/run/"@ + name =~= sep + run + sep + name);
    assert("/run/"@ + name + sep + rest =~= sep + run + sep + (name + sep + rest));
    lemma_segments_front(name, Seq::empty());
    assert(seq![name] + Seq::<Seq<char>>::empty() =~= seq![name]);
    lemma_segments_front(name, split(rest, sep));
    assert("boot"@.len() == 4 && "snap"@.len() == 4 && "sys"@[0] == 's' && "proc"@.len() == 4
        && "dev"@[0] == 'd');
}

proof fn lemma_names_of_mount(name: Seq<char>, rest: Seq<char>)
    requires
        name.len() > 0,
        !name.contains('/'),
    ensures
        segments(split(seq!['/'] + name, seq!['/'])) == seq![name],
        segments(split(seq!['/'] + name + seq!['/'] + rest, seq!['/'])) == seq![name] + segments(
            split(rest, seq!['/']),
        ),
{
    let sep = seq!['/'];
    let empty = Seq::<char>::empty();
    let none = Seq::<Seq<char>>::empty();
    assert(!empty.contains('/'));
    law_a_text_is_split_at_every_place(empty, '/', name);
    law_a_text_is_split_at_every_place(name, '/', rest);
    law_a_text_is_split_at_every_place(empty, '/', name + sep + rest);
    assert(empty + sep + name =~= sep + name);
    assert(empty + sep + (name + sep + rest) =~= sep + name + sep + rest);
    lemma_segments_front(empty, seq![name]);
    lemma_segments_front(name, none);
    assert(seq![name] + none =~= seq![name]);
    assert(segments(none) =~= none);
    lemma_segments_front(empty, seq![name] + split(rest, sep));
    lemma_segments_front(name, split(rest, sep));
}

proof fn lemma_segments_front(first: Seq<char>, rest: Seq<Seq<char>>)
    ensures
        segments(seq![first] + rest) == (if first.len() == 0 {
            segments(rest)
        } else {
            seq![first] + segments(rest)
        }),
    decreases rest.len(),
{
    let all = seq![first] + rest;
    if rest.len() == 0 {
        assert(all.drop_last() =~= Seq::<Seq<char>>::empty());
        assert(rest =~= Seq::<Seq<char>>::empty());
        assert(segments(rest) =~= Seq::<Seq<char>>::empty());
        assert(all.last() == first);
        assert(segments(all) =~= (if first.len() == 0 {
            segments(rest)
        } else {
            seq![first] + segments(rest)
        }));
    } else {
        assert(all.drop_last() =~= seq![first] + rest.drop_last());
        assert(all.last() == rest.last());
        lemma_segments_front(first, rest.drop_last());
        assert(segments(all) =~= (if first.len() == 0 {
            segments(rest)
        } else {
            seq![first] + segments(rest)
        }));
    }
}

/// A path lies on a mount point where it is that point or is below it, name by name: one
/// that only begins with the same letters does not.
pub proof fn law_below_means_below_by_name(mount: Seq<char>, c: char, rest: Seq<char>)
    requires
        mount.len() > 1,
        c != '/',
    ensures
        lies_on(mount, mount),
        lies_on(mount + seq!['/'] + rest, mount),
        !lies_on(mount + seq![c] + rest, mount),
        lies_on(rest, seq!['/']),
{
    reveal_strlit("/");
    assert("/"@ =~= seq!['/']);
    let m = mount + seq!['/'];
    let below = mount + seq!['/'] + rest;
    assert(below.take(m.len() as int) =~= m);
    let next = mount + seq![c] + rest;
    if m.is_prefix_of(next) {
        assert(next.take(m.len() as int)[mount.len() as int] == m[mount.len() as int]);
    }
}

/// The disk of a path is one that the table has for it: a device node, mounted where the
/// path lies, with no longer mount point that it lies on.
pub proof fn law_the_disk_of_a_path_carries_it(table: Seq<Seq<char>>, path: Seq<char>)
    ensures
        carrier(table, path).0.len() > 0 ==> exists|i: int|
            0 <= i < table.len() && words(#[trigger] table[i]).len() >= 2 && words(table[i])[0]
                == carrier(table, path).0 && unescaped(words(table[i])[1]) == carrier(
                table,
                path,
            ).1,
        carrier(table, path).0.len() > 0 ==> "/dev/"@.is_prefix_of(carrier(table, path).0)
            && lies_on(path, carrier(table, path).1),
    decreases table.len(),
{
    if table.len() > 0 {
        let front = table.drop_last();
        law_the_disk_of_a_path_carries_it(front, path);
        let best = carrier(table, path);
        if best.0.len() > 0 {
            if best == carrier(front, path) {
                let i = choose|i: int|
                    0 <= i < front.len() && words(#[trigger] front[i]).len() >= 2 && words(
                        front[i],
                    )[0] == best.0 && unescaped(words(front[i])[1]) == best.1;
                assert(table[i] == front[i]);
            } else {
                assert(table[table.len() - 1] == table.last());
            }
        }
    }
}

/// The whole disk of a partition is its device without the number of the partition: plain
/// digits for the older names, and a letter before them for the newer ones.
#[verifier::rlimit(40)]
pub proof fn law_a_partition_belongs_to_its_disk(core: Seq<char>, digits: Seq<char>)
    requires
        digits.len() > 0,
        forall|i: int| 0 <= i < digits.len() ==> '0' <= #[trigger] digits[i] <= '9',
        core.len() == 0 || !('0' <= core[core.len() - 1] <= '9'),
    ensures
        disk_of("/dev/sd"@ + core + digits) == "/dev/sd"@ + core,
        disk_of("/dev/sd"@ + core) == "/dev/sd"@ + core,
        disk_of("/dev/hd"@ + core + digits) == "/dev/hd"@ + core,
{
    reveal_strlit("/dev/");
    reveal_strlit("/dev/sd");
    reveal_strlit("/dev/hd");
    reveal_strlit("sd");
    reveal_strlit("hd");
    reveal_strlit("nvme");
    reveal_strlit("mmcblk");
    lemma_older_name("sd"@, core, digits);
    lemma_older_name("hd"@, core, digits);
    lemma_older_name("sd"@, core, Seq::empty());
    assert("/dev/sd"@ =~= "/dev/"@ + "sd"@);
    assert("/dev/hd"@ =~= "/dev/"@ + "hd"@);
    assert("/dev/sd"@ + core + Seq::<char>::empty() =~= "/dev/sd"@ + core);
    assert("/dev/"@ + ("sd"@ + core) =~= "/dev/sd"@ + core);
    assert("/dev/"@ + ("hd"@ + core) =~= "/dev/hd"@ + core);
    assert("/dev/"@ + ("sd"@ + core + digits) =~= "/dev/sd"@ + core + digits);
    assert("/dev/"@ + ("hd"@ + core + digits) =~= "/dev/hd"@ + core + digits);
    assert("/dev/"@ + ("sd"@ + core + Seq::<char>::empty()) =~= "/dev/sd"@ + core);
}

proof fn lemma_older_name(kind: Seq<char>, core: Seq<char>, digits: Seq<char>)
    requires
        kind == "sd"@ || kind == "hd"@,
        forall|i: int| 0 <= i < digits.len() ==> is_digit(#[trigger] digits[i]),
        core.len() == 0 || !is_digit(core[core.len() - 1]),
    ensures
        disk_of("/dev/"@ + (kind + core + digits)) == "/dev/"@ + (kind + core),
{
    reveal_strlit("/dev/");
    reveal_strlit("sd");
    reveal_strlit("hd");
    reveal_strlit("nvme");
    reveal_strlit("mmcblk");
    let start = "/dev/"@;
    let name = kind + core + digits;
    let dev = start + name;
    assert(dev.take(5) =~= start);
    assert(dev.skip(5) =~= name);
    assert(name[0] == kind[0] && name[1] == kind[1]);
    assert(!"nvme"@.is_prefix_of(name)) by {
        if "nvme"@.is_prefix_of(name) {
            assert(name.take(4)[0] == 'n');
        }
    }
    assert(!"mmcblk"@.is_prefix_of(name)) by {
        if "mmcblk"@.is_prefix_of(name) {
            assert(name.take(6)[0] == 'm');
        }
    }
    assert(name.take(2) =~= kind);
    let front = kind + core;
    assert(front.len() > 0 && !is_digit(front[front.len() - 1])) by {
        if core.len() > 0 {
            assert(front[front.len() - 1] == core[core.len() - 1]);
        } else {
            assert(front[front.len() - 1] == kind[1]);
        }
    }
    lemma_digits_go(front, digits);
}

proof fn lemma_digits_go(front: Seq<char>, digits: Seq<char>)
    requires
        front.len() > 0,
        !is_digit(front[front.len() - 1]),
        forall|i: int| 0 <= i < digits.len() ==> is_digit(#[trigger] digits[i]),
    ensures
        without_digits(front + digits) == front,
    decreases digits.len(),
{
    if digits.len() > 0 {
        let fewer = digits.drop_last();
        assert((front + digits).last() == digits[digits.len() - 1]);
        assert((front + digits).drop_last() =~= front + fewer);
        assert forall|i: int| 0 <= i < fewer.len() implies is_digit(#[trigger] fewer[i]) by {
            assert(fewer[i] == digits[i]);
        }
        lemma_digits_go(front, fewer);
    } else {
        assert(front + digits =~= front);
    }
}

/// The same of the newer names, whose partitions are numbered behind a letter of its own.
pub proof fn law_a_newer_partition_belongs_to_its_disk(core: Seq<char>, digits: Seq<char>)
    requires
        digits.len() > 0,
        forall|i: int| 0 <= i < digits.len() ==> '0' <= #[trigger] digits[i] <= '9',
    ensures
        disk_of("/dev/nvme"@ + core + seq!['p'] + digits) == "/dev/nvme"@ + core,
        disk_of("/dev/mmcblk"@ + core + seq!['p'] + digits) == "/dev/mmcblk"@ + core,
        !core.contains('p') ==> disk_of("/dev/nvme"@ + core) == "/dev/nvme"@ + core,
{
    reveal_strlit("/dev/");
    reveal_strlit("/dev/nvme");
    reveal_strlit("/dev/mmcblk");
    reveal_strlit("nvme");
    reveal_strlit("mmcblk");
    reveal_strlit("p");
    lemma_newer_name("nvme"@, core, digits);
    lemma_newer_name("mmcblk"@, core, digits);
    assert("/dev/nvme"@ + core + seq!['p'] + digits =~= "/dev/"@ + ("nvme"@ + core + seq!['p']
        + digits));
    assert("/dev/mmcblk"@ + core + seq!['p'] + digits =~= "/dev/"@ + ("mmcblk"@ + core + seq!['p']
        + digits));
    assert("/dev/"@ + ("nvme"@ + core) =~= "/dev/nvme"@ + core);
    assert("/dev/"@ + ("mmcblk"@ + core) =~= "/dev/mmcblk"@ + core);
    if !core.contains('p') {
        let dev = "/dev/nvme"@ + core;
        let name = "nvme"@ + core;
        assert(dev.skip(5) =~= name);
        assert("p"@ =~= seq!['p']);
        assert(!name.contains('p')) by {
            if name.contains('p') {
                let k = choose|k: int| 0 <= k < name.len() && name[k] == 'p';
                if k >= 4 {
                    assert(core[k - 4] == 'p');
                }
            }
        }
        law_the_first_character_is_found(name, 'p', Seq::empty());
        assert(name.take(4) =~= "nvme"@);
        assert(dev.take(5) =~= "/dev/"@);
    }
}

proof fn lemma_newer_name(kind: Seq<char>, core: Seq<char>, digits: Seq<char>)
    requires
        kind == "nvme"@ || kind == "mmcblk"@,
        digits.len() > 0,
        forall|i: int| 0 <= i < digits.len() ==> is_digit(#[trigger] digits[i]),
    ensures
        disk_of("/dev/"@ + (kind + core + seq!['p'] + digits)) == "/dev/"@ + (kind + core),
{
    reveal_strlit("/dev/");
    reveal_strlit("p");
    assert("p"@ =~= seq!['p']);
    let start = "/dev/"@;
    let front = kind + core;
    let name = front + seq!['p'] + digits;
    let dev = start + name;
    assert(kind + core + seq!['p'] + digits =~= name);
    assert(dev.take(5) =~= start);
    assert(dev.skip(5) =~= name);
    assert(name.take(kind.len() as int) =~= kind);
    let n = front.len() as int;
    lemma_rfind_to(name, "p"@, name.len() - 1);
    assert(name.subrange(n, n + 1) =~= seq!['p']);
    assert(occurs_at(name, "p"@, n));
    let k = rfind(name, "p"@)->0;
    if k > n {
        assert(name.subrange(k, k + 1)[0] == name[k]);
        assert(is_digit(digits[k - n - 1]));
    }
    assert(name.skip(n + 1) =~= digits);
    assert(name.take(n) =~= front);
}

/// What the kernel writes for a character that would break its table is read as that
/// character, and everything else as it stands.
pub proof fn law_escapes_are_read(front: Seq<char>, rest: Seq<char>)
    requires
        !front.contains('\\'),
    ensures
        unescaped(front) == front,
        unescaped(front + seq!['\\', '0', '4', '0'] + rest) == front + seq![' '] + unescaped(rest),
        unescaped(front + seq!['\\', '0', '1', '1'] + rest) == front + seq!['\t'] + unescaped(rest),
        unescaped(front + seq!['\\', '0', '1', '2'] + rest) == front + seq!['\n'] + unescaped(rest),
        unescaped(front + seq!['\\', '1', '3', '4'] + rest) == front + seq!['\\'] + unescaped(
            rest,
        ),
        unescaped(front + seq!['\\', '0', '4', '3'] + rest) == front + seq!['#'] + unescaped(rest),
{
    lemma_plain_in_front(front, Seq::empty());
    assert(front + Seq::<char>::empty() =~= front);
    assert(unescaped(Seq::<char>::empty()) =~= Seq::<char>::empty());
    lemma_escape_in_front(front, ' ', '0', '4', '0', rest);
    lemma_escape_in_front(front, '\t', '0', '1', '1', rest);
    lemma_escape_in_front(front, '\n', '0', '1', '2', rest);
    lemma_escape_in_front(front, '\\', '1', '3', '4', rest);
    lemma_escape_in_front(front, '#', '0', '4', '3', rest);
}

proof fn lemma_escape_in_front(front: Seq<char>, is: char, a: char, b: char, c: char, rest: Seq<char>)
    requires
        !front.contains('\\'),
        escaped(a, b, c) == Some(is),
    ensures
        unescaped(front + seq!['\\', a, b, c] + rest) == front + seq![is] + unescaped(rest),
{
    let e = seq!['\\', a, b, c] + rest;
    lemma_plain_in_front(front, e);
    assert(front + e =~= front + seq!['\\', a, b, c] + rest);
    assert(e[0] == '\\' && e[1] == a && e[2] == b && e[3] == c);
    assert(e.skip(4) =~= rest);
    assert(front + (seq![is] + unescaped(rest)) =~= front + seq![is] + unescaped(rest));
}

proof fn lemma_plain_in_front(front: Seq<char>, rest: Seq<char>)
    requires
        !front.contains('\\'),
    ensures
        unescaped(front + rest) == front + unescaped(rest),
    decreases front.len(),
{
    let s = front + rest;
    if front.len() == 0 {
        assert(s =~= rest);
        assert(front + unescaped(rest) =~= unescaped(rest));
    } else {
        let less = front.drop_first();
        assert(!less.contains('\\')) by {
            if less.contains('\\') {
                let k = choose|k: int| 0 <= k < less.len() && less[k] == '\\';
                assert(front[k + 1] == '\\');
            }
        }
        assert(front.contains(front[0]));
        assert(s[0] == front[0]);
        assert(s.skip(1) =~= less + rest);
        lemma_plain_in_front(less, rest);
        assert(seq![front[0]] + (less + unescaped(rest)) =~= front + unescaped(rest));
    }
}

/// The cause of a failure is what the system calls it where that says enough, and
/// otherwise what its number stands for.
pub proof fn law_what_a_failure_is_called(failure: IoFailure)
    ensures
        failure.kind == FailureKind::PermissionDenied ==> cause(failure) == "permission"@,
        failure.kind == FailureKind::NotFound ==> cause(failure) == "missing"@,
        failure.kind == FailureKind::Other ==> {
            &&& failure.raw == Some(5i32) ==> cause(failure) == "io"@
            &&& failure.raw == Some(28i32) ==> cause(failure) == "nospace"@
            &&& failure.raw == Some(30i32) ==> cause(failure) == "readonly"@
            &&& failure.raw == Some(6i32) || failure.raw == Some(19i32) ==> cause(failure)
                == "device"@
            &&& (failure.raw matches Some(n) ==> n != 5 && n != 28 && n != 30 && n != 6 && n != 19)
                ==> cause(failure) == "other"@
        },
{
}

/// The trail behind a path ends with the path itself, and before that comes the trail
/// behind what is above it. A name is shown as it is, and the root as a slash.
pub proof fn law_the_trail_leads_to_the_path(path: Seq<char>)
    ensures
        trail(path).len() > 0,
        trail(path).last().1 == path,
        parent(path) is None ==> trail(path).len() == 1,
        parent(path) matches Some(p) ==> trail(path).drop_last() == trail(p),
        file_name(path) matches Some(name) ==> trail(path).last().0 == name,
        file_name(path) is None ==> trail(path).last().0 == seq!['/'],
{
    reveal_strlit("/");
    assert("/"@ =~= seq!['/']);
    let label = |p: Seq<char>| crumb(p);
    let all = ancestors(path);
    assert(all.len() > 0 && all[0] == path);
    let shown = all.map_values(label).reverse();
    assert(shown.len() == all.len());
    assert(trail(path) =~= shown);
    assert(shown.last() == label(all[0]));
    if let Some(p) = parent(path) {
        lemma_parent(path);
        let above = ancestors(p);
        assert(all =~= seq![path] + above);
        assert(shown.drop_last() =~= above.map_values(label).reverse());
        assert(trail(p) =~= above.map_values(label).reverse());
    }
}

/// Up from a name is the folder that it is in, and the name is the last one of the path:
/// below the root, and below any folder that itself ends with a name.
#[verifier::rlimit(40)]
pub proof fn law_up_from_a_name(before: Seq<char>, folder: Seq<char>, name: Seq<char>)
    requires
        name.len() > 0 && !name.contains('/') && name != seq!['.'],
        folder.len() > 0 && !folder.contains('/') && folder != seq!['.'],
    ensures
        parent(seq!['/'] + name) == Some(seq!['/']),
        parent(seq!['/']) is None,
        file_name(seq!['/']) is None,
        ({
            let dir = before + seq!['/'] + folder;
            parent(dir + seq!['/'] + name) == Some(dir)
        }),
        name != seq!['.', '.'] ==> file_name(seq!['/'] + name) == Some(name) && file_name(
            before + seq!['/'] + folder + seq!['/'] + name,
        ) == Some(name),
        file_name(before + seq!['/'] + folder + seq!['/', '.', '.']) is None,
{
    let seps = Separators::Slash;
    let root = seq!['/'];
    reveal_strlit("..");
    assert(".."@ =~= seq!['.', '.']);
    lemma_no_slash(name);
    lemma_no_slash(folder);
    let x = before + root;
    let dir = x + folder;
    lemma_ends_with_name(root, 1, seps, name);
    assert(super::path::tidy_end(root, 1, seps) == root);
    assert(body_of(root + name) == 1);
    assert(x.last() == '/');
    let k = body_of(dir);
    assert(k <= x.len());
    lemma_ends_with_name(x, k, seps, folder);
    let y = dir + root;
    let path = y + name;
    assert(path =~= before + seq!['/'] + folder + seq!['/'] + name);
    assert(dir[0] == path[0] && dir[1] == path[1]);
    assert(body_of(path) == k);
    assert(y.drop_last() =~= dir);
    lemma_ends_with_name(y, k, seps, name);
    let up = seq!['.', '.'];
    lemma_no_slash(up);
    lemma_ends_with_name(y, k, seps, up);
    assert(y + up =~= before + seq!['/'] + folder + seq!['/', '.', '.']);
    assert((y + up)[0] == dir[0] && (y + up)[1] == dir[1]);
}

proof fn lemma_no_slash(name: Seq<char>)
    requires
        name.len() > 0 && !name.contains('/') && name != seq!['.'],
    ensures
        plain_name(name, Separators::Slash),
{
    assert forall|i: int| 0 <= i < name.len() implies !separates(
        Separators::Slash,
        #[trigger] name[i],
    ) by {
        assert(name.contains(name[i]));
    }
}

/// A path that starts at the root stands for itself, wherever it is put; any other is put
/// behind the folder.
pub proof fn law_a_rooted_path_stands_for_itself(root: Seq<char>, rest: Seq<char>)
    requires
        root.len() > 0,
    ensures
        joined(root, seq!['/'] + rest) == seq!['/'] + rest,
        placed_in(root, seq!['/'] + rest) == seq!['/'] + rest,
        placed_in(root, Seq::empty()) == root,
        rest.len() > 0 && rest[0] != '/' ==> placed_in(root, rest) == (if root[root.len() - 1]
            == '/' {
            root + rest
        } else {
            root + seq!['/'] + rest
        }),
{
    reveal_strlit("/");
    assert("/"@ =~= seq!['/']);
    assert((seq!['/'] + rest)[0] == '/');
}

/// A dot in front stands for the folder one is in: a name behind it is in that folder,
/// and above the dot there is only the empty path.
pub proof fn law_up_from_here(name: Seq<char>)
    requires
        name.len() > 0 && !name.contains('/') && name != seq!['.'] && name != seq!['.', '.'],
    ensures
        parent(seq!['.', '/'] + name) == Some(seq!['.']),
        file_name(seq!['.', '/'] + name) == Some(name),
        parent(seq!['.']) == Some(Seq::<char>::empty()),
        file_name(seq!['.']) is None,
        parent(name) == Some(Seq::<char>::empty()),
        file_name(name) == Some(name),
{
    let seps = Separators::Slash;
    reveal_strlit("..");
    assert(".."@ =~= seq!['.', '.']);
    lemma_no_slash(name);
    let here = seq!['.', '/'];
    assert((here + name)[0] == '.' && (here + name)[1] == '/');
    lemma_ends_with_name(here, 1, seps, name);
    assert(here.drop_last() =~= seq!['.']);
    assert(super::path::tidy_end(seq!['.'], 1, seps) == seq!['.']);
    let none = Seq::<char>::empty();
    assert(none + name =~= name);
    assert(name[0] != '/') by {
        assert(name.contains(name[0]));
    }
    if name.len() > 1 {
        assert(name.contains(name[1]));
    } else {
        assert(name =~= seq![name[0]]);
    }
    assert(body_of(name) == 0);
    lemma_ends_with_name(none, 0, seps, name);
    assert(super::path::tidy_end(none, 0, seps) == none);
}

} // verus!
