//! What the folder picker shows, and what may leave the program.
//!
//! Everything that is needed to draw a folder: where one is, what is above, the
//! trail behind, the contents. Paths are neither split nor built anywhere else:
//! their shape belongs to the system.
use vstd::prelude::*;

use super::tree::EntryKind;
use crate::error::{lemma_words_wanted, without_number, CmdError, Fault};
use crate::sort::{
    covers, lemma_name_le_total, lemma_name_le_transitive, name_le, ranks_before,
    sorted_positions, NameKey, Ordered,
};
use crate::sys::path::pairs;
use crate::sys::{crumbs, parent, parent_of, trail, System};
use crate::text::opt_text;
use crate::text::search::str_starts_with;

verus! {

/// An entry of a folder.
#[derive(Debug)]
pub struct BrowseEntry {
    /// Its name.
    pub name: String,
    /// Its whole path.
    pub path: String,
    /// It is a folder.
    pub is_dir: bool,
    /// It is a link.
    pub is_symlink: bool,
    /// It is hidden the way the system means it.
    pub is_hidden: bool,
}

impl BrowseEntry {
    /// An entry from what could be read of it. Of an entry that cannot be looked
    /// at, only name and path are known.
    pub fn new(name: String, path: String, look: Option<(EntryKind, bool)>) -> (r: Self)
        ensures
            r.name == name,
            r.path == path,
            match look {
                Some((kind, hidden)) => r.is_dir == (kind == EntryKind::Folder) && r.is_symlink == (
                kind == EntryKind::Link) && r.is_hidden == hidden,
                None => !r.is_dir && !r.is_symlink && !r.is_hidden,
            },
    {
        match look {
            Some((kind, hidden)) => BrowseEntry {
                name,
                path,
                is_dir: matches!(kind, EntryKind::Folder),
                is_symlink: matches!(kind, EntryKind::Link),
                is_hidden: hidden,
            },
            None => BrowseEntry { name, path, is_dir: false, is_symlink: false, is_hidden: false },
        }
    }

    /// The same entry once more.
    fn copied(&self) -> (r: Self)
        ensures
            r == *self,
    {
        BrowseEntry {
            name: self.name.clone(),
            path: self.path.clone(),
            is_dir: self.is_dir,
            is_symlink: self.is_symlink,
            is_hidden: self.is_hidden,
        }
    }
}

/// One entry may stand before another: folders first, then by name.
pub open spec fn entry_le(a: BrowseEntry, b: BrowseEntry) -> bool {
    if a.is_dir == b.is_dir {
        name_le(a.name@, b.name@)
    } else {
        a.is_dir
    }
}

/// Position `a` comes before position `b`: by rank, and among equals as they
/// came.
pub open spec fn entry_before(entries: Seq<BrowseEntry>, a: int, b: int) -> bool {
    entry_le(entries[a], entries[b]) && (entry_le(entries[b], entries[a]) ==> a < b)
}

/// The same entries in order, those of equal rank as they came.
pub open spec fn arranged(entries: Seq<BrowseEntry>, out: Seq<BrowseEntry>) -> bool {
    exists|idx: Seq<usize>| #[trigger] arranged_by(entries, out, idx)
}

/// The entries in order, each taken from the given position.
pub open spec fn arranged_by(
    entries: Seq<BrowseEntry>,
    out: Seq<BrowseEntry>,
    idx: Seq<usize>,
) -> bool {
    &&& covers(idx, 0, entries.len() as int)
    &&& out.len() == entries.len()
    &&& forall|i: int| 0 <= i < out.len() ==> #[trigger] out[i] == entries[idx[i] as int]
    &&& forall|i: int, j: int|
        0 <= i < j < idx.len() ==> entry_before(
            entries,
            #[trigger] idx[i] as int,
            #[trigger] idx[j] as int,
        )
}

/// What an entry is ranked by.
struct EntryKey {
    /// It is a folder.
    folder: bool,
    /// Its name.
    name: NameKey,
}

impl Ordered for EntryKey {
    closed spec fn le(&self, other: &Self) -> bool {
        if self.folder == other.folder {
            self.name.le(&other.name)
        } else {
            self.folder
        }
    }

    proof fn le_total(a: &Self, b: &Self) {
        lemma_name_le_total(a.name.name(), b.name.name());
    }

    proof fn le_transitive(a: &Self, b: &Self, c: &Self) {
        if a.folder == b.folder && b.folder == c.folder {
            lemma_name_le_transitive(a.name.name(), b.name.name(), c.name.name());
        }
    }

    fn is_le(&self, other: &Self) -> (r: bool) {
        if self.folder == other.folder {
            self.name.is_le(&other.name)
        } else {
            self.folder
        }
    }
}

/// The entries in order.
pub fn sort_entries(entries: &Vec<BrowseEntry>) -> (r: Vec<BrowseEntry>)
    ensures
        arranged(entries@, r@),
{
    let n: usize = entries.len();
    let mut keys: Vec<EntryKey> = Vec::new();
    for i in 0..n
        invariant
            n == entries@.len(),
            keys@.len() == i,
            forall|k: int|
                0 <= k < i ==> (#[trigger] keys@[k]).folder == entries@[k].is_dir
                    && keys@[k].name.name() == entries@[k].name@,
    {
        keys.push(EntryKey { folder: entries[i].is_dir, name: NameKey::new(&entries[i].name) });
    }
    let idx = sorted_positions(&keys);
    let mut out: Vec<BrowseEntry> = Vec::new();
    for i in 0..n
        invariant
            n == entries@.len(),
            covers(idx@, 0, n as int),
            out@.len() == i,
            forall|k: int| 0 <= k < i ==> #[trigger] out@[k] == entries@[idx@[k] as int],
    {
        out.push(entries[idx[i]].copied());
    }
    proof {
        assert forall|i: int, j: int| 0 <= i < j < idx@.len() implies entry_before(
            entries@,
            #[trigger] idx@[i] as int,
            #[trigger] idx@[j] as int,
        ) by {
            assert(ranks_before(keys@, idx@[i] as int, idx@[j] as int));
            let a = keys@[idx@[i] as int];
            let b = keys@[idx@[j] as int];
        }
        assert(arranged_by(entries@, out@, idx@));
    }
    out
}

/// Folders come before everything else, and each group goes by name.
pub proof fn law_folders_come_first(entries: Seq<BrowseEntry>, out: Seq<BrowseEntry>, i: int, j: int)
    requires
        arranged(entries, out),
        0 <= i < j < out.len(),
    ensures
        out[j].is_dir ==> out[i].is_dir,
        out[i].is_dir == out[j].is_dir ==> name_le(out[i].name@, out[j].name@),
{
    let idx = choose|idx: Seq<usize>| #[trigger] arranged_by(entries, out, idx);
    assert(entry_before(entries, idx[i] as int, idx[j] as int));
    assert(out[i] == entries[idx[i] as int]);
    assert(out[j] == entries[idx[j] as int]);
}

/// Everything that is needed to draw a folder.
#[derive(Debug)]
pub struct BrowseView {
    /// Where one is.
    pub path: String,
    /// What is above.
    pub parent: Option<String>,
    /// The trail behind: the label shown and the path to open.
    pub crumbs: Vec<(String, String)>,
    /// The contents, in order.
    pub entries: Vec<BrowseEntry>,
}

/// A folder as it is drawn, from the entries that the system listed.
pub fn browse_dir(
    system: System,
    path: String,
    listing: Result<Vec<BrowseEntry>, Fault<String>>,
) -> (r: Result<BrowseView, CmdError>)
    ensures
        match r {
            Ok(v) => (listing matches Ok(entries) && arranged(entries@, v.entries@)) && v.path == path
                && opt_text(v.parent) == parent(system, path@) && pairs(v.crumbs@) == trail(
                system,
                path@,
            ),
            Err(e) => listing matches Err(f) && e.says(
                "folder_not_readable"@,
                without_number(f.text@),
            ),
        },
{
    let entries = match listing {
        Ok(v) => v,
        Err(f) => {
            proof {
                reveal_strlit("folder_not_readable");
                lemma_words_wanted("folder_not_readable"@);
            }
            return Err(CmdError::from_words("folder_not_readable", &f.text));
        },
    };
    let above = parent_of(system, &path);
    let behind = crumbs(system, &path);
    Ok(BrowseView { path, parent: above, crumbs: behind, entries: sort_entries(&entries) })
}

/// A web address, by how it begins.
pub open spec fn is_web_address(url: Seq<char>) -> bool {
    "https://"@.is_prefix_of(url) || "http://"@.is_prefix_of(url)
}

/// Whether an address may be handed to the system. Web addresses only: whatever
/// is handed over leaves the program, and a path or a command dressed as an
/// address must not get through here.
pub fn open_url(url: &str) -> (r: Result<(), CmdError>)
    ensures
        match r {
            Ok(_) => is_web_address(url@),
            Err(e) => !is_web_address(url@) && e.says("not_a_web_address"@, Seq::empty()),
        },
{
    if !str_starts_with(url, "https://") && !str_starts_with(url, "http://") {
        return Err(CmdError::plain("not_a_web_address"));
    }
    Ok(())
}

/// A folder shows everything that it holds, and nothing else: as many entries as were
/// listed, each of them among those shown.
pub proof fn law_everything_in_a_folder_is_shown(
    entries: Seq<BrowseEntry>,
    out: Seq<BrowseEntry>,
    k: int,
)
    requires
        arranged(entries, out),
        0 <= k < entries.len() <= usize::MAX,
    ensures
        out.len() == entries.len(),
        out.contains(entries[k]),
        entries.contains(out[k]),
{
    let idx = choose|idx: Seq<usize>| #[trigger] arranged_by(entries, out, idx);
    assert(idx.contains(k as usize));
    let i = choose|i: int| 0 <= i < idx.len() && idx[i] == k as usize;
    assert(out[i] == entries[idx[i] as int]);
    assert(out[k] == entries[idx[k] as int]);
}

/// Only an address of the web is opened: one that begins with its name, a colon and two
/// slashes.
pub proof fn law_only_web_addresses_are_opened(url: Seq<char>)
    ensures
        is_web_address(url) ==> url.len() >= 7 && url[0] == 'h' && url[1] == 't' && url[2] == 't'
            && url[3] == 'p' && (url[4] == ':' && url[5] == '/' && url[6] == '/' || url[4] == 's'
            && url[5] == ':' && url[6] == '/'),
        is_web_address("https://"@ + url),
        is_web_address("http://"@ + url),
{
    reveal_strlit("https://");
    reveal_strlit("http://");
    let a = "https://"@;
    let b = "http://"@;
    assert((a + url).take(a.len() as int) =~= a);
    assert((b + url).take(b.len() as int) =~= b);
    if a.is_prefix_of(url) {
        assert forall|i: int| 0 <= i < a.len() implies url[i] == a[i] by {
            assert(url.take(a.len() as int)[i] == a[i]);
        }
    }
    if b.is_prefix_of(url) {
        assert forall|i: int| 0 <= i < b.len() implies url[i] == b[i] by {
            assert(url.take(b.len() as int)[i] == b[i]);
        }
    }
}

} // verus!
