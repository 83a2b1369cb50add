//! Deleting and opening.
//!
//! There is no recycle bin behind a deletion: what goes, goes. Deleting a folder
//! walks its contents and can stop halfway, with part of it already gone. So
//! what is still on the disk comes back with the answer, and the view is rebuilt
//! from that.
use vstd::prelude::*;

use super::tree::EntryKind;
use crate::error::{lemma_words_wanted, without_number, CmdError, FailureKind, Fault};
use crate::sys::{rel_from_os, shared_rel, System};
use crate::text::texts;

verus! {

/// What a deletion hands back.
#[derive(Debug)]
pub struct DeleteOutcome {
    /// Nothing of the item is left.
    pub removed: bool,
    /// What is still there, in the shared form.
    pub remaining: Vec<String>,
    /// What may hold more than was seen: what could not be looked into, or not
    /// wholly.
    pub unreadable: Vec<String>,
    /// What went wrong.
    pub error: Option<CmdError>,
}

/// What is still on the disk, and separately what of it could not be looked into. A
/// folder that refuses to be read says nothing about what it holds, and treating
/// that silence as absence would erase from the view files that are still there.
#[derive(Debug)]
pub struct Surviving {
    /// What is still there, the item itself included.
    pub seen: Vec<String>,
    /// What of it could not be looked into, or not wholly. What is known to be a
    /// plain file is never among it.
    pub unknown: Vec<String>,
}

/// How an item has to be removed.
#[derive(Debug, Clone, Copy, PartialEq, Eq, Structural)]
pub enum Removal {
    /// As a link: what it points at is never touched.
    Link,
    /// As a folder, with everything in it.
    Folder,
    /// As a file.
    File,
}

/// How an item of a kind has to be removed.
pub fn removal_of(kind: EntryKind) -> (r: Removal)
    ensures
        r == match kind {
            EntryKind::Link => Removal::Link,
            EntryKind::Folder => Removal::Folder,
            EntryKind::File | EntryKind::Other => Removal::File,
        },
{
    match kind {
        EntryKind::Link => Removal::Link,
        EntryKind::Folder => Removal::Folder,
        EntryKind::File | EntryKind::Other => Removal::File,
    }
}

/// What a deletion says of an item that cannot be looked at: a matter of
/// permission is a refusal; anything else means that it is already gone, which is
/// an outcome with a message, because the view still has to lose it.
pub fn delete_unseen(fault: &Fault<String>) -> (r: Result<DeleteOutcome, CmdError>)
    ensures
        match r {
            Err(e) => fault.failure.kind == FailureKind::PermissionDenied && e.says(
                "permission"@,
                Seq::empty(),
            ),
            Ok(v) => fault.failure.kind != FailureKind::PermissionDenied && v.removed
                && v.remaining@.len() == 0 && v.unreadable@.len() == 0 && (v.error matches Some(e)
                && e.says("item_missing"@, Seq::empty())),
        },
{
    if matches!(fault.failure.kind, FailureKind::PermissionDenied) {
        return Err(CmdError::from_words("permission", &fault.text));
    }
    Ok(
        DeleteOutcome {
            removed: true,
            remaining: Vec::new(),
            unreadable: Vec::new(),
            error: Some(CmdError::plain("item_missing")),
        },
    )
}

/// The item is gone.
pub fn delete_done() -> (r: DeleteOutcome)
    ensures
        r.removed,
        r.remaining@.len() == 0,
        r.unreadable@.len() == 0,
        r.error is None,
{
    DeleteOutcome { removed: true, remaining: Vec::new(), unreadable: Vec::new(), error: None }
}

/// The key of a deletion that failed.
pub open spec fn delete_error(fault: Fault<Seq<char>>) -> (Seq<char>, Seq<char>) {
    if fault.failure.kind == FailureKind::PermissionDenied {
        ("permission"@, Seq::empty())
    } else {
        ("delete_failed"@, without_number(fault.text))
    }
}

/// The removal failed, and this is what survived it.
pub fn delete_failed(fault: &Fault<String>, survived: Surviving) -> (r: DeleteOutcome)
    ensures
        r.removed == (survived.seen@.len() == 0),
        r.remaining@ == survived.seen@,
        r.unreadable@ == survived.unknown@,
        r.error matches Some(e) && e.says(
            delete_error(fault.model()).0,
            delete_error(fault.model()).1,
        ),
{
    let error = if matches!(fault.failure.kind, FailureKind::PermissionDenied) {
        CmdError::from_words("permission", &fault.text)
    } else {
        proof {
            reveal_strlit("delete_failed");
            lemma_words_wanted("delete_failed"@);
        }
        CmdError::from_words("delete_failed", &fault.text)
    };
    DeleteOutcome {
        removed: survived.seen.len() == 0,
        remaining: survived.seen,
        unreadable: survived.unknown,
        error: Some(error),
    }
}

/// A walk through what is left of an item. The folders are whatever the caller
/// opens them by.
#[derive(Debug)]
pub struct Survey<D> {
    /// The folders still to be looked into, the next one last, each with its
    /// position.
    pub stack: Vec<(D, String)>,
    /// The position of the folder that is being looked into.
    pub current: String,
    /// What is still there.
    pub seen: Vec<String>,
    /// What could not be looked into.
    pub unknown: Vec<String>,
    /// The system it runs on.
    pub system: System,
}

/// A walk as a mathematical value.
pub struct SurveyModel<D> {
    /// The folders still to be looked into, the next one last.
    pub stack: Seq<(D, Seq<char>)>,
    /// The position of the folder that is being looked into.
    pub current: Seq<char>,
    /// What is still there.
    pub seen: Seq<Seq<char>>,
    /// What could not be looked into.
    pub unknown: Seq<Seq<char>>,
    /// The system it runs on.
    pub system: System,
}

/// What a look at an item says: whether it is a folder, or why it could not be
/// looked at.
pub type Look = Result<bool, FailureKind>;

/// The system says that the item is not there.
pub open spec fn says_gone(look: Look) -> bool {
    look == Err::<bool, FailureKind>(FailureKind::NotFound)
}

/// A walk after something that is at a position, and may be a folder: it is still
/// there unless the system says that it is not. A folder is looked into later; what
/// could not be looked at may hold more than was seen.
pub open spec fn survey_item<D>(m: SurveyModel<D>, path: D, rel: Seq<char>, look: Look) -> SurveyModel<
    D,
> {
    match look {
        Ok(folder) => SurveyModel {
            seen: m.seen.push(rel),
            stack: if folder {
                m.stack.push((path, rel))
            } else {
                m.stack
            },
            ..m
        },
        Err(kind) => if kind == FailureKind::NotFound {
            m
        } else {
            SurveyModel { seen: m.seen.push(rel), unknown: m.unknown.push(rel), ..m }
        },
    }
}

/// A walk after an entry of a folder. One that does not lie under the root is
/// passed over.
pub open spec fn survey_entry<D>(
    m: SurveyModel<D>,
    path: D,
    os_rel: Option<Seq<char>>,
    look: Look,
) -> SurveyModel<D> {
    match os_rel {
        Some(os) => survey_item(m, path, shared_rel(m.system, os), look),
        None => m,
    }
}

/// A walk that has found nothing yet.
pub open spec fn survey_start<D>(system: System) -> SurveyModel<D> {
    SurveyModel {
        stack: Seq::empty(),
        current: Seq::empty(),
        seen: Seq::empty(),
        unknown: Seq::empty(),
        system,
    }
}

impl<D> Survey<D> {
    /// The walk as a mathematical value.
    pub open spec fn model(self) -> SurveyModel<D> {
        SurveyModel {
            stack: Seq::new(self.stack@.len(), |i: int| (self.stack@[i].0, self.stack@[i].1@)),
            current: self.current@,
            seen: texts(self.seen@),
            unknown: texts(self.unknown@),
            system: self.system,
        }
    }

    /// A walk from an item down, by what a look at the item said.
    pub fn new(system: System, base: D, rel: &str, look: Look) -> (r: Self)
        ensures
            r.model() == survey_item(survey_start(system), base, rel@, look),
    {
        let mut r = Survey {
            stack: Vec::new(),
            current: String::new(),
            seen: Vec::new(),
            unknown: Vec::new(),
            system,
        };
        assert(r.model().stack =~= Seq::<(D, Seq<char>)>::empty());
        assert(r.model().seen =~= Seq::<Seq<char>>::empty());
        assert(r.model().unknown =~= Seq::<Seq<char>>::empty());
        r.item(base, rel.to_owned(), look);
        r
    }

    /// Something that is at a position.
    fn item(&mut self, path: D, rel: String, look: Look)
        ensures
            final(self).model() == survey_item(old(self).model(), path, rel@, look),
    {
        let ghost before = self.model();
        match look {
            Ok(folder) => {
                self.seen.push(rel.clone());
                assert(self.model().seen =~= before.seen.push(rel@));
                if folder {
                    self.stack.push((path, rel));
                    assert(self.model().stack =~= before.stack.push((path, rel@)));
                }
            },
            Err(kind) => {
                if !matches!(kind, FailureKind::NotFound) {
                    self.seen.push(rel.clone());
                    assert(self.model().seen =~= before.seen.push(rel@));
                    self.unknown.push(rel);
                    assert(self.model().unknown =~= before.unknown.push(rel@));
                }
            },
        }
    }

    /// The next folder to look into.
    pub fn next_dir(&mut self) -> (r: Option<D>)
        ensures
            match r {
                Some(d) => old(self).model().stack.len() > 0 && d == old(self).model().stack.last().0
                    && final(self).model() == (SurveyModel {
                    stack: old(self).model().stack.drop_last(),
                    current: old(self).model().stack.last().1,
                    ..old(self).model()
                }),
                None => old(self).model().stack.len() == 0 && final(self).model() == old(self).model(),
            },
    {
        let ghost before = self.model();
        match self.stack.pop() {
            Some((d, rel)) => {
                assert(before.stack.last() == (d, rel@));
                self.current = rel;
                assert(self.model().stack =~= before.stack.drop_last());
                Some(d)
            },
            None => {
                assert(self.model().stack =~= before.stack);
                None
            },
        }
    }

    /// The folder could not be looked into, or not wholly.
    pub fn unreadable(&mut self)
        ensures
            final(self).model() == (SurveyModel {
                unknown: old(self).model().unknown.push(old(self).model().current),
                ..old(self).model()
            }),
    {
        let ghost before = self.model();
        self.unknown.push(self.current.clone());
        assert(self.model().unknown =~= before.unknown.push(before.current));
    }

    /// An entry of the folder that is being looked into, by its path relative to
    /// the root.
    pub fn entry(&mut self, path: D, os_rel: Option<&str>, look: Look)
        ensures
            final(self).model() == survey_entry(
                old(self).model(),
                path,
                match os_rel {
                    Some(s) => Some(s@),
                    None => None,
                },
                look,
            ),
    {
        match os_rel {
            Some(os) => {
                let rel = rel_from_os(self.system, os);
                self.item(path, rel, look);
            },
            None => {},
        }
    }

    /// What the walk found.
    pub fn finish(self) -> (r: Surviving)
        ensures
            texts(r.seen@) == self.model().seen,
            texts(r.unknown@) == self.model().unknown,
    {
        Surviving { seen: self.seen, unknown: self.unknown }
    }
}

/// An entry of a folder: what it is opened by, its path relative to the root, and
/// what a look at it said.
pub type Entry<D> = (D, Option<Seq<char>>, Look);

/// What a walk hears of the next folder, which it takes.
pub enum SurveyReply<D> {
    /// It could not be looked into.
    Shut,
    /// It has these entries, and whether that is all of them.
    Entries(Seq<Entry<D>>, bool),
}

/// The walk after some entries of a folder.
pub open spec fn survey_entries<D>(m: SurveyModel<D>, entries: Seq<Entry<D>>) -> SurveyModel<D>
    decreases entries.len(),
{
    if entries.len() == 0 {
        m
    } else {
        let e = entries.last();
        survey_entry(survey_entries(m, entries.drop_last()), e.0, e.1, e.2)
    }
}

/// The walk after the folder that is being looked into could not be, or not wholly.
pub open spec fn survey_shut<D>(m: SurveyModel<D>) -> SurveyModel<D> {
    SurveyModel { unknown: m.unknown.push(m.current), ..m }
}

/// The walk after it took the next folder.
pub open spec fn survey_taken<D>(m: SurveyModel<D>) -> SurveyModel<D> {
    SurveyModel { stack: m.stack.drop_last(), current: m.stack.last().1, ..m }
}

/// The walk after one folder.
pub open spec fn survey_folder<D>(m: SurveyModel<D>, reply: SurveyReply<D>) -> SurveyModel<D> {
    match reply {
        SurveyReply::Shut => survey_shut(survey_taken(m)),
        SurveyReply::Entries(entries, all) => {
            let after = survey_entries(survey_taken(m), entries);
            if all {
                after
            } else {
                survey_shut(after)
            }
        },
    }
}

/// The walk after some folders.
pub open spec fn survey_run<D>(m: SurveyModel<D>, log: Seq<SurveyReply<D>>) -> SurveyModel<D>
    decreases log.len(),
{
    if log.len() == 0 {
        m
    } else {
        survey_folder(survey_run(m, log.drop_last()), log.last())
    }
}

/// Every folder taken was one of those still to be looked into.
pub open spec fn survey_log<D>(m: SurveyModel<D>, log: Seq<SurveyReply<D>>) -> bool
    decreases log.len(),
{
    log.len() == 0 || (survey_log(m, log.drop_last()) && survey_run(
        m,
        log.drop_last(),
    ).stack.len() > 0)
}

/// Everything that is still to be looked into, or could not be, was seen.
pub open spec fn accounted<D>(m: SurveyModel<D>) -> bool {
    &&& forall|i: int| 0 <= i < m.stack.len() ==> m.seen.contains(#[trigger] m.stack[i].1)
    &&& forall|i: int| 0 <= i < m.unknown.len() ==> m.seen.contains(#[trigger] m.unknown[i])
}

/// What lies at a position is reported: it was seen unless the system says that it
/// is not there, and where it could not be looked at, that is said too.
pub open spec fn reported<D>(m: SurveyModel<D>, rel: Seq<char>, look: Look) -> bool {
    says_gone(look) || (m.seen.contains(rel) && (look is Err ==> m.unknown.contains(rel)))
}

/// An entry is reported.
pub open spec fn entry_reported<D>(m: SurveyModel<D>, e: Entry<D>) -> bool {
    e.1 matches Some(os) ==> reported(m, shared_rel(m.system, os), e.2)
}

/// A walk goes on from another one: nothing that was seen, or could not be looked
/// into, is lost.
spec fn goes_on<D>(before: SurveyModel<D>, after: SurveyModel<D>) -> bool {
    &&& after.system == before.system
    &&& forall|x: Seq<char>| before.seen.contains(x) ==> #[trigger] after.seen.contains(x)
    &&& forall|x: Seq<char>| before.unknown.contains(x) ==> #[trigger] after.unknown.contains(x)
}

proof fn lemma_push_keeps(s: Seq<Seq<char>>, y: Seq<char>)
    ensures
        s.push(y).contains(y),
        forall|x: Seq<char>| s.contains(x) ==> #[trigger] s.push(y).contains(x),
{
    assert(s.push(y)[s.len() as int] == y);
    assert forall|x: Seq<char>| s.contains(x) implies #[trigger] s.push(y).contains(x) by {
        let k = choose|k: int| 0 <= k < s.len() && s[k] == x;
        assert(s.push(y)[k] == x);
    }
}

proof fn lemma_item_accounted<D>(m: SurveyModel<D>, path: D, rel: Seq<char>, look: Look)
    requires
        accounted(m),
    ensures
        accounted(survey_item(m, path, rel, look)),
        goes_on(m, survey_item(m, path, rel, look)),
        reported(survey_item(m, path, rel, look), rel, look),
{
    let n = survey_item(m, path, rel, look);
    lemma_push_keeps(m.seen, rel);
    lemma_push_keeps(m.unknown, rel);
    assert forall|i: int| 0 <= i < n.stack.len() implies n.seen.contains(
        #[trigger] n.stack[i].1,
    ) by {
        if i < m.stack.len() {
            assert(n.stack[i] == m.stack[i]);
            assert(m.seen.contains(m.stack[i].1));
        }
    }
    assert forall|i: int| 0 <= i < n.unknown.len() implies n.seen.contains(
        #[trigger] n.unknown[i],
    ) by {
        if i < m.unknown.len() {
            assert(n.unknown[i] == m.unknown[i]);
            assert(m.seen.contains(m.unknown[i]));
        }
    }
}

proof fn lemma_shut_accounted<D>(m: SurveyModel<D>)
    requires
        accounted(m),
        m.seen.contains(m.current),
    ensures
        accounted(survey_shut(m)),
        goes_on(m, survey_shut(m)),
        survey_shut(m).unknown.contains(m.current),
{
    let n = survey_shut(m);
    lemma_push_keeps(m.unknown, m.current);
    assert forall|i: int| 0 <= i < n.unknown.len() implies n.seen.contains(
        #[trigger] n.unknown[i],
    ) by {
        if i < m.unknown.len() {
            assert(n.unknown[i] == m.unknown[i]);
        }
    }
}

proof fn lemma_entries_accounted<D>(m: SurveyModel<D>, entries: Seq<Entry<D>>)
    requires
        accounted(m),
    ensures
        accounted(survey_entries(m, entries)),
        goes_on(m, survey_entries(m, entries)),
        survey_entries(m, entries).current == m.current,
        forall|j: int|
            0 <= j < entries.len() ==> entry_reported(
                survey_entries(m, entries),
                #[trigger] entries[j],
            ),
    decreases entries.len(),
{
    if entries.len() > 0 {
        let front = entries.drop_last();
        let before = survey_entries(m, front);
        let after = survey_entries(m, entries);
        let e = entries.last();
        lemma_entries_accounted(m, front);
        match e.1 {
            Some(os) => {
                lemma_item_accounted(before, e.0, shared_rel(before.system, os), e.2);
            },
            None => {},
        }
        assert(goes_on(before, after));
        assert forall|j: int| 0 <= j < entries.len() implies entry_reported(
            after,
            #[trigger] entries[j],
        ) by {
            if j < front.len() {
                assert(front[j] == entries[j]);
                assert(entry_reported(before, front[j]));
            }
        }
    }
}

/// Silence never passes for absence. A walk that begins with an item loses nothing
/// of it: the item, and every entry that a folder lists, is reported as still there
/// unless the system says that it is not; what could not be looked at is reported as
/// such; and so is every folder that could not be looked into, or not wholly. What
/// is reported as such was seen.
pub proof fn law_silence_is_not_absence<D>(
    system: System,
    base: D,
    rel: Seq<char>,
    look: Look,
    log: Seq<SurveyReply<D>>,
)
    requires
        survey_log(survey_item(survey_start(system), base, rel, look), log),
    ensures
        ({
            let start = survey_item(survey_start(system), base, rel, look);
            let end = survey_run(start, log);
            &&& accounted(end)
            &&& reported(end, rel, look)
            &&& forall|i: int, j: int|
                0 <= i < log.len() && (log[i] matches SurveyReply::Entries(es, _) && 0 <= j
                    < es.len()) ==> entry_reported(
                    end,
                    #[trigger] (#[trigger] log[i])->Entries_0[j],
                )
            &&& forall|i: int|
                0 <= i < log.len() && ((#[trigger] log[i]) is Shut || (
                log[i] matches SurveyReply::Entries(_, all) && !all)) ==> end.unknown.contains(
                    survey_run(start, log.take(i)).stack.last().1,
                )
        }),
    decreases log.len(),
{
    let start = survey_item(survey_start(system), base, rel, look);
    let end = survey_run(start, log);
    if log.len() == 0 {
        lemma_item_accounted(survey_start(system), base, rel, look);
    } else {
        let front = log.drop_last();
        law_silence_is_not_absence(system, base, rel, look, front);
        let before = survey_run(start, front);
        let taken = survey_taken(before);
        assert(before.stack[before.stack.len() - 1] == before.stack.last());
        assert(taken.seen.contains(taken.current));
        assert forall|i: int| 0 <= i < taken.stack.len() implies taken.seen.contains(
            #[trigger] taken.stack[i].1,
        ) by {
            assert(taken.stack[i] == before.stack[i]);
        }
        assert(accounted(taken));
        match log.last() {
            SurveyReply::Shut => {
                lemma_shut_accounted(taken);
            },
            SurveyReply::Entries(entries, all) => {
                lemma_entries_accounted(taken, entries);
                if !all {
                    lemma_shut_accounted(survey_entries(taken, entries));
                }
            },
        }
        assert(goes_on(before, end));
        assert forall|i: int, j: int|
            0 <= i < log.len() && (log[i] matches SurveyReply::Entries(es, _) && 0 <= j
                < es.len()) implies entry_reported(
            end,
            #[trigger] (#[trigger] log[i])->Entries_0[j],
        ) by {
            if i < front.len() {
                assert(front[i] == log[i]);
                assert(entry_reported(before, front[i]->Entries_0[j]));
            }
        }
        assert forall|i: int|
            0 <= i < log.len() && ((#[trigger] log[i]) is Shut || (
            log[i] matches SurveyReply::Entries(_, all) && !all)) implies end.unknown.contains(
            survey_run(start, log.take(i)).stack.last().1,
        ) by {
            if i < front.len() {
                assert(front[i] == log[i]);
                assert(front.take(i) =~= log.take(i));
            } else {
                assert(log.take(i) =~= front);
            }
        }
    }
}

/// A walk from a plain file sees the file and has nothing to look into: it is no
/// folder that could not be.
pub proof fn law_a_file_is_no_shut_folder<D>(system: System, base: D, rel: Seq<char>)
    ensures
        ({
            let end = survey_item(survey_start(system), base, rel, Ok(false));
            end.seen == seq![rel] && end.stack.len() == 0 && end.unknown.len() == 0
        }),
{
    assert(Seq::<Seq<char>>::empty().push(rel) =~= seq![rel]);
}

/// Whether an item can be handed to the program that is associated with it: it
/// has to be there.
pub fn open_item(look: Result<(), Fault<String>>) -> (r: Result<(), CmdError>)
    ensures
        match r {
            Ok(_) => look is Ok,
            Err(e) => look matches Err(f) && e.says(
                if f.failure.kind == FailureKind::PermissionDenied {
                    "permission"@
                } else {
                    "item_missing"@
                },
                Seq::empty(),
            ),
        },
{
    match look {
        Ok(_) => Ok(()),
        Err(f) => if matches!(f.failure.kind, FailureKind::PermissionDenied) {
            Err(CmdError::from_words("permission", &f.text))
        } else {
            Err(CmdError::plain("item_missing"))
        },
    }
}

/// An item that was looked at is still there unless the system says that it is not; a
/// folder among them is to be looked into, and what could not be looked at is said to be
/// so. Nothing that was known before is lost.
pub proof fn law_a_look_decides<D>(m: SurveyModel<D>, path: D, rel: Seq<char>, look: Look)
    ensures
        ({
            let n = survey_item(m, path, rel, look);
            let gone = look matches Err(kind) && kind == FailureKind::NotFound;
            &&& gone ==> n == m
            &&& !gone ==> n.seen == m.seen.push(rel)
            &&& n.stack == (if look == Ok::<bool, FailureKind>(true) {
                m.stack.push((path, rel))
            } else {
                m.stack
            })
            &&& n.unknown == (if look is Err && !gone {
                m.unknown.push(rel)
            } else {
                m.unknown
            })
            &&& n.current == m.current && n.system == m.system
        }),
{
}

/// How many of the entries are still there, as the system says or does not deny.
pub open spec fn still_there<D>(entries: Seq<Entry<D>>) -> nat
    decreases entries.len(),
{
    if entries.len() == 0 {
        0
    } else {
        let e = entries.last();
        still_there(entries.drop_last()) + (if e.1 is Some && e.2 != Err::<bool, FailureKind>(
            FailureKind::NotFound,
        ) {
            1nat
        } else {
            0
        })
    }
}

/// How many of the entries of all folders are still there.
pub open spec fn all_still_there<D>(log: Seq<SurveyReply<D>>) -> nat
    decreases log.len(),
{
    if log.len() == 0 {
        0
    } else {
        all_still_there(log.drop_last()) + (match log.last() {
            SurveyReply::Shut => 0,
            SurveyReply::Entries(es, _) => still_there(es),
        })
    }
}

proof fn lemma_entries_counted<D>(m: SurveyModel<D>, entries: Seq<Entry<D>>)
    ensures
        survey_entries(m, entries).seen.len() == m.seen.len() + still_there(entries),
    decreases entries.len(),
{
    if entries.len() > 0 {
        lemma_entries_counted(m, entries.drop_last());
    }
}

/// As many items are reported as are there: the item itself, and every entry of a folder
/// that the system does not deny. So nothing is reported only where the item itself is
/// gone.
pub proof fn law_as_many_are_reported_as_are_there<D>(
    system: System,
    base: D,
    rel: Seq<char>,
    look: Look,
    log: Seq<SurveyReply<D>>,
)
    requires
        survey_log(survey_item(survey_start(system), base, rel, look), log),
    ensures
        ({
            let end = survey_run(survey_item(survey_start(system), base, rel, look), log);
            let gone = look matches Err(kind) && kind == FailureKind::NotFound;
            &&& gone ==> end.seen.len() == 0 && log.len() == 0
            &&& !gone ==> end.seen.len() == 1 + all_still_there(log) && end.seen[0] == rel
        }),
    decreases log.len(),
{
    let start = survey_item(survey_start(system), base, rel, look);
    if log.len() > 0 {
        let front = log.drop_last();
        law_as_many_are_reported_as_are_there(system, base, rel, look, front);
        let before = survey_run(start, front);
        match log.last() {
            SurveyReply::Shut => {},
            SurveyReply::Entries(es, all) => {
                lemma_entries_counted(survey_taken(before), es);
                lemma_seen_grows(survey_taken(before), es);
            },
        }
        if look matches Err(kind) && kind == FailureKind::NotFound {
            assert(front.len() == 0);
            assert(start.stack.len() == 0);
        }
    }
}

proof fn lemma_seen_grows<D>(m: SurveyModel<D>, entries: Seq<Entry<D>>)
    ensures
        m.seen.is_prefix_of(survey_entries(m, entries).seen),
    decreases entries.len(),
{
    if entries.len() > 0 {
        let before = survey_entries(m, entries.drop_last());
        let after = survey_entries(m, entries);
        lemma_seen_grows(m, entries.drop_last());
        assert(after.seen.take(m.seen.len() as int) =~= before.seen.take(m.seen.len() as int));
    } else {
        assert(m.seen.take(m.seen.len() as int) =~= m.seen);
    }
}

/// A deletion that failed says so by name where it was not allowed, and otherwise with the
/// system's words.
pub proof fn law_why_a_deletion_failed(fault: Fault<Seq<char>>)
    ensures
        fault.failure.kind == FailureKind::PermissionDenied ==> delete_error(fault) == (
            "permission"@,
            Seq::<char>::empty(),
        ),
        fault.failure.kind != FailureKind::PermissionDenied ==> delete_error(fault).0
            == "delete_failed"@ && delete_error(fault).1 == without_number(fault.text),
{
}

} // verus!
