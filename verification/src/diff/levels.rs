//! The three levels of a comparison.
use vstd::prelude::*;

use super::content::{compare_contents, content_status, Reading};
use super::paths::{lists, map_of, text_lt, PathMap};
use super::{
    report_of, CompareMode, CompareProgress, DiffStatus, ProgressPhase, ScannedFile,
};
use crate::text::texts;

verus! {

/// How far apart two times may be and still count as the same, in seconds.
pub const MTIME_TOLERANCE_SEC: i64 = 2;

/// How many pairs pass between two progress reports of the second level.
pub const PROGRESS_EVERY_L2: u64 = 500;

/// How many contents pass between two progress reports of the third level.
pub const PROGRESS_EVERY_L3: u64 = 50;

/// How many readers may be left stuck before the disk counts as compromised.
pub const MAX_LEAKED_THREADS: u64 = 8;

/// Two times are the same for the second level.
pub open spec fn times_agree(a: i64, b: i64) -> bool {
    -MTIME_TOLERANCE_SEC <= a - b <= MTIME_TOLERANCE_SEC
}

/// Only the content can tell two items apart: files of the same size and time,
/// neither of them a link.
pub open spec fn needs_content(a: ScannedFile, b: ScannedFile) -> bool {
    &&& !a.is_symlink && !b.is_symlink
    &&& !a.is_dir && !b.is_dir
    &&& a.size == b.size
    &&& times_agree(a.modified, b.modified)
}

/// What the second level says where the content is not needed. A link is compared
/// as a link: a link on both sides, with the same target written in it. What it
/// points at is never read.
pub open spec fn known_status(a: ScannedFile, b: ScannedFile, same_target: bool) -> DiffStatus {
    if a.is_symlink || b.is_symlink {
        if a.is_symlink && b.is_symlink && same_target {
            DiffStatus::Same
        } else {
            DiffStatus::Diff
        }
    } else if a.is_dir && b.is_dir {
        DiffStatus::Same
    } else {
        DiffStatus::Diff
    }
}

/// Whether two times are the same for the second level.
fn do_times_agree(a: i64, b: i64) -> (r: bool)
    ensures
        r == times_agree(a, b),
{
    let apart: i128 = a as i128 - b as i128;
    -(MTIME_TOLERANCE_SEC as i128) <= apart && apart <= MTIME_TOLERANCE_SEC as i128
}

/// What the second level says of two items; nothing where the content is needed.
pub open spec fn second_level(a: ScannedFile, b: ScannedFile, same_target: bool) -> Option<
    DiffStatus,
> {
    if needs_content(a, b) {
        None
    } else {
        Some(known_status(a, b, same_target))
    }
}

/// What the second level says of two items; nothing where the content is needed.
pub fn level2(a: &ScannedFile, b: &ScannedFile, same_target: bool) -> (r: Option<DiffStatus>)
    ensures
        r == second_level(*a, *b, same_target),
{
    if a.is_symlink || b.is_symlink {
        if a.is_symlink && b.is_symlink && same_target {
            Some(DiffStatus::Same)
        } else {
            Some(DiffStatus::Diff)
        }
    } else if a.is_dir != b.is_dir {
        Some(DiffStatus::Diff)
    } else if a.is_dir {
        Some(DiffStatus::Same)
    } else if a.size != b.size {
        Some(DiffStatus::Diff)
    } else if !do_times_agree(a.modified, b.modified) {
        Some(DiffStatus::Diff)
    } else {
        None
    }
}

/// Whether two links carry the same target, from what could be read of both:
/// where one could not be read, they do not.
pub fn link_targets_match(same: Option<bool>) -> (r: bool)
    ensures
        r == (same == Some(true)),
{
    match same {
        Some(b) => b,
        None => false,
    }
}

/// A comparison on its way, as a mathematical value.
#[verifier::ext_equal]
pub struct DiffModel {
    /// What was found on the first side.
    pub a: Map<Seq<char>, ScannedFile>,
    /// What was found on the second side.
    pub b: Map<Seq<char>, ScannedFile>,
    /// The positions of the first side in order.
    pub keys_a: Seq<Seq<char>>,
    /// The positions of the second side in order.
    pub keys_b: Seq<Seq<char>>,
    /// The comparison that is asked for.
    pub mode: CompareMode,
    /// How many positions of the first side were compared.
    pub i: int,
    /// How many positions of the second side were looked up.
    pub j: int,
    /// How many contents were settled.
    pub k: int,
    /// How many positions of the first side are there on both.
    pub pairs: u64,
    /// The positions whose content is needed.
    pub candidates: Seq<Seq<char>>,
    /// What was said of the targets of links.
    pub links: Map<Seq<char>, bool>,
    /// What was read of contents.
    pub readings: Map<Seq<char>, (Reading, Reading)>,
    /// How the positions compare, as far as that is settled.
    pub result: Map<Seq<char>, DiffStatus>,
    /// How many contents could not be read.
    pub unreadable: u64,
    /// How many contents were given up unread.
    pub aborted: u64,
}

/// How a position compares, from everything that was found and said. In a fast
/// comparison, what matches in size and time counts as the same. A content that
/// nobody read counts as unreadable.
pub open spec fn verdict(m: DiffModel, x: Seq<char>) -> DiffStatus {
    if !m.b.contains_key(x) {
        DiffStatus::OnlyA
    } else if !m.a.contains_key(x) {
        DiffStatus::OnlyB
    } else if !needs_content(m.a[x], m.b[x]) {
        known_status(m.a[x], m.b[x], m.links[x])
    } else if m.mode == CompareMode::Fast {
        DiffStatus::Same
    } else if m.readings.contains_key(x) {
        content_status(m.readings[x].0, m.readings[x].1)
    } else {
        DiffStatus::Unreadable
    }
}

/// The content of a position is needed.
pub open spec fn is_candidate(m: DiffModel, x: Seq<char>) -> bool {
    m.a.contains_key(x) && m.b.contains_key(x) && needs_content(m.a[x], m.b[x])
}

/// How a position compares is settled.
pub open spec fn settled(m: DiffModel, x: Seq<char>) -> bool {
    ||| m.keys_a.take(m.i).contains(x) && !is_candidate(m, x)
    ||| m.keys_b.take(m.j).contains(x) && !m.a.contains_key(x)
    ||| m.candidates.take(m.k).contains(x)
}

/// How many of the positions were read and found unreadable.
pub open spec fn count_unreadable(
    keys: Seq<Seq<char>>,
    readings: Map<Seq<char>, (Reading, Reading)>,
) -> nat
    decreases keys.len(),
{
    if keys.len() == 0 {
        0
    } else {
        let x = keys.last();
        count_unreadable(keys.drop_last(), readings) + if readings.contains_key(x)
            && content_status(readings[x].0, readings[x].1) == DiffStatus::Unreadable {
            1nat
        } else {
            0
        }
    }
}

/// How many of the positions were not read at all.
pub open spec fn count_unread(
    keys: Seq<Seq<char>>,
    readings: Map<Seq<char>, (Reading, Reading)>,
) -> nat
    decreases keys.len(),
{
    if keys.len() == 0 {
        0
    } else {
        count_unread(keys.drop_last(), readings) + if readings.contains_key(keys.last()) {
            0
        } else {
            1nat
        }
    }
}

/// Everything that is settled is settled rightly, and nothing else is; the
/// positions whose content is needed are known as far as the first side was gone
/// through.
pub open spec fn sound(m: DiffModel) -> bool {
    &&& lists(m.keys_a, m.a) && lists(m.keys_b, m.b)
    &&& 0 <= m.i <= m.keys_a.len() && 0 <= m.j <= m.keys_b.len() && 0 <= m.k <= m.candidates.len()
    &&& m.pairs <= m.i
    &&& forall|x: Seq<char>| #[trigger] m.result.contains_key(x) <==> settled(m, x)
    &&& forall|x: Seq<char>| #[trigger] m.result.contains_key(x) ==> m.result[x] == verdict(m, x)
    &&& forall|q: int|
        0 <= q < m.candidates.len() ==> m.keys_a.take(m.i).contains(#[trigger] m.candidates[q])
            && is_candidate(m, m.candidates[q])
    &&& forall|q: int, r: int|
        0 <= q < r < m.candidates.len() ==> text_lt(
            #[trigger] m.candidates[q],
            #[trigger] m.candidates[r],
        )
    &&& forall|p: int|
        0 <= p < m.i && is_candidate(m, #[trigger] m.keys_a[p]) ==> m.candidates.contains(
            m.keys_a[p],
        )
    &&& forall|x: Seq<char>| #[trigger]
        m.readings.contains_key(x) ==> m.candidates.take(m.k).contains(x)
    &&& m.mode == CompareMode::Fast ==> m.readings == Map::<Seq<char>, (Reading, Reading)>::empty()
        && m.unreadable == 0 && m.aborted == 0
    &&& m.mode == CompareMode::Deep ==> m.unreadable == count_unreadable(
        m.candidates.take(m.k),
        m.readings,
    ) && m.aborted == count_unread(m.candidates.take(m.k), m.readings)
}

/// Everything was gone through.
pub open spec fn complete(m: DiffModel) -> bool {
    m.i == m.keys_a.len() && m.j == m.keys_b.len() && m.k == m.candidates.len()
}

/// A comparison that is to begin.
pub open spec fn diff_start(
    a: Map<Seq<char>, ScannedFile>,
    b: Map<Seq<char>, ScannedFile>,
    keys_a: Seq<Seq<char>>,
    keys_b: Seq<Seq<char>>,
    mode: CompareMode,
) -> DiffModel {
    DiffModel {
        a,
        b,
        keys_a,
        keys_b,
        mode,
        i: 0,
        j: 0,
        k: 0,
        pairs: 0,
        candidates: Seq::empty(),
        links: Map::empty(),
        readings: Map::empty(),
        result: Map::empty(),
        unreadable: 0,
        aborted: 0,
    }
}

/// The smaller of two numbers.
pub open spec fn smaller(a: nat, b: nat) -> nat {
    if a <= b {
        a
    } else {
        b
    }
}

/// The comparison after the next position of the first side.
pub open spec fn level2_next(m: DiffModel, same_target: bool) -> DiffModel {
    let x = m.keys_a[m.i];
    let on = DiffModel { i: m.i + 1, ..m };
    if !m.b.contains_key(x) {
        DiffModel { result: m.result.insert(x, DiffStatus::OnlyA), ..on }
    } else if needs_content(m.a[x], m.b[x]) {
        DiffModel { pairs: (m.pairs + 1) as u64, candidates: m.candidates.push(x), ..on }
    } else {
        DiffModel {
            pairs: (m.pairs + 1) as u64,
            links: m.links.insert(x, same_target),
            result: m.result.insert(x, known_status(m.a[x], m.b[x], same_target)),
            ..on
        }
    }
}

/// The report after the next position of the first side: one for every so many
/// pairs.
pub open spec fn level2_report(m: DiffModel) -> Option<CompareProgress<Seq<char>>> {
    let x = m.keys_a[m.i];
    if m.b.contains_key(x) && (m.pairs + 1) as u64 % PROGRESS_EVERY_L2 == 0 {
        Some(
            CompareProgress {
                phase: ProgressPhase::Level2,
                count: (m.pairs + 1) as u64,
                total: smaller(m.keys_a.len(), m.keys_b.len()) as u64,
                current_path: x,
                bytes_done: 0,
                bytes_total: 0,
            },
        )
    } else {
        None
    }
}

/// The comparison after the next position of the second side.
pub open spec fn only_b_next(m: DiffModel) -> DiffModel {
    let x = m.keys_b[m.j];
    let on = DiffModel { j: m.j + 1, ..m };
    if m.a.contains_key(x) {
        on
    } else {
        DiffModel { result: m.result.insert(x, DiffStatus::OnlyB), ..on }
    }
}

/// The comparison after the next content that was read on both sides.
pub open spec fn content_next(m: DiffModel, a: Reading, b: Reading) -> DiffModel {
    let x = m.candidates[m.k];
    let status = content_status(a, b);
    DiffModel {
        k: m.k + 1,
        readings: m.readings.insert(x, (a, b)),
        result: m.result.insert(x, status),
        unreadable: if status == DiffStatus::Unreadable {
            (m.unreadable + 1) as u64
        } else {
            m.unreadable
        },
        ..m
    }
}

/// The comparison after the next content that counts without being read: as the
/// same in a fast one, as given up in a deep one.
pub open spec fn unread_next(m: DiffModel) -> DiffModel {
    let x = m.candidates[m.k];
    if m.mode == CompareMode::Fast {
        DiffModel { k: m.k + 1, result: m.result.insert(x, DiffStatus::Same), ..m }
    } else {
        DiffModel {
            k: m.k + 1,
            result: m.result.insert(x, DiffStatus::Unreadable),
            aborted: (m.aborted + 1) as u64,
            ..m
        }
    }
}

/// The comparison after all contents that are left, none of them read.
pub open spec fn unread_rest(m: DiffModel) -> DiffModel
    decreases m.candidates.len() - m.k,
{
    if 0 <= m.k < m.candidates.len() {
        unread_rest(unread_next(m))
    } else {
        m
    }
}

/// How many bytes the files of some positions hold.
pub open spec fn bytes_in(keys: Seq<Seq<char>>, a: Map<Seq<char>, ScannedFile>) -> nat
    decreases keys.len(),
{
    if keys.len() == 0 {
        0
    } else {
        bytes_in(keys.drop_last(), a) + a[keys.last()].size as nat
    }
}

/// How many bytes of content there are to read: every candidate is read on both
/// sides. A number that does not fit stays at the highest that does.
pub open spec fn bytes_to_read(m: DiffModel) -> int {
    let n = 2 * bytes_in(m.candidates, m.a);
    if n <= u64::MAX {
        n as int
    } else {
        u64::MAX as int
    }
}

/// A report of the third level.
pub open spec fn level3_report(m: DiffModel, count: int, at: Seq<char>, bytes_done: u64) -> CompareProgress<
    Seq<char>,
> {
    CompareProgress {
        phase: ProgressPhase::Level3,
        count: count as u64,
        total: m.candidates.len() as u64,
        current_path: at,
        bytes_done,
        bytes_total: bytes_to_read(m) as u64,
    }
}

/// The report after a content: one for every so many.
pub open spec fn content_report(m: DiffModel, bytes_done: u64) -> Option<
    CompareProgress<Seq<char>>,
> {
    if (m.k + 1) as u64 % PROGRESS_EVERY_L3 == 0 {
        Some(level3_report(m, m.k + 1, m.candidates[m.k], bytes_done))
    } else {
        None
    }
}

/// The report at the end of the third level, where there was one.
pub open spec fn closing_report(m: DiffModel, bytes_done: u64) -> Option<
    CompareProgress<Seq<char>>,
> {
    if m.mode == CompareMode::Deep && m.candidates.len() > 0 {
        Some(level3_report(m, m.candidates.len() as int, m.candidates.last(), bytes_done))
    } else {
        None
    }
}

/// The next content to read, by its position and its size; nothing once all are
/// settled, and with too many readers left stuck everything is.
pub open spec fn next_due(m: DiffModel, leaked: u64) -> (DiffModel, Option<(Seq<char>, u64)>) {
    if m.k >= m.candidates.len() {
        (m, None)
    } else if leaked >= MAX_LEAKED_THREADS {
        (unread_rest(m), None)
    } else {
        (m, Some((m.candidates[m.k], m.a[m.candidates[m.k]].size)))
    }
}

proof fn lemma_take_next(keys: Seq<Seq<char>>, i: int, x: Seq<char>)
    requires
        0 <= i < keys.len(),
    ensures
        keys.take(i + 1).contains(x) <==> keys.take(i).contains(x) || x == keys[i],
        keys.take(i + 1).drop_last() == keys.take(i),
        keys.take(i + 1).last() == keys[i],
{
    assert(keys.take(i + 1).drop_last() =~= keys.take(i));
    assert(keys.take(i + 1) =~= keys.take(i).push(keys[i]));
    if keys.take(i).contains(x) {
        let p = choose|p: int| 0 <= p < keys.take(i).len() && keys.take(i)[p] == x;
        assert(keys.take(i + 1)[p] == x);
    }
    if x == keys[i] {
        assert(keys.take(i + 1)[i] == x);
    }
    if keys.take(i + 1).contains(x) && x != keys[i] {
        let more = keys.take(i + 1);
        let p = choose|p: int| 0 <= p < more.len() && more[p] == x;
        assert(keys.take(i)[p] == x);
    }
}

proof fn lemma_not_yet(keys: Seq<Seq<char>>, i: int)
    requires
        0 <= i < keys.len(),
        forall|p: int, q: int|
            0 <= p < q < keys.len() ==> text_lt(#[trigger] keys[p], #[trigger] keys[q]),
    ensures
        !keys.take(i).contains(keys[i]),
{
    if keys.take(i).contains(keys[i]) {
        let p = choose|p: int| 0 <= p < keys.take(i).len() && keys.take(i)[p] == keys[i];
        assert(text_lt(keys[p], keys[i]));
    }
}

proof fn lemma_counts_keep(
    keys: Seq<Seq<char>>,
    readings: Map<Seq<char>, (Reading, Reading)>,
    x: Seq<char>,
    r: (Reading, Reading),
)
    requires
        !keys.contains(x),
    ensures
        count_unreadable(keys, readings.insert(x, r)) == count_unreadable(keys, readings),
        count_unread(keys, readings.insert(x, r)) == count_unread(keys, readings),
    decreases keys.len(),
{
    if keys.len() > 0 {
        assert forall|y: Seq<char>| keys.drop_last().contains(y) implies keys.contains(y) by {
            let p = choose|p: int| 0 <= p < keys.drop_last().len() && keys.drop_last()[p] == y;
            assert(keys[p] == y);
        }
        assert(keys[keys.len() - 1] == keys.last());
        assert(keys.last() != x);
        lemma_counts_keep(keys.drop_last(), readings, x, r);
    }
}

proof fn lemma_counts_bounded(
    keys: Seq<Seq<char>>,
    readings: Map<Seq<char>, (Reading, Reading)>,
)
    ensures
        count_unreadable(keys, readings) + count_unread(keys, readings) <= keys.len(),
    decreases keys.len(),
{
    if keys.len() > 0 {
        lemma_counts_bounded(keys.drop_last(), readings);
    }
}

proof fn lemma_start_sound(m: DiffModel)
    requires
        m == diff_start(m.a, m.b, m.keys_a, m.keys_b, m.mode),
        lists(m.keys_a, m.a),
        lists(m.keys_b, m.b),
    ensures
        sound(m),
{
    assert(m.candidates.take(0) =~= Seq::<Seq<char>>::empty());
}

proof fn lemma_level2_sound(m: DiffModel, same_target: bool)
    requires
        sound(m),
        m.i < m.keys_a.len(),
        m.keys_a.len() <= u64::MAX,
        m.k == 0,
    ensures
        sound(level2_next(m, same_target)),
{
    let n = level2_next(m, same_target);
    let x = m.keys_a[m.i];
    lemma_not_yet(m.keys_a, m.i);
    assert(m.a.contains_key(x));
    assert(m.candidates.take(0) =~= Seq::<Seq<char>>::empty());
    assert(n.candidates.take(0) =~= Seq::<Seq<char>>::empty());
    assert forall|y: Seq<char>| #[trigger] n.result.contains_key(y) <==> settled(n, y) by {
        lemma_take_next(m.keys_a, m.i, y);
        assert(m.result.contains_key(y) <==> settled(m, y));
    }
    assert forall|y: Seq<char>| #[trigger] n.result.contains_key(y) implies n.result[y] == verdict(
        n,
        y,
    ) by {
        lemma_take_next(m.keys_a, m.i, y);
        assert(m.result.contains_key(y) <==> settled(m, y));
        if y != x {
            assert(m.result.contains_key(y));
        }
    }
    assert forall|q: int| 0 <= q < n.candidates.len() implies n.keys_a.take(n.i).contains(
        #[trigger] n.candidates[q],
    ) && is_candidate(n, n.candidates[q]) by {
        lemma_take_next(m.keys_a, m.i, n.candidates[q]);
        if q < m.candidates.len() {
            assert(n.candidates[q] == m.candidates[q]);
        }
    }
    assert forall|q: int, r: int| 0 <= q < r < n.candidates.len() implies text_lt(
        #[trigger] n.candidates[q],
        #[trigger] n.candidates[r],
    ) by {
        assert(n.candidates[q] == m.candidates[q]);
        if r < m.candidates.len() {
            assert(n.candidates[r] == m.candidates[r]);
        } else {
            assert(m.keys_a.take(m.i).contains(m.candidates[q]));
            let p = choose|p: int|
                0 <= p < m.keys_a.take(m.i).len() && m.keys_a.take(m.i)[p] == m.candidates[q];
            assert(text_lt(m.keys_a[p], m.keys_a[m.i]));
        }
    }
    assert forall|p: int|
        0 <= p < n.i && is_candidate(n, #[trigger] n.keys_a[p]) implies n.candidates.contains(
        n.keys_a[p],
    ) by {
        if p < m.i {
            assert(is_candidate(m, m.keys_a[p]));
            let q = choose|q: int|
                0 <= q < m.candidates.len() && m.candidates[q] == m.keys_a[p];
            assert(n.candidates[q] == m.keys_a[p]);
        } else {
            assert(n.candidates[n.candidates.len() - 1] == x);
        }
    }
}

proof fn lemma_only_b_sound(m: DiffModel)
    requires
        sound(m),
        m.j < m.keys_b.len(),
    ensures
        sound(only_b_next(m)),
{
    let n = only_b_next(m);
    let x = m.keys_b[m.j];
    assert(m.b.contains_key(x));
    assert forall|y: Seq<char>| #[trigger] n.result.contains_key(y) <==> settled(n, y) by {
        lemma_take_next(m.keys_b, m.j, y);
        assert(m.result.contains_key(y) <==> settled(m, y));
    }
    assert forall|y: Seq<char>| #[trigger] n.result.contains_key(y) implies n.result[y] == verdict(
        n,
        y,
    ) by {
        lemma_take_next(m.keys_b, m.j, y);
        assert(m.result.contains_key(y) <==> settled(m, y));
    }
}

proof fn lemma_content_sound(m: DiffModel, a: Reading, b: Reading)
    requires
        sound(m),
        m.mode == CompareMode::Deep,
        m.k < m.candidates.len(),
        m.candidates.len() <= u64::MAX,
    ensures
        sound(content_next(m, a, b)),
        m.unreadable < u64::MAX,
{
    let n = content_next(m, a, b);
    let x = m.candidates[m.k];
    lemma_not_yet(m.candidates, m.k);
    lemma_take_next(m.candidates, m.k, x);
    lemma_counts_keep(m.candidates.take(m.k), m.readings, x, (a, b));
    lemma_counts_bounded(m.candidates.take(m.k), m.readings);
    assert(is_candidate(m, x));
    assert forall|y: Seq<char>| #[trigger] n.result.contains_key(y) <==> settled(n, y) by {
        lemma_take_next(m.candidates, m.k, y);
        assert(m.result.contains_key(y) <==> settled(m, y));
    }
    assert forall|y: Seq<char>| #[trigger] n.result.contains_key(y) implies n.result[y] == verdict(
        n,
        y,
    ) by {
        lemma_take_next(m.candidates, m.k, y);
        assert(m.result.contains_key(y) <==> settled(m, y));
    }
    assert forall|y: Seq<char>| #[trigger] n.readings.contains_key(y) implies n.candidates.take(
        n.k,
    ).contains(y) by {
        lemma_take_next(m.candidates, m.k, y);
        if y != x {
            assert(m.readings.contains_key(y));
        }
    }
}

proof fn lemma_unread_sound(m: DiffModel)
    requires
        sound(m),
        m.k < m.candidates.len(),
        m.candidates.len() <= u64::MAX,
    ensures
        sound(unread_next(m)),
        m.aborted < u64::MAX,
{
    let n = unread_next(m);
    let x = m.candidates[m.k];
    lemma_not_yet(m.candidates, m.k);
    lemma_take_next(m.candidates, m.k, x);
    lemma_counts_bounded(m.candidates.take(m.k), m.readings);
    assert(is_candidate(m, x));
    assert(!m.readings.contains_key(x));
    assert forall|y: Seq<char>| #[trigger] n.result.contains_key(y) <==> settled(n, y) by {
        lemma_take_next(m.candidates, m.k, y);
        assert(m.result.contains_key(y) <==> settled(m, y));
    }
    assert forall|y: Seq<char>| #[trigger] n.result.contains_key(y) implies n.result[y] == verdict(
        n,
        y,
    ) by {
        lemma_take_next(m.candidates, m.k, y);
        assert(m.result.contains_key(y) <==> settled(m, y));
    }
    assert forall|y: Seq<char>| #[trigger] n.readings.contains_key(y) implies n.candidates.take(
        n.k,
    ).contains(y) by {
        lemma_take_next(m.candidates, m.k, y);
        assert(m.readings.contains_key(y));
    }
}

/// When everything was gone through, every position of either side has exactly
/// one status, and it is the right one.
pub proof fn law_every_position_is_judged(m: DiffModel, x: Seq<char>)
    requires
        sound(m),
        complete(m),
    ensures
        m.result.contains_key(x) <==> m.a.contains_key(x) || m.b.contains_key(x),
        m.result.contains_key(x) ==> m.result[x] == verdict(m, x),
{
    assert(m.keys_a.take(m.i) =~= m.keys_a);
    assert(m.keys_b.take(m.j) =~= m.keys_b);
    assert(m.candidates.take(m.k) =~= m.candidates);
    assert(m.result.contains_key(x) <==> settled(m, x));
    if m.a.contains_key(x) {
        assert(m.keys_a.contains(x));
        let p = choose|p: int| 0 <= p < m.keys_a.len() && m.keys_a[p] == x;
        if is_candidate(m, x) {
            assert(is_candidate(m, m.keys_a[p]));
        }
    } else if m.b.contains_key(x) {
        assert(m.keys_b.contains(x));
    }
    if m.keys_a.contains(x) {
        let p = choose|p: int| 0 <= p < m.keys_a.len() && m.keys_a[p] == x;
        assert(m.a.contains_key(m.keys_a[p]));
    }
    if m.keys_b.contains(x) {
        let p = choose|p: int| 0 <= p < m.keys_b.len() && m.keys_b[p] == x;
        assert(m.b.contains_key(m.keys_b[p]));
    }
    if m.candidates.contains(x) {
        let p = choose|p: int| 0 <= p < m.candidates.len() && m.candidates[p] == x;
        assert(is_candidate(m, m.candidates[p]));
    }
}

/// How many of some positions are judged unreadable.
pub open spec fn count_judged_unreadable(m: DiffModel, keys: Seq<Seq<char>>) -> nat
    decreases keys.len(),
{
    if keys.len() == 0 {
        0
    } else {
        count_judged_unreadable(m, keys.drop_last()) + if verdict(m, keys.last())
            == DiffStatus::Unreadable {
            1nat
        } else {
            0
        }
    }
}

/// The two counters together say how many contents are shown as unreadable, and
/// in a fast comparison there are none.
pub proof fn law_the_unreadable_are_counted(m: DiffModel)
    requires
        sound(m),
        complete(m),
    ensures
        m.unreadable + m.aborted == count_judged_unreadable(m, m.candidates),
{
    assert(m.candidates.take(m.k) =~= m.candidates);
    lemma_judged_counts(m, m.candidates.len() as int);
    assert(m.candidates.take(m.candidates.len() as int) =~= m.candidates);
}

proof fn lemma_judged_counts(m: DiffModel, n: int)
    requires
        sound(m),
        0 <= n <= m.candidates.len(),
    ensures
        m.mode == CompareMode::Deep ==> count_judged_unreadable(m, m.candidates.take(n))
            == count_unreadable(m.candidates.take(n), m.readings) + count_unread(
            m.candidates.take(n),
            m.readings,
        ),
        m.mode == CompareMode::Fast ==> count_judged_unreadable(m, m.candidates.take(n)) == 0,
    decreases n,
{
    if n > 0 {
        lemma_judged_counts(m, n - 1);
        lemma_take_next(m.candidates, n - 1, m.candidates[n - 1]);
        assert(is_candidate(m, m.candidates[n - 1]));
    }
}

/// A fast comparison reads no content: what matches in size and time counts as
/// the same there.
pub proof fn law_fast_trusts_size_and_time(m: DiffModel, x: Seq<char>)
    requires
        sound(m),
        complete(m),
        m.mode == CompareMode::Fast,
        is_candidate(m, x),
    ensures
        m.result.contains_key(x) && m.result[x] == DiffStatus::Same,
{
    law_every_position_is_judged(m, x);
}

/// A file that cannot be read is never shown as a file that changed.
pub proof fn law_unread_is_not_changed(m: DiffModel, x: Seq<char>)
    requires
        sound(m),
        complete(m),
        m.mode == CompareMode::Deep,
        is_candidate(m, x),
        m.readings.contains_key(x) ==> m.readings[x].0 is Err || m.readings[x].1 is Err,
    ensures
        m.result[x] == DiffStatus::Unreadable,
{
    law_every_position_is_judged(m, x);
}

/// Two plain files of one size are told apart by their times: where those lie more than
/// two seconds apart, whichever of the two is the newer one, the files differ, and
/// otherwise only the content can tell.
pub proof fn law_two_seconds_are_the_limit(a: ScannedFile, b: ScannedFile, same_target: bool)
    requires
        !a.is_dir && !a.is_symlink,
        !b.is_dir && !b.is_symlink,
        a.size == b.size,
    ensures
        a.modified > b.modified + 2 ==> second_level(a, b, same_target) == Some(DiffStatus::Diff),
        b.modified > a.modified + 2 ==> second_level(a, b, same_target) == Some(DiffStatus::Diff),
        a.modified <= b.modified + 2 && b.modified <= a.modified + 2 ==> second_level(
            a,
            b,
            same_target,
        ) is None,
{
}

/// The second level settles everything but plain files of one size: a link is the same
/// only as a link with the same target, a folder only as a folder, and files of two
/// sizes differ.
pub proof fn law_kind_and_size_tell_apart(a: ScannedFile, b: ScannedFile, same_target: bool)
    ensures
        a.is_symlink != b.is_symlink ==> second_level(a, b, same_target) == Some(DiffStatus::Diff),
        a.is_symlink && b.is_symlink ==> second_level(a, b, same_target) == Some(
            if same_target {
                DiffStatus::Same
            } else {
                DiffStatus::Diff
            },
        ),
        !a.is_symlink && !b.is_symlink && a.is_dir != b.is_dir ==> second_level(a, b, same_target)
            == Some(DiffStatus::Diff),
        !a.is_symlink && !b.is_symlink && a.is_dir && b.is_dir ==> second_level(a, b, same_target)
            == Some(DiffStatus::Same),
        !a.is_symlink && !b.is_symlink && !a.is_dir && !b.is_dir && a.size != b.size
            ==> second_level(a, b, same_target) == Some(DiffStatus::Diff),
{
}

/// Which side is which makes no difference to the second level, and whether an item is
/// hidden never does.
pub proof fn law_the_second_level_has_no_sides(
    a: ScannedFile,
    b: ScannedFile,
    hidden_a: bool,
    hidden_b: bool,
    same_target: bool,
)
    ensures
        second_level(a, b, same_target) == second_level(b, a, same_target),
        second_level(a, b, same_target) == second_level(
            ScannedFile { hidden: hidden_a, ..a },
            ScannedFile { hidden: hidden_b, ..b },
            same_target,
        ),
{
}

/// What is on one side only is shown so, and nothing else is.
pub proof fn law_one_sided_positions_are_shown_so(m: DiffModel, x: Seq<char>)
    requires
        sound(m),
        complete(m),
    ensures
        m.a.contains_key(x) && !m.b.contains_key(x) <==> m.result.contains_key(x) && m.result[x]
            == DiffStatus::OnlyA,
        m.b.contains_key(x) && !m.a.contains_key(x) <==> m.result.contains_key(x) && m.result[x]
            == DiffStatus::OnlyB,
{
    law_every_position_is_judged(m, x);
}

/// What is shown as the same is the same in everything that was looked at: the kind, the
/// target of a link, the size of a file, its time within two seconds, and in a deep
/// comparison the content, read to its end on both sides.
pub proof fn law_the_same_in_everything(m: DiffModel, x: Seq<char>)
    requires
        sound(m),
        complete(m),
        m.result.contains_key(x),
    ensures
        m.result[x] == DiffStatus::Same <==> {
            let a = m.a[x];
            let b = m.b[x];
            &&& m.a.contains_key(x) && m.b.contains_key(x)
            &&& a.is_symlink == b.is_symlink
            &&& a.is_symlink ==> m.links[x]
            &&& !a.is_symlink ==> a.is_dir == b.is_dir
            &&& !a.is_symlink && !a.is_dir ==> {
                &&& a.size == b.size
                &&& a.modified <= b.modified + 2
                &&& b.modified <= a.modified + 2
                &&& m.mode == CompareMode::Deep ==> m.readings.contains_key(x) && (
                m.readings[x].0 matches Ok(p) && m.readings[x].1 matches Ok(q) && p.bytes@
                    == q.bytes@)
            }
        },
{
    law_every_position_is_judged(m, x);
}

/// Two plain files differ where their sizes do, where their times lie more than two
/// seconds apart, in either mode, and where their contents were read and are not the
/// same. Nothing else makes plain files differ.
pub proof fn law_what_makes_files_differ(m: DiffModel, x: Seq<char>)
    requires
        sound(m),
        complete(m),
        m.a.contains_key(x) && !m.a[x].is_dir && !m.a[x].is_symlink,
        m.b.contains_key(x) && !m.b[x].is_dir && !m.b[x].is_symlink,
    ensures
        m.result[x] == DiffStatus::Diff <==> {
            ||| m.a[x].size != m.b[x].size
            ||| m.a[x].modified > m.b[x].modified + 2
            ||| m.b[x].modified > m.a[x].modified + 2
            ||| m.mode == CompareMode::Deep && m.readings.contains_key(x) && (
            m.readings[x].0 matches Ok(p) && m.readings[x].1 matches Ok(q) && p.bytes@ != q.bytes@)
        },
{
    law_every_position_is_judged(m, x);
}

/// Two comparisons of the same two sides, with the sides swapped, agree on everything:
/// what is only on the first side of one is only on the second side of the other.
pub proof fn law_a_comparison_can_be_turned_round(m: DiffModel, n: DiffModel, x: Seq<char>)
    requires
        sound(m) && complete(m),
        sound(n) && complete(n),
        n.a == m.b && n.b == m.a && n.mode == m.mode,
        n.links[x] == m.links[x],
        n.readings.contains_key(x) == m.readings.contains_key(x),
        n.readings[x] == (m.readings[x].1, m.readings[x].0),
    ensures
        m.result.contains_key(x) == n.result.contains_key(x),
        m.result.contains_key(x) ==> {
            &&& m.result[x] == DiffStatus::OnlyA <==> n.result[x] == DiffStatus::OnlyB
            &&& m.result[x] == DiffStatus::OnlyB <==> n.result[x] == DiffStatus::OnlyA
            &&& m.result[x] == DiffStatus::Same <==> n.result[x] == DiffStatus::Same
            &&& m.result[x] == DiffStatus::Diff <==> n.result[x] == DiffStatus::Diff
            &&& m.result[x] == DiffStatus::Unreadable <==> n.result[x] == DiffStatus::Unreadable
        },
{
    law_every_position_is_judged(m, x);
    law_every_position_is_judged(n, x);
}

/// Giving up on what is left takes every content that is left and no other: in a deep
/// comparison each of them is unreadable and counted as given up, in a fast one each
/// counts as the same.
pub proof fn law_giving_up_takes_all_that_is_left(m: DiffModel)
    requires
        0 <= m.k <= m.candidates.len() <= u64::MAX,
        m.aborted + m.candidates.len() - m.k <= u64::MAX,
        forall|p: int, q: int|
            0 <= p < q < m.candidates.len() ==> #[trigger] m.candidates[p]
                != #[trigger] m.candidates[q],
    ensures
        ({
            let n = unread_rest(m);
            &&& n.k == m.candidates.len()
            &&& n.unreadable == m.unreadable
            &&& n.aborted == m.aborted + (if m.mode == CompareMode::Deep {
                m.candidates.len() - m.k
            } else {
                0
            })
            &&& n.readings == m.readings
            &&& forall|q: int|
                m.k <= q < m.candidates.len() ==> n.result.contains_key(#[trigger] m.candidates[q])
                    && n.result[m.candidates[q]] == (if m.mode == CompareMode::Deep {
                    DiffStatus::Unreadable
                } else {
                    DiffStatus::Same
                })
            &&& forall|x: Seq<char>|
                !m.candidates.skip(m.k).contains(x) ==> (#[trigger] n.result.contains_key(x)
                    == m.result.contains_key(x) && n.result[x] == m.result[x])
        }),
    decreases m.candidates.len() - m.k,
{
    let left = m.candidates.skip(m.k);
    if m.k < m.candidates.len() {
        let next = unread_next(m);
        law_giving_up_takes_all_that_is_left(next);
        let n = unread_rest(m);
        let x = m.candidates[m.k];
        let rest = m.candidates.skip(m.k + 1);
        assert(left[0] == x);
        assert forall|y: Seq<char>| rest.contains(y) implies left.contains(y) by {
            let p = choose|p: int| 0 <= p < rest.len() && rest[p] == y;
            assert(left[p + 1] == y);
        }
        assert(!rest.contains(x)) by {
            if rest.contains(x) {
                let p = choose|p: int| 0 <= p < rest.len() && rest[p] == x;
                assert(m.candidates[m.k + 1 + p] == x);
            }
        }
        assert(n.result.contains_key(x) == next.result.contains_key(x));
        assert forall|y: Seq<char>| !left.contains(y) implies (#[trigger] n.result.contains_key(y)
            == m.result.contains_key(y) && n.result[y] == m.result[y]) by {
            assert(!rest.contains(y));
            assert(y != x);
        }
    }
}

/// A content that was read is settled by what was read, and is counted as unreadable
/// exactly where one of the two could not be.
pub proof fn law_a_reading_settles_its_position(m: DiffModel, a: Reading, b: Reading)
    requires
        0 <= m.k < m.candidates.len(),
        m.unreadable < u64::MAX,
    ensures
        ({
            let n = content_next(m, a, b);
            let x = m.candidates[m.k];
            &&& n.k == m.k + 1
            &&& n.aborted == m.aborted
            &&& n.unreadable == m.unreadable + (if a is Err || b is Err {
                1int
            } else {
                0
            })
            &&& n.result == m.result.insert(x, n.result[x])
            &&& a is Err || b is Err <==> n.result[x] == DiffStatus::Unreadable
            &&& n.result[x] == DiffStatus::Same <==> (a matches Ok(p) && b matches Ok(q) && p.bytes@
                == q.bytes@)
        }),
{
}

/// There are twice as many bytes to read as the files to be read hold, because each is
/// read on both sides.
pub proof fn law_both_sides_are_read(m: DiffModel, x: Seq<char>)
    requires
        2 * bytes_in(m.candidates, m.a) + 2 * m.a[x].size <= u64::MAX,
    ensures
        bytes_to_read(DiffModel { candidates: m.candidates.push(x), ..m }) == bytes_to_read(m) + 2
            * m.a[x].size,
        bytes_to_read(DiffModel { candidates: Seq::empty(), ..m }) == 0,
{
    let more = m.candidates.push(x);
    assert(more.drop_last() =~= m.candidates);
}

/// Every content that is needed is asked for in turn, with the size that its file has, as
/// long as fewer than eight readers are stuck; with eight of them all that is left is
/// given up, and nothing is asked for any more.
pub proof fn law_contents_are_asked_for_in_turn(m: DiffModel, leaked: u64)
    requires
        0 <= m.k <= m.candidates.len() <= u64::MAX,
        m.aborted + m.candidates.len() - m.k <= u64::MAX,
        forall|p: int, q: int|
            0 <= p < q < m.candidates.len() ==> #[trigger] m.candidates[p]
                != #[trigger] m.candidates[q],
    ensures
        leaked < 8 ==> next_due(m, leaked).0 == m && (next_due(m, leaked).1 is Some <==> m.k
            < m.candidates.len()),
        next_due(m, leaked).1 matches Some(due) ==> due.0 == m.candidates[m.k] && due.1
            == m.a[due.0].size,
        leaked >= 8 ==> next_due(m, leaked).1 is None && next_due(m, leaked).0.k
            == m.candidates.len(),
{
    law_giving_up_takes_all_that_is_left(m);
}

/// The third level reports at every fiftieth content and once at its end, with how many
/// there were and are, and how many bytes of how many.
pub proof fn law_contents_are_reported(m: DiffModel, bytes_done: u64)
    requires
        0 <= m.k < m.candidates.len() < u64::MAX,
    ensures
        content_report(m, bytes_done) is Some <==> (m.k + 1) % 50 == 0,
        content_report(m, bytes_done) matches Some(r) ==> r.phase == ProgressPhase::Level3
            && r.count == m.k + 1 && r.total == m.candidates.len() && r.current_path
            == m.candidates[m.k] && r.bytes_done == bytes_done && r.bytes_total == bytes_to_read(m),
        closing_report(m, bytes_done) is Some <==> m.mode == CompareMode::Deep,
        closing_report(m, bytes_done) matches Some(r) ==> r.phase == ProgressPhase::Level3
            && r.count == m.candidates.len() && r.total == m.candidates.len() && r.current_path
            == m.candidates.last() && r.bytes_done == bytes_done && r.bytes_total == bytes_to_read(
            m,
        ),
{
}

/// A comparison begins with nothing settled, and is over only when both sides were gone
/// through and every content that is needed was settled.
pub proof fn law_a_comparison_begins_with_nothing(
    a: Map<Seq<char>, ScannedFile>,
    b: Map<Seq<char>, ScannedFile>,
    keys_a: Seq<Seq<char>>,
    keys_b: Seq<Seq<char>>,
    mode: CompareMode,
)
    ensures
        ({
            let m = diff_start(a, b, keys_a, keys_b, mode);
            &&& m.a == a && m.b == b && m.mode == mode
            &&& m.result.dom().is_empty() && m.candidates.len() == 0
            &&& m.unreadable == 0 && m.aborted == 0
            &&& complete(m) <==> keys_a.len() == 0 && keys_b.len() == 0
        }),
{
}

/// The second level reports at every five hundredth pair, with how many there were, and
/// at no other position.
pub proof fn law_pairs_are_reported(m: DiffModel)
    requires
        0 <= m.i < m.keys_a.len() <= u64::MAX,
        m.keys_b.len() <= u64::MAX,
        m.pairs < u64::MAX,
    ensures
        level2_report(m) is Some <==> m.b.contains_key(m.keys_a[m.i]) && (m.pairs + 1) % 500 == 0,
        level2_report(m) matches Some(r) ==> r.phase == ProgressPhase::Level2 && r.count == m.pairs
            + 1 && r.current_path == m.keys_a[m.i] && r.total <= m.keys_a.len() && r.total
            <= m.keys_b.len() && (r.total == m.keys_a.len() || r.total == m.keys_b.len()),
{
}

/// A comparison on its way.
pub struct DiffRun {
    a: PathMap<ScannedFile>,
    b: PathMap<ScannedFile>,
    mode: CompareMode,
    i: usize,
    j: usize,
    k: usize,
    pairs: u64,
    candidates: Vec<String>,
    statuses: Vec<(String, DiffStatus)>,
    unreadable: u64,
    aborted: u64,
    links: Ghost<Map<Seq<char>, bool>>,
    readings: Ghost<Map<Seq<char>, (Reading, Reading)>>,
}

/// What a comparison found.
pub struct Compared {
    /// What was found on the first side.
    pub a: PathMap<ScannedFile>,
    /// What was found on the second side.
    pub b: PathMap<ScannedFile>,
    /// How the positions compare.
    pub statuses: PathMap<DiffStatus>,
    /// How many contents could not be read.
    pub unreadable: u64,
    /// How many contents were given up unread.
    pub aborted: u64,
}

impl DiffRun {
    /// The comparison as a mathematical value.
    pub closed spec fn model(&self) -> DiffModel {
        DiffModel {
            a: self.a@,
            b: self.b@,
            keys_a: self.a.keys(),
            keys_b: self.b.keys(),
            mode: self.mode,
            i: self.i as int,
            j: self.j as int,
            k: self.k as int,
            pairs: self.pairs,
            candidates: texts(self.candidates@),
            links: self.links@,
            readings: self.readings@,
            result: map_of(self.statuses@),
            unreadable: self.unreadable,
            aborted: self.aborted,
        }
    }

    #[verifier::type_invariant]
    spec fn holds(&self) -> bool {
        sound(self.model())
    }

    /// A comparison of what was found on two sides.
    pub fn new(a: PathMap<ScannedFile>, b: PathMap<ScannedFile>, mode: CompareMode) -> (r: Self)
        ensures
            r.model() == diff_start(a@, b@, a.keys(), b.keys(), mode),
            sound(r.model()),
    {
        let _ = a.len();
        let _ = b.len();
        let candidates: Vec<String> = Vec::new();
        let statuses: Vec<(String, DiffStatus)> = Vec::new();
        proof {
            assert(texts(candidates@) =~= Seq::<Seq<char>>::empty());
            assert(map_of(statuses@) =~= Map::<Seq<char>, DiffStatus>::empty());
            lemma_start_sound(diff_start(a@, b@, a.keys(), b.keys(), mode));
        }
        DiffRun {
            a,
            b,
            mode,
            i: 0,
            j: 0,
            k: 0,
            pairs: 0,
            candidates,
            statuses,
            unreadable: 0,
            aborted: 0,
            links: Ghost(Map::empty()),
            readings: Ghost(Map::empty()),
        }
    }

    /// Whether there are positions of the first side left to compare.
    pub fn more_a(&self) -> (r: bool)
        ensures
            r == (self.model().i < self.model().keys_a.len() && self.model().k == 0),
    {
        self.i < self.a.len() && self.k == 0
    }

    /// The next position of the first side.
    pub fn key_a(&self) -> (r: &String)
        requires
            self.model().i < self.model().keys_a.len(),
        ensures
            r@ == self.model().keys_a[self.model().i],
    {
        self.a.key_at(self.i)
    }

    /// Whether the next position of the first side is a link on both sides: the
    /// targets have to be read.
    pub fn is_link_pair(&self) -> (r: bool)
        requires
            self.model().i < self.model().keys_a.len(),
        ensures
            r == ({
                let m = self.model();
                let x = m.keys_a[m.i];
                m.a[x].is_symlink && m.b.contains_key(x) && m.b[x].is_symlink
            }),
    {
        let x = self.a.value_at(self.i);
        match self.b.get(self.a.key_at(self.i)) {
            Some(y) => x.is_symlink && y.is_symlink,
            None => false,
        }
    }

    /// The comparison after the next position of the first side. Where that is a
    /// link on both sides, it is given whether the targets are the same.
    pub fn step_a(self, same_target: bool) -> (r: (Self, Option<CompareProgress<String>>))
        requires
            self.model().i < self.model().keys_a.len(),
            self.model().k == 0,
        ensures
            r.0.model() == level2_next(self.model(), same_target),
            report_of(r.1) == level2_report(self.model()),
            sound(r.0.model()),
    {
        let of_a: usize = self.a.len();
        let of_b: usize = self.b.len();
        proof {
            use_type_invariant(&self);
            lemma_level2_sound(self.model(), same_target);
        }
        let ghost m = self.model();
        let ghost n = level2_next(m, same_target);
        let DiffRun {
            a,
            b,
            mode,
            i,
            j,
            k,
            pairs,
            mut candidates,
            mut statuses,
            unreadable,
            aborted,
            mut links,
            readings,
        } = self;
        let total: usize = if of_a <= of_b {
            of_a
        } else {
            of_b
        };
        let key = a.key_at(i);
        let x = a.value_at(i);
        let mut now: u64 = pairs;
        let mut out: Option<CompareProgress<String>> = None;
        match b.get(key) {
            None => {
                statuses.push((key.clone(), DiffStatus::OnlyA));
                assert(statuses@.drop_last() =~= self.statuses@);
            },
            Some(y) => {
                match level2(&x, &y, same_target) {
                    Some(status) => {
                        statuses.push((key.clone(), status));
                        proof {
                            assert(statuses@.drop_last() =~= self.statuses@);
                            links@ = links@.insert(key@, same_target);
                        }
                    },
                    None => {
                        candidates.push(key.clone());
                        assert(texts(candidates@) =~= m.candidates.push(key@));
                    },
                }
                now = pairs + 1;
                if now % PROGRESS_EVERY_L2 == 0 {
                    out = Some(
                        CompareProgress {
                            phase: ProgressPhase::Level2,
                            count: now,
                            total: total as u64,
                            current_path: key.clone(),
                            bytes_done: 0,
                            bytes_total: 0,
                        },
                    );
                }
            },
        }
        assert(map_of(statuses@) =~= n.result);
        let r = DiffRun {
            a,
            b,
            mode,
            i: i + 1,
            j,
            k,
            pairs: now,
            candidates,
            statuses,
            unreadable,
            aborted,
            links,
            readings,
        };
        (r, out)
    }

    /// Whether there are positions of the second side left to look up.
    pub fn more_b(&self) -> (r: bool)
        ensures
            r == (self.model().j < self.model().keys_b.len()),
    {
        self.j < self.b.len()
    }

    /// The comparison after the next position of the second side.
    pub fn step_b(self) -> (r: Self)
        requires
            self.model().j < self.model().keys_b.len(),
        ensures
            r.model() == only_b_next(self.model()),
            sound(r.model()),
    {
        proof {
            use_type_invariant(&self);
            lemma_only_b_sound(self.model());
        }
        let ghost n = only_b_next(self.model());
        let DiffRun {
            a,
            b,
            mode,
            i,
            j,
            k,
            pairs,
            candidates,
            mut statuses,
            unreadable,
            aborted,
            links,
            readings,
        } = self;
        let last: usize = b.len();
        assert(j < last);
        let key = b.key_at(j);
        match a.get(key) {
            Some(_) => {},
            None => {
                statuses.push((key.clone(), DiffStatus::OnlyB));
                assert(statuses@.drop_last() =~= self.statuses@);
            },
        }
        assert(map_of(statuses@) =~= n.result);
        DiffRun {
            a,
            b,
            mode,
            i,
            j: j + 1,
            k,
            pairs,
            candidates,
            statuses,
            unreadable,
            aborted,
            links,
            readings,
        }
    }

    /// The comparison after all contents that are left, none of them read.
    fn pass_rest(self) -> (r: Self)
        ensures
            r.model() == unread_rest(self.model()),
            sound(r.model()),
    {
        let mut run = self;
        proof {
            use_type_invariant(&run);
        }
        while run.k < run.candidates.len()
            invariant
                sound(run.model()),
                unread_rest(self.model()) == unread_rest(run.model()),
            decreases run.candidates@.len() - run.k,
        {
            run = run.pass_one();
        }
        run
    }

    /// The comparison after the next content, which counts without being read.
    fn pass_one(self) -> (r: Self)
        requires
            self.model().k < self.model().candidates.len(),
        ensures
            r.model() == unread_next(self.model()),
            sound(r.model()),
            r.candidates@.len() - r.k < self.candidates@.len() - self.k,
    {
        let count: usize = self.candidates.len();
        proof {
            use_type_invariant(&self);
            assert(self.k < count);
            lemma_unread_sound(self.model());
        }
        let ghost n = unread_next(self.model());
        let DiffRun {
            a,
            b,
            mode,
            i,
            j,
            k,
            pairs,
            candidates,
            mut statuses,
            unreadable,
            aborted,
            links,
            readings,
        } = self;
        let key = candidates[k].clone();
        assert(key@ == texts(candidates@)[k as int]);
        let mut given_up: u64 = aborted;
        if matches!(mode, CompareMode::Fast) {
            statuses.push((key, DiffStatus::Same));
        } else {
            statuses.push((key, DiffStatus::Unreadable));
            given_up = aborted + 1;
        }
        assert(statuses@.drop_last() =~= self.statuses@);
        assert(map_of(statuses@) =~= n.result);
        DiffRun {
            a,
            b,
            mode,
            i,
            j,
            k: k + 1,
            pairs,
            candidates,
            statuses,
            unreadable,
            aborted: given_up,
            links,
            readings,
        }
    }

    /// A fast comparison settles all contents without reading any.
    pub fn settle_fast(self) -> (r: Self)
        ensures
            r.model() == (if self.model().mode == CompareMode::Fast {
                unread_rest(self.model())
            } else {
                self.model()
            }),
            sound(r.model()),
    {
        proof {
            use_type_invariant(&self);
        }
        if matches!(self.mode, CompareMode::Fast) {
            self.pass_rest()
        } else {
            self
        }
    }

    /// The next content to read, by its position and its size; nothing once all
    /// are settled. With too many readers left stuck the disk is not answering:
    /// the rest is given up instead of hanging on it file after file.
    pub fn next_content(self, leaked: u64) -> (r: (Self, Option<(String, u64)>))
        ensures
            r.0.model() == next_due(self.model(), leaked).0,
            match next_due(self.model(), leaked).1 {
                Some(due) => r.1 matches Some(next) && next.0@ == due.0 && next.1 == due.1,
                None => r.1 is None,
            },
            sound(r.0.model()),
    {
        proof {
            use_type_invariant(&self);
        }
        if self.k >= self.candidates.len() {
            return (self, None);
        }
        if leaked >= MAX_LEAKED_THREADS {
            return (self.pass_rest(), None);
        }
        let key = self.candidates[self.k].clone();
        assert(key@ == texts(self.candidates@)[self.k as int]);
        assert(is_candidate(self.model(), self.model().candidates[self.k as int]));
        let size: u64 = match self.a.get(&key) {
            Some(f) => f.size,
            None => 0,
        };
        (self, Some((key, size)))
    }

    /// How many bytes of content there are to read.
    pub fn bytes_total(&self) -> (r: u64)
        ensures
            r == bytes_to_read(self.model()),
    {
        proof {
            use_type_invariant(self);
        }
        let ghost m = self.model();
        let n: usize = self.candidates.len();
        let mut sum: u64 = 0;
        let mut full = false;
        assert(m.candidates.take(0) =~= Seq::<Seq<char>>::empty());
        for i in 0..n
            invariant
                n == self.candidates@.len(),
                m == self.model(),
                sound(m),
                !full ==> sum == bytes_in(m.candidates.take(i as int), m.a),
                full ==> bytes_in(m.candidates.take(i as int), m.a) > u64::MAX,
        {
            let key = &self.candidates[i];
            proof {
                lemma_take_next(m.candidates, i as int, key@);
                assert(key@ == m.candidates[i as int]);
                assert(is_candidate(m, m.candidates[i as int]));
            }
            let size: u64 = match self.a.get(key) {
                Some(f) => f.size,
                None => 0,
            };
            if full || size > u64::MAX - sum {
                full = true;
            } else {
                sum = sum + size;
            }
        }
        assert(m.candidates.take(n as int) =~= m.candidates);
        if full || sum > u64::MAX / 2 {
            u64::MAX
        } else {
            sum * 2
        }
    }

    /// The comparison after the next content was read on both sides, or was
    /// tried to.
    pub fn content(self, read_a: Reading, read_b: Reading, bytes_done: u64) -> (r: (
        Self,
        Option<CompareProgress<String>>,
    ))
        requires
            self.model().mode == CompareMode::Deep,
            self.model().k < self.model().candidates.len(),
        ensures
            r.0.model() == content_next(self.model(), read_a, read_b),
            report_of(r.1) == content_report(self.model(), bytes_done),
            sound(r.0.model()),
    {
        let all: usize = self.candidates.len();
        proof {
            use_type_invariant(&self);
            assert(self.k < all);
            lemma_content_sound(self.model(), read_a, read_b);
        }
        let ghost n = content_next(self.model(), read_a, read_b);
        let count: u64 = self.k as u64 + 1;
        let total_bytes: u64 = if count % PROGRESS_EVERY_L3 == 0 {
            self.bytes_total()
        } else {
            0
        };
        let DiffRun {
            a,
            b,
            mode,
            i,
            j,
            k,
            pairs,
            candidates,
            mut statuses,
            unreadable,
            aborted,
            links,
            mut readings,
        } = self;
        let key = candidates[k].clone();
        assert(key@ == texts(candidates@)[k as int]);
        let status = compare_contents(&read_a, &read_b);
        let mut unread: u64 = unreadable;
        if matches!(status, DiffStatus::Unreadable) {
            unread = unreadable + 1;
        }
        let out: Option<CompareProgress<String>> = if count % PROGRESS_EVERY_L3 == 0 {
            Some(
                CompareProgress {
                    phase: ProgressPhase::Level3,
                    count,
                    total: candidates.len() as u64,
                    current_path: key.clone(),
                    bytes_done,
                    bytes_total: total_bytes,
                },
            )
        } else {
            None
        };
        statuses.push((key, status));
        proof {
            readings@ = readings@.insert(key@, (read_a, read_b));
            assert(statuses@.drop_last() =~= self.statuses@);
            assert(map_of(statuses@) =~= n.result);
        }
        let r = DiffRun {
            a,
            b,
            mode,
            i,
            j,
            k: k + 1,
            pairs,
            candidates,
            statuses,
            unreadable: unread,
            aborted,
            links,
            readings,
        };
        (r, out)
    }

    /// The last report of the third level, in a deep comparison with contents to
    /// read: it also comes when the comparison was cancelled.
    pub fn last_report(&self, bytes_done: u64) -> (r: Option<CompareProgress<String>>)
        ensures
            report_of(r) == closing_report(self.model(), bytes_done),
    {
        let n: usize = self.candidates.len();
        if matches!(self.mode, CompareMode::Fast) || n == 0 {
            return None;
        }
        assert(self.model().candidates.last() == self.candidates@[n - 1]@);
        Some(
            CompareProgress {
                phase: ProgressPhase::Level3,
                count: n as u64,
                total: n as u64,
                current_path: self.candidates[n - 1].clone(),
                bytes_done,
                bytes_total: self.bytes_total(),
            },
        )
    }

    /// Whether everything was gone through.
    pub fn is_complete(&self) -> (r: bool)
        ensures
            r == complete(self.model()),
    {
        self.i == self.a.len() && self.j == self.b.len() && self.k == self.candidates.len()
    }

    /// What the comparison found.
    pub fn finish(self) -> (r: Compared)
        requires
            complete(self.model()),
        ensures
            r.a@ == self.model().a,
            r.b@ == self.model().b,
            r.unreadable == self.model().unreadable,
            r.aborted == self.model().aborted,
            forall|x: Seq<char>| #[trigger]
                r.statuses@.contains_key(x) <==> self.model().a.contains_key(x)
                    || self.model().b.contains_key(x),
            forall|x: Seq<char>| #[trigger]
                r.statuses@.contains_key(x) ==> r.statuses@[x] == verdict(self.model(), x),
    {
        proof {
            use_type_invariant(&self);
            assert forall|x: Seq<char>| #[trigger]
                self.model().result.contains_key(x) <==> self.model().a.contains_key(x)
                    || self.model().b.contains_key(x) by {
                law_every_position_is_judged(self.model(), x);
            }
        }
        let statuses = PathMap::new(&self.statuses);
        Compared {
            a: self.a,
            b: self.b,
            statuses,
            unreadable: self.unreadable,
            aborted: self.aborted,
        }
    }
}

} // verus!
